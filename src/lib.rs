//! Real-time collaborative crossword solving: grid derivation from clue
//! entries, last-writer-per-cell merging of solution edits, and the session
//! registry that routes edits between team members.
pub mod models;
pub mod catalog;
pub mod errors;
pub mod grid;
pub mod merge;
pub mod server;
pub mod session;
