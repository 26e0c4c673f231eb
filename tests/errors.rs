use crossword_collab::errors::{to_status_code, AppError};

#[test]
fn internal_error_message() {
    let e = AppError::InternalServerError("db down".to_string());
    assert_eq!(e.message(), "Something went wrong: db down");
    assert_eq!(to_status_code(e), 500);
}

#[test]
fn not_found_message() {
    let e = AppError::CrosswordNotFound("abc".to_string());
    assert_eq!(e.message(), "Could not find crossword for id: abc");
    assert_eq!(to_status_code(e), 404);
}

#[test]
fn string_becomes_internal_error() {
    assert_eq!(AppError::from("oops".to_string()), AppError::InternalServerError("oops".to_string()));
}
