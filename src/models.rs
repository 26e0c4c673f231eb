use vstd::prelude::*;

verus! {

/// A square of the grid, 0-based, `x` counting columns and `y` rows.
#[derive(Debug, Clone, Copy, PartialEq, Eq, Structural)]
pub struct Position {
    pub x: i64,
    pub y: i64,
}

/// The size of a grid.
#[derive(Debug, Clone, Copy, PartialEq, Eq, Structural)]
pub struct Dimensions {
    pub cols: i64,
    pub rows: i64,
}

/// The direction of an entry as the crossword source writes it.
#[derive(Debug, Clone, Copy, PartialEq, Eq, Structural)]
pub enum GuardianDirection {
    Across,
    Down,
}

/// Positions inside an answer where a word separator stands.
#[derive(Debug, Clone, PartialEq)]
pub struct SeparatorLocations {
    pub field: Vec<i64>,
}

#[derive(Debug, Clone, PartialEq)]
pub struct GuardianCreator {
    pub name: String,
    pub web_url: String,
}

/// One clue's placement in the grid.
#[derive(Debug, Clone, PartialEq)]
pub struct GuardianEntry {
    pub id: String,
    pub number: i64,
    pub human_number: String,
    pub clue: String,
    pub direction: GuardianDirection,
    pub length: i64,
    pub group: Vec<String>,
    pub position: Position,
    pub separator_locations: SeparatorLocations,
    pub solution: String,
}

/// A crossword as fetched from its source.
#[derive(Debug, Clone, PartialEq)]
pub struct GuardianCrossword {
    pub id: String,
    pub number: i64,
    pub name: String,
    pub creator: GuardianCreator,
    pub date: i64,
    pub web_publication_date: i64,
    pub entries: Vec<GuardianEntry>,
    pub solution_available: bool,
    pub date_solution_available: i64,
    pub dimensions: Dimensions,
    pub crossword_type: String,
    pub pdf: String,
    pub instructions: Option<String>,
}

/// What is listed about a stored crossword.
#[derive(Debug, Clone, PartialEq)]
pub struct CrosswordMetadata {
    pub id: String,
    pub series: String,
    pub series_no: i64,
    pub date: i64,
}

#[derive(Debug, Clone, Copy, PartialEq, Eq, Structural)]
pub enum Direction {
    Across,
    Down,
}

/// The identity of a clue, independent of its text.
#[derive(Debug, Clone, Copy, PartialEq, Eq, Structural)]
pub struct ClueId {
    pub number: i64,
    pub direction: Direction,
}

#[derive(Debug, Clone, PartialEq)]
pub struct Clue {
    pub number: i64,
    pub value: String,
}

#[derive(Debug, Clone, PartialEq)]
pub struct Clues {
    pub across: Vec<Clue>,
    pub down: Vec<Clue>,
}

/// What a white square shows: its number, if a clue starts there, and the
/// clues that pass through it.
#[derive(Debug, Clone, Copy, PartialEq, Eq, Structural)]
pub struct CellData {
    pub number: Option<i64>,
    pub clue_id: ClueId,
    pub clue_id_2: Option<ClueId>,
}

#[derive(Debug, Clone, Copy, PartialEq, Eq, Structural)]
pub enum Cell {
    Black,
    White { cell_data: CellData },
}

/// A renderable grid: cells in row-major order and the clue lists.
#[derive(Debug, Clone, PartialEq)]
pub struct CrosswordDto {
    pub number_of_columns: i64,
    pub number_of_rows: i64,
    pub grid: Vec<Cell>,
    pub clues: Clues,
}

/// One solution edit as clients send and receive it.
#[derive(Debug, Clone, PartialEq)]
pub struct SolutionItemDto {
    pub x: i64,
    pub y: i64,
    pub value: String,
}

/// One stored square of a team's solution.
#[derive(Debug, Clone, PartialEq)]
pub struct SolutionItem {
    pub x: i64,
    pub y: i64,
    pub value: String,
    pub modified_by: String,
}

} // verus!
