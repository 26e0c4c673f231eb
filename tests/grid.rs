use crossword_collab::grid::{
    fits_grid, get_cell, guardian_to_crossword_dto, guardian_to_dto_direction, to_interim_clue,
};
use crossword_collab::models::{
    Cell, CellData, Clue, ClueId, Dimensions, Direction, GuardianCreator, GuardianCrossword,
    GuardianDirection, GuardianEntry, Position, SeparatorLocations,
};

fn entry(number: i64, direction: GuardianDirection, x: i64, y: i64, length: i64, clue: &str) -> GuardianEntry {
    GuardianEntry {
        id: format!("{}-{:?}", number, direction),
        number,
        human_number: number.to_string(),
        clue: clue.to_string(),
        direction,
        length,
        group: vec![format!("{}-{:?}", number, direction)],
        position: Position { x, y },
        separator_locations: SeparatorLocations { field: vec![] },
        solution: "X".repeat(length.max(0) as usize),
    }
}

fn crossword(cols: i64, rows: i64, entries: Vec<GuardianEntry>) -> GuardianCrossword {
    GuardianCrossword {
        id: "crosswords/cryptic/1".to_string(),
        number: 1,
        name: "Cryptic crossword No 1".to_string(),
        creator: GuardianCreator { name: "Setter".to_string(), web_url: "https://example.org".to_string() },
        date: 0,
        web_publication_date: 0,
        entries,
        solution_available: true,
        date_solution_available: 0,
        dimensions: Dimensions { cols, rows },
        crossword_type: "cryptic".to_string(),
        pdf: String::new(),
        instructions: None,
    }
}

fn white(number: Option<i64>, clue_id: ClueId, clue_id_2: Option<ClueId>) -> Cell {
    Cell::White { cell_data: CellData { number, clue_id, clue_id_2 } }
}

fn across(n: i64) -> ClueId {
    ClueId { number: n, direction: Direction::Across }
}

fn down(n: i64) -> ClueId {
    ClueId { number: n, direction: Direction::Down }
}

#[test]
fn single_across_entry_fills_a_row() {
    let dto = guardian_to_crossword_dto(crossword(3, 1, vec![entry(1, GuardianDirection::Across, 0, 0, 3, "text")]));
    assert_eq!(dto.number_of_columns, 3);
    assert_eq!(dto.number_of_rows, 1);
    assert_eq!(
        dto.grid,
        vec![white(Some(1), across(1), None), white(None, across(1), None), white(None, across(1), None)]
    );
    assert_eq!(dto.clues.across, vec![Clue { number: 1, value: "text".to_string() }]);
    assert_eq!(dto.clues.down, vec![]);
}

#[test]
fn grid_has_one_cell_per_square_in_row_major_order() {
    let dto = guardian_to_crossword_dto(crossword(
        3,
        2,
        vec![entry(1, GuardianDirection::Across, 0, 1, 2, "a"), entry(2, GuardianDirection::Down, 2, 0, 2, "b")],
    ));
    assert_eq!(dto.grid.len(), 6);
    assert_eq!(
        dto.grid,
        vec![
            Cell::Black,
            Cell::Black,
            white(Some(2), down(2), None),
            white(Some(1), across(1), None),
            white(None, across(1), None),
            white(None, down(2), None),
        ]
    );
}

#[test]
fn crossing_entries_share_a_square() {
    let dto = guardian_to_crossword_dto(crossword(
        3,
        3,
        vec![
            entry(1, GuardianDirection::Across, 0, 0, 3, "top"),
            entry(1, GuardianDirection::Down, 0, 0, 3, "left"),
            entry(2, GuardianDirection::Down, 2, 0, 3, "right"),
            entry(3, GuardianDirection::Across, 0, 2, 3, "bottom"),
        ],
    ));
    assert_eq!(dto.grid[0], white(Some(1), across(1), Some(down(1))));
    assert_eq!(dto.grid[1], white(None, across(1), None));
    assert_eq!(dto.grid[2], white(Some(2), across(1), Some(down(2))));
    assert_eq!(dto.grid[4], Cell::Black);
    assert_eq!(dto.grid[6], white(Some(3), down(1), Some(across(3))));
    assert_eq!(dto.grid[8], white(None, down(2), Some(across(3))));
    assert_eq!(
        dto.clues.across,
        vec![Clue { number: 1, value: "top".to_string() }, Clue { number: 3, value: "bottom".to_string() }]
    );
    assert_eq!(
        dto.clues.down,
        vec![Clue { number: 1, value: "left".to_string() }, Clue { number: 2, value: "right".to_string() }]
    );
}

#[test]
fn no_entries_gives_an_all_black_grid() {
    let dto = guardian_to_crossword_dto(crossword(2, 2, vec![]));
    assert_eq!(dto.grid, vec![Cell::Black; 4]);
    assert!(dto.clues.across.is_empty() && dto.clues.down.is_empty());
}

#[test]
fn empty_entry_occupies_no_square() {
    let dto = guardian_to_crossword_dto(crossword(2, 1, vec![entry(1, GuardianDirection::Across, 0, 0, 0, "none")]));
    assert_eq!(dto.grid, vec![Cell::Black, Cell::Black]);
    assert_eq!(dto.clues.across, vec![Clue { number: 1, value: "none".to_string() }]);
}

#[test]
fn squares_outside_the_grid_are_dropped() {
    let dto = guardian_to_crossword_dto(crossword(2, 2, vec![entry(4, GuardianDirection::Down, 1, 1, 3, "long")]));
    assert_eq!(dto.grid, vec![Cell::Black, Cell::Black, Cell::Black, white(Some(4), down(4), None)]);
}

#[test]
fn interim_clues_of_a_down_entry_step_by_columns() {
    let pairs = to_interim_clue(&entry(5, GuardianDirection::Down, 1, 0, 3, "d"), 4);
    assert_eq!(pairs, vec![(1, (down(5), Some(5))), (5, (down(5), None)), (9, (down(5), None))]);
}

#[test]
fn interim_clues_of_an_across_entry_step_by_one() {
    let pairs = to_interim_clue(&entry(7, GuardianDirection::Across, 2, 1, 2, "a"), 5);
    assert_eq!(pairs, vec![(7, (across(7), Some(7))), (8, (across(7), None))]);
}

#[test]
fn cell_without_candidates_is_black() {
    assert_eq!(get_cell(None), Cell::Black);
    assert_eq!(get_cell(Some(&vec![])), Cell::Black);
}

#[test]
fn cell_number_comes_from_either_of_the_first_two_candidates() {
    let items = vec![(across(3), None), (down(2), Some(2))];
    assert_eq!(get_cell(Some(&items)), white(Some(2), across(3), Some(down(2))));
    let first = vec![(across(3), Some(3)), (down(2), Some(2))];
    assert_eq!(get_cell(Some(&first)), white(Some(3), across(3), Some(down(2))));
}

#[test]
fn candidates_past_the_first_two_are_ignored() {
    let three = vec![(across(1), None), (down(2), None), (across(3), Some(3))];
    assert_eq!(get_cell(Some(&three)), white(None, across(1), Some(down(2))));
    assert_eq!(get_cell(Some(&three)), get_cell(Some(&three[0..2].to_vec())));
}

#[test]
fn direction_maps_one_to_one() {
    assert_eq!(guardian_to_dto_direction(GuardianDirection::Across), Direction::Across);
    assert_eq!(guardian_to_dto_direction(GuardianDirection::Down), Direction::Down);
}

#[test]
fn ordinary_crossword_fits_its_grid() {
    let c = crossword(15, 15, vec![entry(1, GuardianDirection::Across, 0, 0, 15, "a"), entry(2, GuardianDirection::Down, 14, 0, 15, "d")]);
    assert!(fits_grid(&c));
}

#[test]
fn empty_dimensions_do_not_fit() {
    assert!(!fits_grid(&crossword(0, 3, vec![])));
    assert!(!fits_grid(&crossword(3, 0, vec![])));
    assert!(!fits_grid(&crossword(-1, -1, vec![])));
}

#[test]
fn oversized_grid_does_not_fit() {
    assert!(!fits_grid(&crossword(i64::MAX, 2, vec![])));
    assert!(fits_grid(&crossword(i64::MAX, 1, vec![])));
}

#[test]
fn entry_indices_past_64_bits_do_not_fit() {
    assert!(!fits_grid(&crossword(4, 4, vec![entry(1, GuardianDirection::Down, 0, i64::MAX / 2, 2, "far")])));
    assert!(!fits_grid(&crossword(2, 2, vec![entry(1, GuardianDirection::Across, i64::MAX - 1, 0, 3, "end")])));
    assert!(fits_grid(&crossword(2, 2, vec![entry(1, GuardianDirection::Across, i64::MAX - 2, 0, 3, "end")])));
    assert!(fits_grid(&crossword(2, 2, vec![entry(1, GuardianDirection::Across, i64::MAX, 0, 0, "none")])));
}

#[test]
fn repeated_clue_is_not_its_own_second_clue() {
    let items = vec![(across(1), Some(1)), (across(1), None), (down(2), None)];
    assert_eq!(get_cell(Some(&items)), white(Some(1), across(1), None));
    let same = vec![(across(1), None), (across(1), None)];
    assert_eq!(get_cell(Some(&same)), white(None, across(1), None));
}

#[test]
fn square_number_comes_from_the_first_entry_starting_there() {
    let dto = guardian_to_crossword_dto(crossword(
        2,
        2,
        vec![entry(1, GuardianDirection::Across, 0, 0, 2, "a"), entry(7, GuardianDirection::Down, 0, 0, 2, "d")],
    ));
    assert_eq!(dto.grid[0], white(Some(1), across(1), Some(down(7))));
}

#[test]
fn square_claimed_by_three_entries_keeps_the_first_two() {
    let dto = guardian_to_crossword_dto(crossword(
        3,
        1,
        vec![
            entry(1, GuardianDirection::Across, 0, 0, 3, "a"),
            entry(2, GuardianDirection::Down, 1, -1, 2, "d"),
            entry(3, GuardianDirection::Across, 1, 0, 1, "x"),
        ],
    ));
    assert_eq!(dto.grid[1], white(None, across(1), Some(down(2))));
}
