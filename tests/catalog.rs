use crossword_collab::catalog::select_new_crossword_nos;

#[test]
fn only_unstored_numbers_are_selected_in_order() {
    assert_eq!(select_new_crossword_nos(&vec![29003, 29001, 29002], &vec![29001, 28000]), vec![29003, 29002]);
}

#[test]
fn nothing_is_selected_when_all_are_stored() {
    assert_eq!(select_new_crossword_nos(&vec![5, 6], &vec![6, 5]), Vec::<i64>::new());
    assert_eq!(select_new_crossword_nos(&vec![], &vec![1]), Vec::<i64>::new());
}

#[test]
fn everything_is_selected_when_nothing_is_stored() {
    assert_eq!(select_new_crossword_nos(&vec![7, 7, 8], &vec![]), vec![7, 7, 8]);
}

use crossword_collab::catalog::{crossword_nos_from_links, is_series_link};
use crossword_collab::errors::AppError;

const SERIES: &str = "https://www.theguardian.com/crosswords/cryptic";

fn links(items: &[&str]) -> Vec<String> {
    items.iter().map(|s| s.to_string()).collect()
}

#[test]
fn series_links_are_recognised_by_prefix() {
    assert!(is_series_link("https://www.theguardian.com/crosswords/cryptic/29001", SERIES));
    assert!(!is_series_link("https://www.theguardian.com/crosswords/series/cryptic", SERIES));
    assert!(!is_series_link("https://www.theguardian.com/crosswords", SERIES));
}

#[test]
fn numbers_are_read_from_crossword_links() {
    let found = crossword_nos_from_links(
        &links(&[
            "https://www.theguardian.com/crosswords/cryptic/29001",
            "https://www.theguardian.com/crosswords/quick/17000",
            "https://www.theguardian.com/crosswords/cryptic/28999/",
            "/about",
        ]),
        SERIES,
    );
    assert_eq!(found, Ok(vec![29001, 28999]));
}

#[test]
fn no_crossword_links_gives_no_numbers() {
    assert_eq!(crossword_nos_from_links(&links(&["/about", "/contact"]), SERIES), Ok(vec![]));
}

#[test]
fn crossword_link_without_a_number_fails() {
    let found = crossword_nos_from_links(
        &links(&["https://www.theguardian.com/crosswords/cryptic/29001", "https://www.theguardian.com/crosswords/cryptic/latest"]),
        SERIES,
    );
    assert!(matches!(found, Err(AppError::InternalServerError(_))));
}
