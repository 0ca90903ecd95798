//! Parsing of the index argument: signs, whitespace, bounds, and the
//! errors for missing or malformed input.

use rustask::TodoError;
use rustask::parse_index;

fn args(xs: &[&str]) -> Vec<String> {
    xs.iter().map(|x| x.to_string()).collect()
}

#[test]
fn parse_index_reads_a_plain_number() {
    assert_eq!(parse_index(&args(&["7"])), Ok(7));
    assert_eq!(parse_index(&args(&["0"])), Ok(0));
    assert_eq!(parse_index(&args(&["007"])), Ok(7));
    assert_eq!(parse_index(&args(&["+5"])), Ok(5));
    assert_eq!(parse_index(&args(&["-3"])), Ok(-3));
}

#[test]
fn parse_index_trims_surrounding_whitespace() {
    assert_eq!(parse_index(&args(&["  7  "])), Ok(7));
    assert_eq!(parse_index(&args(&["\t12\n"])), Ok(12));
}

#[test]
fn parse_index_keeps_the_full_i8_range() {
    assert_eq!(parse_index(&args(&["127"])), Ok(127));
    assert_eq!(parse_index(&args(&["-128"])), Ok(-128));
}

#[test]
fn parse_index_rejects_out_of_range_numbers() {
    assert_eq!(parse_index(&args(&["128"])), Err(TodoError::Parse));
    assert_eq!(parse_index(&args(&["-129"])), Err(TodoError::Parse));
    assert_eq!(parse_index(&args(&["1000"])), Err(TodoError::Parse));
    assert_eq!(parse_index(&args(&["99999999999999999999"])), Err(TodoError::Parse));
}

#[test]
fn parse_index_rejects_malformed_input() {
    assert_eq!(parse_index(&args(&["abc"])), Err(TodoError::Parse));
    assert_eq!(parse_index(&args(&["1a"])), Err(TodoError::Parse));
    assert_eq!(parse_index(&args(&["1 2"])), Err(TodoError::Parse));
    assert_eq!(parse_index(&args(&[""])), Err(TodoError::Parse));
    assert_eq!(parse_index(&args(&["-"])), Err(TodoError::Parse));
    assert_eq!(parse_index(&args(&["+"])), Err(TodoError::Parse));
    assert_eq!(parse_index(&args(&["--1"])), Err(TodoError::Parse));
}

#[test]
fn parse_index_wants_an_argument() {
    assert_eq!(parse_index(&Vec::new()), Err(TodoError::Usage));
}

#[test]
fn parse_index_reads_only_the_first_argument() {
    assert_eq!(parse_index(&args(&["4", "junk"])), Ok(4));
}
