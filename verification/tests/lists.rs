//! List-valued flag queries: bracketed, comma-separated tokens.

use flag::FlagHandler;

fn handler(args: &[&str]) -> FlagHandler {
    FlagHandler::new(args.iter().map(|s| s.to_string()).collect())
}

#[test]
fn list_round_trip() {
    let h = handler(&["-nums", "[1,2,3]"]);
    assert_eq!(h.parse_vec::<u32>("nums", vec![9], "the numbers"), vec![1, 2, 3]);
}

#[test]
fn list_missing_open_bracket() {
    let h = handler(&["-nums", "1,2,3]"]);
    assert_eq!(h.parse_vec::<u32>("nums", vec![9], "the numbers"), vec![9]);
}

#[test]
fn list_missing_close_bracket() {
    let h = handler(&["-nums", "[1,2,3"]);
    assert_eq!(h.parse_vec::<u32>("nums", vec![9], "the numbers"), vec![9]);
}

#[test]
fn list_partial_parse_fails_whole() {
    let h = handler(&["-nums", "[1,x,3]"]);
    assert_eq!(h.parse_vec::<u32>("nums", vec![9], "the numbers"), vec![9]);
}

#[test]
fn list_single_element() {
    let h = handler(&["-nums", "[42]"]);
    assert_eq!(h.parse_vec::<u32>("nums", vec![9], "the numbers"), vec![42]);
}

#[test]
fn list_absent_flag_returns_default() {
    let h = handler(&["prog"]);
    assert_eq!(h.parse_vec::<u32>("nums", vec![1, 2], "the numbers"), vec![1, 2]);
}

#[test]
fn list_flag_without_token_returns_default() {
    let h = handler(&["prog", "-nums"]);
    assert_eq!(h.parse_vec::<u32>("nums", vec![1, 2], "the numbers"), vec![1, 2]);
}

#[test]
fn empty_brackets_fall_back_for_numbers() {
    // "[]" splits into one empty segment, which is no number, so the
    // whole query falls back to the default rather than an empty list.
    let h = handler(&["-nums", "[]"]);
    assert_eq!(h.parse_vec::<u32>("nums", vec![9], "the numbers"), vec![9]);
}

#[test]
fn empty_brackets_yield_one_empty_string() {
    // Every token reads as a string, so "[]" becomes one empty segment.
    let h = handler(&["-names", "[]"]);
    assert_eq!(h.parse_vec::<String>("names", vec!["d".to_string()], "the names"), vec![String::new()]);
}

#[test]
fn string_list_round_trip() {
    let h = handler(&["-names", "[a,b]"]);
    assert_eq!(
        h.parse_vec::<String>("names", vec!["d".to_string()], "the names"),
        vec!["a".to_string(), "b".to_string()]
    );
}

#[test]
fn trailing_comma_makes_empty_segment() {
    let h = handler(&["-nums", "[1,]", "-names", "[a,]"]);
    assert_eq!(h.parse_vec::<u32>("nums", vec![9], "the numbers"), vec![9]);
    assert_eq!(
        h.parse_vec::<String>("names", vec!["d".to_string()], "the names"),
        vec!["a".to_string(), String::new()]
    );
}

#[test]
fn bare_brackets_only() {
    // A lone "[" is no list: its last character is not a closing bracket.
    let h = handler(&["-nums", "["]);
    assert_eq!(h.parse_vec::<u32>("nums", vec![9], "the numbers"), vec![9]);
}

#[test]
fn signed_list_round_trip() {
    let h = handler(&["-deltas", "[-1,+2,0]"]);
    assert_eq!(h.parse_vec::<i64>("deltas", vec![9], "the deltas"), vec![-1, 2, 0]);
}

#[test]
fn list_first_occurrence_wins() {
    let h = handler(&["-nums", "[1]", "-nums", "[2]"]);
    assert_eq!(h.parse_vec::<u32>("nums", vec![9], "the numbers"), vec![1]);
}
