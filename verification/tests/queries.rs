//! Presence and typed-value queries against fixed argument vectors.

use flag::FlagHandler;

fn handler(args: &[&str]) -> FlagHandler {
    FlagHandler::new(args.iter().map(|s| s.to_string()).collect())
}

#[test]
fn absent_flag_returns_defaults() {
    let h = handler(&["prog", "-other", "1"]);
    assert_eq!(h.bool("verbose", "verbosity"), false);
    assert_eq!(h.parse::<u32>("width", 50, "the width"), 50);
}

#[test]
fn bare_flag_is_present_anywhere() {
    let h = handler(&["-early", "x", "y", "-late"]);
    assert!(h.bool("early", "at the front"));
    assert!(h.bool("late", "at the back"));
}

#[test]
fn flag_at_index_zero_counts() {
    let h = handler(&["-x"]);
    assert!(h.bool("x", "no program name in front"));
}

#[test]
fn parsed_value_is_returned() {
    let h = handler(&["prog", "-width", "800"]);
    assert_eq!(h.parse::<u32>("width", 50, "the width"), 800);
}

#[test]
fn flag_as_last_token_returns_default() {
    let h = handler(&["prog", "-width"]);
    assert_eq!(h.parse::<u32>("width", 50, "the width"), 50);
}

#[test]
fn unparseable_value_returns_default() {
    let h = handler(&["prog", "-width", "abc"]);
    assert_eq!(h.parse::<u32>("width", 50, "the width"), 50);
}

#[test]
fn first_occurrence_wins() {
    let h = handler(&["-w", "1", "-w", "2"]);
    assert_eq!(h.parse::<u32>("w", 0, "the w"), 1);
}

#[test]
fn scenario_height_and_verbose() {
    let h = handler(&["prog", "-height", "600", "-verbose"]);
    assert_eq!(h.parse::<u32>("height", 50, "the height"), 600);
    assert_eq!(h.bool("verbose", "verbosity"), true);
    assert_eq!(h.bool("missing", "not given"), false);
}

#[test]
fn exact_match_only() {
    let h = handler(&["prog", "-width", "800"]);
    assert!(!h.bool("wid", "a prefix of a flag is no flag"));
    assert_eq!(h.parse::<u32>("widths", 3, "not present"), 3);
    assert!(!h.bool("Width", "case matters"));
}

#[test]
fn string_value_is_returned() {
    let h = handler(&["prog", "-title", "hello"]);
    assert_eq!(h.parse::<String>("title", "MyTitle".to_string(), "the title"), "hello");
}

#[test]
fn string_default_comes_back() {
    let h = handler(&["prog"]);
    assert_eq!(h.parse::<String>("title", "MyTitle".to_string(), "the title"), "MyTitle");
}

#[test]
fn bool_value_tokens() {
    let h = handler(&["-active", "true", "-dry", "false", "-odd", "TRUE"]);
    assert_eq!(h.parse::<bool>("active", false, "on"), true);
    assert_eq!(h.parse::<bool>("dry", true, "off"), false);
    assert_eq!(h.parse::<bool>("odd", false, "only lowercase parses"), false);
}

#[test]
fn unsigned_edge_values() {
    let h = handler(&["-zero", "0", "-padded", "007", "-plus", "+7", "-max", "4294967295"]);
    assert_eq!(h.parse::<u32>("zero", 9, "zero"), 0);
    assert_eq!(h.parse::<u32>("padded", 9, "leading zeroes"), 7);
    assert_eq!(h.parse::<u32>("plus", 9, "leading plus"), 7);
    assert_eq!(h.parse::<u32>("max", 9, "largest value"), u32::MAX);
}

#[test]
fn unsigned_rejects_out_of_range_and_junk() {
    let h = handler(&["-over", "4294967296", "-huge", "99999999999999999999", "-neg", "-1", "-mix", "12a", "-plusonly", "+"]);
    assert_eq!(h.parse::<u32>("over", 9, "one past the largest"), 9);
    assert_eq!(h.parse::<u32>("huge", 9, "far past the largest"), 9);
    assert_eq!(h.parse::<u32>("neg", 9, "no sign accepted"), 9);
    assert_eq!(h.parse::<u32>("mix", 9, "digits then a letter"), 9);
    assert_eq!(h.parse::<u32>("plusonly", 9, "a sign with no digits"), 9);
}

#[test]
fn u64_values() {
    let h = handler(&["-big", "18446744073709551615", "-past", "18446744073709551616"]);
    assert_eq!(h.parse::<u64>("big", 0, "largest value"), u64::MAX);
    assert_eq!(h.parse::<u64>("past", 7, "one past the largest"), 7);
}

#[test]
fn signed_values() {
    let h = handler(&["-down", "-5", "-up", "+5", "-plain", "12"]);
    assert_eq!(h.parse::<i64>("down", 0, "negative"), -5);
    assert_eq!(h.parse::<i64>("up", 0, "explicit plus"), 5);
    assert_eq!(h.parse::<i64>("plain", 0, "no sign"), 12);
}

#[test]
fn signed_extremes() {
    let h = handler(&[
        "-min",
        "-9223372036854775808",
        "-max",
        "9223372036854775807",
        "-under",
        "-9223372036854775809",
        "-over",
        "9223372036854775808",
    ]);
    assert_eq!(h.parse::<i64>("min", 0, "smallest value"), i64::MIN);
    assert_eq!(h.parse::<i64>("max", 0, "largest value"), i64::MAX);
    assert_eq!(h.parse::<i64>("under", 7, "one below the smallest"), 7);
    assert_eq!(h.parse::<i64>("over", 7, "one past the largest"), 7);
}

#[test]
fn signed_rejects_bare_sign() {
    let h = handler(&["-w", "-"]);
    assert_eq!(h.parse::<i64>("w", 3, "a sign with no digits"), 3);
}

#[test]
fn empty_flag_name_matches_bare_dash() {
    let h = handler(&["prog", "-", "5"]);
    assert!(h.bool("", "the empty name"));
    assert_eq!(h.parse::<u32>("", 0, "value after the bare dash"), 5);
}

#[test]
fn empty_argument_vector() {
    let h = handler(&[]);
    assert!(!h.bool("anything", "nothing is present"));
    assert_eq!(h.parse::<u32>("anything", 13, "nothing to parse"), 13);
}
