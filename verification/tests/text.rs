use walkman::engine::clean_error_msg;
use walkman::suite::{is_scenario_file, suite_passed};
use walkman::text::{decimal_string, ends_with, replace_literal};

#[test]
fn decimal_notation() {
    assert_eq!(decimal_string(0), "0");
    assert_eq!(decimal_string(7), "7");
    assert_eq!(decimal_string(5000), "5000");
    assert_eq!(decimal_string(u64::MAX), u64::MAX.to_string());
}

#[test]
fn literal_replacement() {
    assert_eq!(replace_literal("aXbXc", "X", "--"), "a--b--c");
    assert_eq!(replace_literal("aaa", "aa", "b"), "ba");
    assert_eq!(replace_literal("none here", "zz", "y"), "none here");
    assert_eq!(replace_literal("", "a", "b"), "");
    assert_eq!(replace_literal("é→é", "→", "->"), "é->é");
}

#[test]
fn suffixes() {
    assert!(ends_with("test.yml", ".yml"));
    assert!(!ends_with("yml", ".yml"));
    assert!(is_scenario_file("basic_test.yml"));
    assert!(is_scenario_file("basic_test.yaml"));
    assert!(!is_scenario_file("README.md"));
    assert!(!is_scenario_file(".ym"));
}

#[test]
fn suites() {
    assert!(suite_passed(&vec![]));
    assert!(suite_passed(&vec![true, true]));
    assert!(!suite_passed(&vec![true, false, true]));
}

#[test]
fn error_messages_are_cleaned() {
    assert_eq!(clean_error_msg("got \\\"abc\\r\\ndef\\nx\\\""), "got \"abc ↵ def ↵ x\"");
    assert_eq!(clean_error_msg("\\u{1b}[31mred\\u{1b}[0m text"), "red text");
    assert_eq!(clean_error_msg("\\u{1b}[2K\\u{1b}[1;32mok"), "ok");
    assert_eq!(clean_error_msg("plain"), "plain");
}

#[test]
fn text_without_backslash_is_kept() {
    assert_eq!(clean_error_msg("a\nb \"quoted\" plain"), "a\nb \"quoted\" plain");
}
