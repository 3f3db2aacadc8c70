use firebase::util::{add_https, add_right, ends_with, starts_with, trim_left, trim_right};
use std::borrow::Cow;

#[test]
fn trims_right_once() {
    assert_eq!(trim_right("a.json", ".json"), "a");
    assert_eq!(trim_right("a.json.json", ".json"), "a.json");
    assert_eq!(trim_right("a", ".json"), "a");
    assert_eq!(trim_right("", ".json"), "");
    assert_eq!(trim_right(".json", ".json"), "");
    assert_eq!(trim_right("é", "x"), "é");
}

#[test]
fn trims_left_once() {
    assert_eq!(trim_left("//a", "/"), "/a");
    assert_eq!(trim_left("a", "/"), "a");
    assert_eq!(trim_left("", "/"), "");
    assert_eq!(trim_left("ab", "abc"), "ab");
}

#[test]
fn adds_suffix_when_missing() {
    assert_eq!(add_right("a", ".json"), "a.json");
    assert!(matches!(add_right("a.json", ".json"), Cow::Borrowed("a.json")));
    assert_eq!(add_right("", ".json"), ".json");
}

#[test]
fn adds_scheme_when_missing() {
    assert_eq!(add_https("db.example.com"), "https://db.example.com");
    assert!(matches!(add_https("http://db.example.com"), Cow::Borrowed("http://db.example.com")));
    assert!(matches!(add_https("https://db.example.com"), Cow::Borrowed(_)));
    assert_eq!(add_https(""), "https://");
    assert_eq!(add_https("http:/x"), "https://http:/x");
}

#[test]
fn prefix_and_suffix_tests() {
    assert!(ends_with("abc", "bc"));
    assert!(!ends_with("c", "bc"));
    assert!(starts_with("abc", ""));
    assert!(!starts_with("abc", "b"));
}
