use default_extractor::normalize::chars_to_string;
use default_extractor::normalize::normalize;
use default_extractor::normalize::normalize_chars;
use default_extractor::normalize::str_eq;
use default_extractor::normalize::str_to_chars;

#[test]
fn normalize_collapses_and_trims() {
    assert_eq!(normalize("  Hello \t\n  World "), "Hello World");
    assert_eq!(normalize("a  b"), "a b");
    assert_eq!(normalize("already clean"), "already clean");
}

#[test]
fn normalize_empty_and_blank() {
    assert_eq!(normalize(""), "");
    assert_eq!(normalize(" \t\r\n "), "");
}

#[test]
fn normalize_treats_no_break_space_as_whitespace() {
    assert_eq!(normalize("\u{a0}a\u{a0}\u{a0}b\u{a0}"), "a b");
}

#[test]
fn normalize_chars_round_trip() {
    let cs = str_to_chars("x \n y");
    let out = normalize_chars(&cs);
    assert_eq!(chars_to_string(&out), "x y");
}

#[test]
fn str_eq_compares_characters() {
    assert!(str_eq("Mai", "Mai"));
    assert!(!str_eq("Mai", "Mair"));
    assert!(!str_eq("Mai", "Mau"));
    assert!(str_eq("", ""));
}
