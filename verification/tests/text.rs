use nvmd::text::{eq_ignore_ascii_case, join, parse_usize, replace, split_words, starts_with, trim};

#[test]
fn splits_on_any_white_space() {
    assert_eq!(split_words("  a\tbb \n c  "), vec!["a", "bb", "c"]);
    assert!(split_words(" \t ").is_empty());
}

#[test]
fn joins_words_with_a_separator() {
    let words = vec!["x".to_owned(), "y".to_owned(), "z".to_owned()];
    assert_eq!(join(&words, ", "), "x, y, z");
    assert_eq!(join(&Vec::new(), ", "), "");
}

#[test]
fn replaces_from_the_left_without_overlaps() {
    assert_eq!(replace("aaaa", "aa", "b"), "bb");
    assert_eq!(replace("aaa", "aa", "b"), "ba");
    assert_eq!(replace("&amp;lt;", "&amp;", "&"), "&lt;");
    assert_eq!(replace("none", "x", "y"), "none");
}

#[test]
fn trims_white_space_at_both_ends() {
    assert_eq!(trim("  both ends \n"), "both ends");
}

#[test]
fn small_string_helpers() {
    assert!(starts_with("https://x", "https://"));
    assert!(!starts_with("http", "https://"));
    assert!(eq_ignore_ascii_case("ZoOm", "zoom"));
    assert_eq!(parse_usize("42"), Some(42));
    assert_eq!(parse_usize("+7"), Some(7));
    assert_eq!(parse_usize("-1"), None);
    assert_eq!(parse_usize(""), None);
}
