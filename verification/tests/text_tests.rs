use garfutils::text::{file_contains_line, file_matches_string};

#[test]
fn contains_line_trims_and_compares_whole_lines() {
    assert!(file_contains_line("good", "good"));
    assert!(file_contains_line("first\ngood\nlast", "good"));
    assert!(file_contains_line("  good  \n", "good"));
    assert!(file_contains_line("good\r\n", "good"));
    assert!(!file_contains_line("goodness\n", "good"));
    assert!(!file_contains_line("go od\n", "good"));
    assert!(!file_contains_line("", "good"));
}

#[test]
fn matches_string_is_exact() {
    assert!(file_matches_string("abc", "abc"));
    assert!(file_matches_string("", ""));
    assert!(!file_matches_string("abc", "abd"));
    assert!(!file_matches_string("abc", "abcd"));
    assert!(!file_matches_string("abc\n", "abc"));
}
