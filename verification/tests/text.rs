use rusty_website::text::{
    contains, ends_with, lines, replace, split_char, starts_with, str_eq, trim, u64_to_string,
    usize_to_string,
};

#[test]
fn replace_substitutes_every_occurrence() {
    assert_eq!(replace("a{X}b{X}c", "{X}", "-"), "a-b-c");
    assert_eq!(replace("{X}{X}", "{X}", "yo"), "yoyo");
    assert_eq!(replace("none here", "{X}", "-"), "none here");
    assert_eq!(replace("drop: it", "drop: ", ""), "it");
    assert_eq!(replace("", "{X}", "-"), "");
}

#[test]
fn replace_scans_left_to_right_without_overlap() {
    assert_eq!(replace("aaa", "aa", "b"), "ba");
    assert_eq!(replace("abab", "aba", "x"), "xb");
}

#[test]
fn lines_split_at_newlines_and_drop_carriage_returns() {
    assert_eq!(lines("a\r\nb\nc"), vec!["a", "b", "c"]);
    assert_eq!(lines("a\nb\n"), vec!["a", "b"]);
    assert_eq!(lines("\n"), vec![""]);
    assert_eq!(lines(""), Vec::<String>::new());
}

#[test]
fn split_keeps_empty_pieces() {
    assert_eq!(split_char("1.2.3", '.'), vec!["1", "2", "3"]);
    assert_eq!(split_char("..", '.'), vec!["", "", ""]);
    assert_eq!(split_char("solo", '.'), vec!["solo"]);
}

#[test]
fn numbers_format_in_decimal() {
    assert_eq!(u64_to_string(0), "0");
    assert_eq!(u64_to_string(7), "7");
    assert_eq!(u64_to_string(1234567890), "1234567890");
    assert_eq!(u64_to_string(u64::MAX), "18446744073709551615");
    assert_eq!(usize_to_string(42), "42");
}

#[test]
fn trim_removes_surrounding_whitespace_only() {
    assert_eq!(trim("  a b  "), "a b");
    assert_eq!(trim("\t x \r\n"), "x");
    assert_eq!(trim("   "), "");
    assert_eq!(trim("solid"), "solid");
}

#[test]
fn predicates_match_prefixes_suffixes_and_substrings() {
    assert!(str_eq("same", "same"));
    assert!(!str_eq("same", "samey"));
    assert!(starts_with("title: x", "title: "));
    assert!(!starts_with("ti", "title: "));
    assert!(ends_with("photo.jpg", ".jpg"));
    assert!(!ends_with("jpg", ".jpg"));
    assert!(contains("HTTP/1.1", "HTTP"));
    assert!(!contains("FTP/1.1", "HTTP"));
}
