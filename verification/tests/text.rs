use harvcode::text::{
    contains_str, ends_with_char, join_strings, split_str, starts_with, str_eq, to_ascii_lowercase,
    trim_str,
};

#[test]
fn lowercase_changes_only_ascii_letters() {
    assert_eq!(to_ascii_lowercase("Cargo.LOCK"), "cargo.lock");
    assert_eq!(to_ascii_lowercase("ÄÖ-Z_1"), "ÄÖ-z_1");
    assert_eq!(to_ascii_lowercase(""), "");
}

#[test]
fn trim_removes_unicode_whitespace_at_both_ends() {
    assert_eq!(trim_str("  a b\t\n"), "a b");
    assert_eq!(trim_str("\u{A0}x\u{3000}"), "x");
    assert_eq!(trim_str("   "), "");
    assert_eq!(trim_str("x"), "x");
}

#[test]
fn split_keeps_empty_pieces_and_joins_back() {
    let pieces = split_str(",a,,b,", ',');
    assert_eq!(pieces, vec!["", "a", "", "b", ""]);
    assert_eq!(join_strings(&pieces, ","), ",a,,b,");
    assert_eq!(split_str("", ','), vec![""]);
}

#[test]
fn comparisons() {
    assert!(str_eq("abc", "abc"));
    assert!(!str_eq("abc", "abd"));
    assert!(!str_eq("abc", "ab"));
    assert!(starts_with("--output=x", "--output="));
    assert!(!starts_with("--out", "--output"));
    assert!(ends_with_char("a\n", '\n'));
    assert!(!ends_with_char("", '\n'));
    let list = vec!["rs".to_string(), "md".to_string()];
    assert!(contains_str(&list, "md"));
    assert!(!contains_str(&list, "MD"));
}

#[test]
fn whitespace_set_matches_the_standard_library() {
    for u in 0u32..=0x10FFFF {
        if let Some(c) = char::from_u32(u) {
            assert_eq!(harvcode::text::char_is_whitespace(c), c.is_whitespace(), "U+{:04X}", u);
        }
    }
}
