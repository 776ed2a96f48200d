use cashtrack::text::{collapse_whitespace, contains_text, is_white_space_char};

#[test]
fn collapse_whitespace_joins_words_with_single_spaces() {
    assert_eq!(collapse_whitespace("  WOOLWORTHS   2764\tNERANG  "), "WOOLWORTHS 2764 NERANG");
    assert_eq!(collapse_whitespace(""), "");
    assert_eq!(collapse_whitespace(" \n\t "), "");
    assert_eq!(collapse_whitespace("one"), "one");
    assert_eq!(collapse_whitespace("a\u{3000}b\u{a0}c"), "a b c");
}

#[test]
fn white_space_matches_std_for_every_char() {
    for u in 0..=0x10ffffu32 {
        if let Some(c) = char::from_u32(u) {
            assert_eq!(is_white_space_char(c), c.is_whitespace(), "{:x}", u);
        }
    }
}

#[test]
fn contains_text_finds_substrings() {
    assert!(contains_text("woolworths 2764", "worths"));
    assert!(contains_text("abc", ""));
    assert!(contains_text("", ""));
    assert!(!contains_text("", "a"));
    assert!(!contains_text("pear", "pearl"));
    assert!(contains_text("pearl", "pearl"));
    assert!(contains_text("ééa", "éa"));
}
