use restorefiles::text::{
    contains_str, count_char_in, decimal_string, replace_char_in, split_str, string_from_range,
    chars_of,
};

#[test]
fn split_keeps_empty_pieces() {
    assert_eq!(split_str("a|b||c", '|'), vec!["a", "b", "", "c"]);
    assert_eq!(split_str("", '|'), vec![""]);
    assert_eq!(split_str("|", '|'), vec!["", ""]);
    assert_eq!(split_str("abc", '|'), vec!["abc"]);
}

#[test]
fn split_then_join_gives_text_back() {
    for s in ["a|b||c", "", "|", "x|", "|y", "no separator", "é|ü|"] {
        assert_eq!(split_str(s, '|').join("|"), s);
    }
}

#[test]
fn split_pieces_hold_no_separator() {
    for p in split_str("a|b|c||", '|') {
        assert!(!p.contains('|'));
    }
}

#[test]
fn counts_characters() {
    assert_eq!(count_char_in("a|b|c", '|'), 2);
    assert_eq!(count_char_in("", '|'), 0);
    assert_eq!(count_char_in("|||||||", '|'), 7);
}

#[test]
fn finds_substrings() {
    assert!(contains_str("/dev/sr0", "/dev"));
    assert!(contains_str("/dev/sr0", "sr0"));
    assert!(!contains_str("/media/disc", "/dev"));
    assert!(contains_str("abc", ""));
    assert!(!contains_str("ab", "abc"));
}

#[test]
fn replaces_backslashes() {
    assert_eq!(replace_char_in("a\\b\\c", '\\', '/'), "a/b/c");
    assert_eq!(replace_char_in("plain", '\\', '/'), "plain");
}

#[test]
fn renders_decimals() {
    assert_eq!(decimal_string(0), "0");
    assert_eq!(decimal_string(7), "7");
    assert_eq!(decimal_string(10), "10");
    assert_eq!(decimal_string(1234), "1234");
    assert_eq!(decimal_string(u64::MAX), u64::MAX.to_string());
}

#[test]
fn copies_character_ranges() {
    let cs = chars_of("\"/dev/sr0\"");
    assert_eq!(string_from_range(&cs, 1, cs.len() - 1), "/dev/sr0");
}
