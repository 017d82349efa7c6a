use claude_history::text::{
    decimal_string, from_chars, is_blank, is_white_space, join, same_text, split_words, to_chars,
};

#[test]
fn white_space_is_that_of_unicode() {
    for code in 0..=0x10ffff_u32 {
        if let Some(c) = char::from_u32(code) {
            assert_eq!(is_white_space(c), c.is_whitespace(), "{code:x}");
        }
    }
}

#[test]
fn blank_texts_hold_white_space_only() {
    for text in ["", " \t\n", "\u{2003}", " a ", "a"] {
        assert_eq!(is_blank(text), text.trim().is_empty());
    }
}

#[test]
fn words_are_parted_by_white_space() {
    for text in ["", "  ", "a", " a  b\tc\n", "ä\u{a0}ö"] {
        let expected: Vec<String> = text.split_whitespace().map(|w| w.to_string()).collect();
        assert_eq!(split_words(text), expected);
    }
}

#[test]
fn characters_make_up_texts() {
    let chars = to_chars("aß→\u{1f600}");
    assert_eq!(chars, vec!['a', 'ß', '→', '\u{1f600}']);
    assert_eq!(from_chars(&chars, 1, 3), "ß→");
    assert_eq!(from_chars(&chars, 2, 2), "");
}

#[test]
fn texts_are_compared_by_their_characters() {
    assert!(same_text("", ""));
    assert!(same_text("ä", "ä"));
    assert!(!same_text("a", "b"));
    assert!(!same_text("a", "ab"));
}

#[test]
fn numbers_are_written_in_decimal() {
    for n in [0, 1, 9, 10, 99, 100, 12345, usize::MAX] {
        assert_eq!(decimal_string(n), n.to_string());
    }
}

#[test]
fn texts_are_joined() {
    let parts = vec!["a".to_string(), String::new(), "b".to_string()];
    assert_eq!(join(&parts, ", "), "a, , b");
    assert_eq!(join(&Vec::new(), ", "), "");
}
