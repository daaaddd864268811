use aether_win32::chars::{char_is_whitespace, word_char};

#[test]
fn white_space_is_what_std_counts() {
    for u in 0u32..=0x10ffff {
        if let Some(c) = char::from_u32(u) {
            assert_eq!(char_is_whitespace(c), c.is_whitespace(), "U+{:04X}", u);
        }
    }
}

#[test]
fn word_chars_are_alphanumerics_and_underscore() {
    assert!(word_char('a') && word_char('Z') && word_char('7') && word_char('_'));
    assert!(word_char('中') && word_char('é'));
    assert!(!word_char(' ') && !word_char('.') && !word_char('-'));
}
