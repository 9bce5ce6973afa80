use manga2epub::text::{is_blank_text, is_white_space_char};

#[test]
fn agrees_with_the_standard_white_space_test_on_every_character() {
    for code in 0..=0x10ffff_u32 {
        if let Some(c) = char::from_u32(code) {
            assert_eq!(is_white_space_char(c), c.is_whitespace(), "{code:#x}");
        }
    }
}

#[test]
fn finds_blank_texts_as_trimming_does() {
    for text in ["", " \t\n", "\u{3000}\u{a0}\u{2028}", "a", " x ", "\u{200b}"] {
        assert_eq!(is_blank_text(text), text.trim().is_empty(), "{text:?}");
    }
}
