use roulette_table::unicode::{is_all_numeric, is_number};

#[test]
fn ascii_digits_are_the_ascii_number_characters() {
    for code in 0u32..128 {
        let c = char::from_u32(code).unwrap();
        assert_eq!(is_number(c), c.is_ascii_digit());
    }
}

#[test]
fn number_characters_are_those_of_the_standard_library() {
    for code in 0u32..=0x10ffff {
        if let Some(c) = char::from_u32(code) {
            assert_eq!(is_number(c), c.is_numeric());
        }
    }
}

#[test]
fn number_characters_beyond_ascii() {
    // ARABIC-INDIC DIGIT THREE, SUPERSCRIPT TWO, VULGAR FRACTION ONE HALF, ROMAN NUMERAL EIGHT
    for c in ['\u{0663}', '\u{00b2}', '\u{00bd}', '\u{2167}'] {
        assert!(is_number(c));
    }
    for c in ['\u{00e9}', '\u{4e09}', '\u{00a0}'] {
        assert!(!is_number(c));
    }
}

#[test]
fn a_text_is_numeric_if_all_its_characters_are() {
    assert!(is_all_numeric(""));
    assert!(is_all_numeric("0"));
    assert!(is_all_numeric("0123456789"));
    assert!(is_all_numeric("1\u{0663}\u{00b2}"));
    assert!(!is_all_numeric("-1"));
    assert!(!is_all_numeric("+1"));
    assert!(!is_all_numeric("1 "));
    assert!(!is_all_numeric("1.5"));
    assert!(!is_all_numeric("red"));
    assert!(!is_all_numeric("1-12"));
    assert!(!is_all_numeric("12\u{00e9}"));
}
