//! Text and wire helpers, held against the standard library.

use km_hub::text::{
    blank, char_is_white, decimal_of, eq_ignore_case, hex_of, parse_u64, split_on, split_words,
    str_starts_with, to_lower, to_upper, trimmed,
};
use km_hub::wire::{c_text, put_i32, put_u16, put_u32, read_u16, read_u32};

#[test]
fn white_space_is_what_unicode_says() {
    for c in (0..=0x10FFFFu32).filter_map(char::from_u32) {
        assert_eq!(char_is_white(c), c.is_whitespace(), "{c:?}");
    }
}

#[test]
fn texts_are_cut_as_usual() {
    for s in ["", " ", "a", "  a b\t c \u{3000}", "a+b++", "+", "x y", "\u{a0}é\u{2003}"] {
        assert_eq!(trimmed(s), s.trim());
        assert_eq!(blank(s), s.trim().is_empty());
        assert_eq!(split_on(s, '+'), s.split('+').collect::<Vec<_>>());
        assert_eq!(split_words(s), s.split_whitespace().collect::<Vec<_>>());
        assert_eq!(to_lower(s), s.to_ascii_lowercase());
        assert_eq!(to_upper(s), s.to_ascii_uppercase());
    }
    assert!(eq_ignore_case("YeS", "yes") && !eq_ignore_case("yes", "ye"));
    assert!(str_starts_with("km-hub virtual mouse", "km-hub virtual"));
    assert!(!str_starts_with("km", "km-hub"));
}

#[test]
fn numbers_read_and_print_as_usual() {
    for s in ["", "+", "0", "+7", "-7", "18446744073709551615", "18446744073709551616", " 1", "1a", "007"] {
        assert_eq!(parse_u64(s), s.parse::<u64>().ok(), "{s:?}");
    }
    for n in [0, 9, 10, 12345, u64::MAX] {
        assert_eq!(decimal_of(n), n.to_string());
    }
    assert_eq!(hex_of(&[0, 10, 255]), "000aff");
}

#[test]
fn words_travel_little_endian() {
    let mut out = Vec::new();
    put_u16(&mut out, 0x1234);
    put_u32(&mut out, 0xDEADBEEF);
    put_i32(&mut out, -2);
    assert_eq!(out, vec![0x34, 0x12, 0xEF, 0xBE, 0xAD, 0xDE, 0xFE, 0xFF, 0xFF, 0xFF]);
    assert_eq!(read_u16(&out, 0), 0x1234);
    assert_eq!(read_u32(&out, 2), 0xDEADBEEF);
}

#[test]
fn c_texts_end_at_the_first_zero() {
    assert_eq!(c_text(b"abc\0def"), "abc");
    assert_eq!(c_text(b"abc"), "abc");
    assert_eq!(c_text(&[0x61, 0xFF, 0x62, 0]), "a\u{FFFD}b");
}
