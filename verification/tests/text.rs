use migration_rs::text::{
    first_visible_char, is_whitespace, join, parse_bounded, parse_u16, parse_u64, parse_u8, split,
    split_once, u64_to_string, u64_zero_padded,
};

#[test]
fn decimal_of_small_and_large_numbers() {
    assert_eq!(u64_to_string(0), "0");
    assert_eq!(u64_to_string(7), "7");
    assert_eq!(u64_to_string(10), "10");
    assert_eq!(u64_to_string(1_234_567_890), "1234567890");
    assert_eq!(u64_to_string(u64::MAX), "18446744073709551615");
}

#[test]
fn decimal_agrees_with_the_standard_library() {
    for n in [0u64, 1, 9, 10, 99, 100, 101, 65_535, 65_536, 4_294_967_296] {
        assert_eq!(u64_to_string(n), n.to_string());
    }
}

#[test]
fn zero_padding_fills_up_to_the_width() {
    assert_eq!(u64_zero_padded(42, 13), "0000000000042");
    assert_eq!(u64_zero_padded(0, 13), "0000000000000");
    assert_eq!(u64_zero_padded(1_234_567_890_123, 13), "1234567890123");
    assert_eq!(u64_zero_padded(7, 0), "7");
    assert_eq!(u64_zero_padded(7, 1), "7");
}

#[test]
fn zero_padding_leaves_longer_numerals_alone() {
    assert_eq!(u64_zero_padded(12_345_678_901_234, 13), "12345678901234");
    assert_eq!(u64_zero_padded(u64::MAX, 13), "18446744073709551615");
}

#[test]
fn parse_reads_plain_numerals() {
    assert_eq!(parse_u64("0"), Some(0));
    assert_eq!(parse_u64("007"), Some(7));
    assert_eq!(parse_u64("18446744073709551615"), Some(u64::MAX));
    assert_eq!(parse_u8("255"), Some(255));
    assert_eq!(parse_u16("65535"), Some(65_535));
}

#[test]
fn parse_accepts_one_leading_plus() {
    assert_eq!(parse_u64("+5"), Some(5));
    assert_eq!(parse_u8("+19"), Some(19));
    assert_eq!(parse_u64("++5"), None);
    assert_eq!(parse_u64("+"), None);
}

#[test]
fn parse_rejects_what_is_no_numeral() {
    assert_eq!(parse_u64(""), None);
    assert_eq!(parse_u64("-1"), None);
    assert_eq!(parse_u64(" 1"), None);
    assert_eq!(parse_u64("1 "), None);
    assert_eq!(parse_u64("1_000"), None);
    assert_eq!(parse_u64("12a"), None);
    assert_eq!(parse_u64("\u{0661}"), None);
}

#[test]
fn parse_rejects_numbers_beyond_the_bound() {
    assert_eq!(parse_u8("256"), None);
    assert_eq!(parse_u16("65536"), None);
    assert_eq!(parse_u64("18446744073709551616"), None);
    assert_eq!(parse_u64("99999999999999999999999"), None);
    assert_eq!(parse_bounded("10", 9), None);
    assert_eq!(parse_bounded("9", 9), Some(9));
    assert_eq!(parse_bounded("0", 0), Some(0));
    assert_eq!(parse_bounded("1", 0), None);
}

#[test]
fn parse_agrees_with_the_standard_library() {
    for text in ["0", "12", "+12", "", "+", "-3", "256", "0255", "٣", "1e3", "0x10"] {
        assert_eq!(parse_u8(text), text.parse::<u8>().ok(), "{:?}", text);
        assert_eq!(parse_u64(text), text.parse::<u64>().ok(), "{:?}", text);
    }
}

#[test]
fn parsing_a_written_number_gives_it_back() {
    for n in [0u64, 5, 10, 1_000, 65_535, u64::MAX] {
        assert_eq!(parse_u64(&u64_to_string(n)), Some(n));
    }
}

#[test]
fn split_cuts_at_every_separator() {
    assert_eq!(split("a,b,c", ','), vec!["a", "b", "c"]);
    assert_eq!(split("abc", ','), vec!["abc"]);
    assert_eq!(split("", ','), vec![""]);
    assert_eq!(split(",", ','), vec!["", ""]);
    assert_eq!(split("a,,b,", ','), vec!["a", "", "b", ""]);
    assert_eq!(split("é\tü", '\t'), vec!["é", "ü"]);
}

#[test]
fn split_agrees_with_the_standard_library() {
    for text in ["", "1,2", ",,", "x", "1\t2\t\t3", "äö,ü"] {
        let expected: Vec<String> = text.split(',').map(str::to_owned).collect();
        assert_eq!(split(text, ','), expected);
    }
}

#[test]
fn split_once_cuts_at_the_first_separator_only() {
    assert_eq!(split_once("1:2:3", ':'), Some(("1".to_owned(), "2:3".to_owned())));
    assert_eq!(split_once(":", ':'), Some((String::new(), String::new())));
    assert_eq!(split_once("ab:", ':'), Some(("ab".to_owned(), String::new())));
    assert_eq!(split_once("ab", ':'), None);
    assert_eq!(split_once("", ':'), None);
}

#[test]
fn join_puts_the_separator_between_the_parts() {
    let parts = vec!["a".to_owned(), "b".to_owned(), "c".to_owned()];
    assert_eq!(join(&parts, ", "), "a, b, c");
    assert_eq!(join(&vec!["a".to_owned()], ","), "a");
    assert_eq!(join(&Vec::new(), ","), "");
    assert_eq!(join(&vec![String::new(), String::new()], ","), ",");
}

#[test]
fn joining_the_fields_gives_the_text_back() {
    for text in ["", "a", "a,b", ",a,,b,"] {
        assert_eq!(join(&split(text, ','), ","), text);
    }
}

#[test]
fn white_space_is_what_the_standard_library_calls_so() {
    for code in 0u32..0x3100 {
        if let Some(c) = char::from_u32(code) {
            assert_eq!(is_whitespace(c), c.is_whitespace(), "U+{:04X}", code);
        }
    }
    assert!(!is_whitespace('\u{feff}'));
    assert!(!is_whitespace('\u{10ffff}'));
}

#[test]
fn first_visible_character_passes_over_white_space() {
    assert_eq!(first_visible_char("  \t# note"), Some('#'));
    assert_eq!(first_visible_char("x"), Some('x'));
    assert_eq!(first_visible_char(" \u{a0}\u{3000}y "), Some('y'));
    assert_eq!(first_visible_char("   "), None);
    assert_eq!(first_visible_char(""), None);
}
