//! Texts and numbers, held against the standard library.

use agent_mail_guard::numbers::{
    is_all_digits, parse_hex_u32, parse_hex_u64, parse_i64, parse_u16, parse_u32, parse_u64,
    parse_usize, print_hex, print_i64, print_u128, print_u64,
};
use agent_mail_guard::order::{insert_number, sorted_set};
use agent_mail_guard::text::{
    char_is_space, contains, ends_with, eq_ignore_ascii_case, join, lines, replace_all,
    replace_char, split, split_whitespace, starts_with, to_ascii_lower, trim,
};

const SAMPLES: [&str; 14] = [
    "", " ", "a", " a b ", "a\n", "a\r\nb\n\nc", "\r\n", "\u{a0}x\u{2003}", "x,y,,z,", "ÄÖÜ ABC",
    "\t\u{b}tab\u{c}", "a\rb", "日本 語", "\u{85}nel\u{feff}",
];

#[test]
fn blanks_are_those_of_the_standard_library() {
    for code in 0..=0x10ffff_u32 {
        if let Some(c) = char::from_u32(code) {
            assert_eq!(char_is_space(c), c.is_whitespace(), "{code:x}");
        }
    }
}

#[test]
fn texts_are_taken_apart_like_the_standard_library_does() {
    for s in SAMPLES {
        assert_eq!(trim(s), s.trim(), "{s:?}");
        assert_eq!(lines(s), s.lines().collect::<Vec<_>>(), "{s:?}");
        assert_eq!(split_whitespace(s), s.split_whitespace().collect::<Vec<_>>(), "{s:?}");
        assert_eq!(split(s, ','), s.split(',').collect::<Vec<_>>(), "{s:?}");
        assert_eq!(to_ascii_lower(s), s.to_ascii_lowercase(), "{s:?}");
        assert_eq!(replace_char(s, 'a', 'ß'), s.replace('a', "ß"), "{s:?}");
        assert_eq!(replace_all(s, "a", "bb"), s.replace("a", "bb"), "{s:?}");
        for t in SAMPLES {
            assert_eq!(contains(s, t), s.contains(t), "{s:?} {t:?}");
            assert_eq!(starts_with(s, t), s.starts_with(t), "{s:?} {t:?}");
            assert_eq!(ends_with(s, t), s.ends_with(t), "{s:?} {t:?}");
            assert_eq!(eq_ignore_ascii_case(s, t), s.eq_ignore_ascii_case(t), "{s:?} {t:?}");
        }
    }
    let parts = vec!["a".to_string(), String::new(), "b".to_string()];
    assert_eq!(join(&parts, ", "), parts.join(", "));
    assert_eq!(replace_all("aaa", "aa", "b"), "aaa".replace("aa", "b"));
}

#[test]
fn numbers_are_read_like_the_standard_library_reads_them() {
    for s in [
        "", "0", "+7", "-7", "007", "65535", "65536", "4294967295", "4294967296",
        "18446744073709551615", "18446744073709551616", "-9223372036854775808",
        "9223372036854775808", "-9223372036854775809", "1_000", " 1", "+", "-", "٣", "ff", "FF",
        "+ff", "1.5",
    ] {
        assert_eq!(parse_u64(s), s.parse::<u64>().ok(), "{s:?}");
        assert_eq!(parse_u32(s), s.parse::<u32>().ok(), "{s:?}");
        assert_eq!(parse_u16(s), s.parse::<u16>().ok(), "{s:?}");
        assert_eq!(parse_usize(s), s.parse::<usize>().ok(), "{s:?}");
        assert_eq!(parse_i64(s), s.parse::<i64>().ok(), "{s:?}");
        assert_eq!(parse_hex_u64(s), u64::from_str_radix(s, 16).ok(), "{s:?}");
        assert_eq!(parse_hex_u32(s), u32::from_str_radix(s, 16).ok(), "{s:?}");
    }
    assert!(is_all_digits("0123", 10));
    assert!(!is_all_digits("01a3", 10));
    assert!(is_all_digits("01a3", 16));
}

#[test]
fn numbers_are_shown_like_the_standard_library_shows_them() {
    for n in [0, 9, 10, 12_345, u64::MAX] {
        assert_eq!(print_u64(n), n.to_string());
        assert_eq!(parse_u64(&print_u64(n)), Some(n));
        assert_eq!(print_u128(n as u128), n.to_string());
    }
    assert_eq!(print_u128(u128::MAX), u128::MAX.to_string());
    for n in [0, -1, i64::MIN, i64::MAX] {
        assert_eq!(print_i64(n), n.to_string());
    }
    assert_eq!(print_hex(&[0, 10, 255]), "000aff");
}

#[test]
fn sets_are_sorted_like_the_standard_library_sorts_them() {
    let words: Vec<String> =
        ["b", "a", "ä", "a", "", "ab", "Z", "b"].iter().map(|s| s.to_string()).collect();
    let expected: std::collections::BTreeSet<String> = words.iter().cloned().collect();
    assert_eq!(sorted_set(&words), expected.into_iter().collect::<Vec<_>>());
    let mut numbers = Vec::new();
    for n in [5, 1, 5, 3] {
        insert_number(&mut numbers, n);
    }
    assert_eq!(numbers, vec![1, 3, 5]);
}
