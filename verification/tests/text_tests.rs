use orpheusmorebetter::numeric::{decimal_string, parse_u32, parse_u64, parse_u8, IntErrorKind};
use orpheusmorebetter::text::{
    contains, ends_with, is_whitespace, join, lines, split_char, split_once_char, split_whitespace, starts_with, trim,
    trim_matches_char, trim_start_matches_char, utf8_len_exceeds,
};

fn strings(v: &[&str]) -> Vec<String> {
    v.iter().map(|s| s.to_string()).collect()
}

#[test]
fn trim_matches_std() {
    for s in ["", "  a b  ", "\u{3000}x\u{a0}", "\n\t", "abc", " \0x\0 "] {
        assert_eq!(trim(s), s.trim());
        assert_eq!(trim_matches_char(s, '\0'), s.trim_matches('\0'));
        assert_eq!(trim_start_matches_char(s, ' '), s.trim_start_matches(' '));
    }
}

#[test]
fn split_matches_std() {
    for s in ["", ",", "a,b", "flac, v0, 320", ",,x,", "é,ü"] {
        let expected: Vec<String> = s.split(',').map(String::from).collect();
        assert_eq!(split_char(s, ','), expected);
        assert_eq!(join(&split_char(s, ','), ","), s);
    }
}

#[test]
fn lines_matches_std() {
    for s in ["", "\n", "a\nb", "a\r\nb\r\n", "a\n\nb\n", "x\r", "a\rb\n"] {
        let expected: Vec<String> = s.lines().map(String::from).collect();
        assert_eq!(lines(s), expected, "input {:?}", s);
    }
}

#[test]
fn split_whitespace_matches_std() {
    for s in ["", "  ", "-V 0 --vbr-new --ignore-tag-errors", " a\tb \n c ", "\u{2003}x y"] {
        let expected: Vec<String> = s.split_whitespace().map(String::from).collect();
        assert_eq!(split_whitespace(s), expected);
    }
}

#[test]
fn split_once_matches_std() {
    for s in ["KEY=value", "a=b=c", "none", "=x", "x="] {
        let expected = s.split_once('=').map(|(a, b)| (a.to_string(), b.to_string()));
        assert_eq!(split_once_char(s, '='), expected);
    }
}

#[test]
fn contains_and_affixes() {
    assert!(contains("some FLAC rip", "FLAC"));
    assert!(!contains("V 0", "V0"));
    assert!(contains("abc", ""));
    assert!(starts_with("~/music", "~/"));
    assert!(!starts_with("~", "~/"));
    assert!(ends_with("https://x/", "/"));
}

#[test]
fn join_pieces() {
    assert_eq!(join(&strings(&["a", "b", "c"]), ", "), "a, b, c");
    assert_eq!(join(&strings(&[]), ", "), "");
    assert_eq!(join(&strings(&["only"]), ", "), "only");
}

#[test]
fn decimal_and_parse() {
    assert_eq!(decimal_string(0), "0");
    assert_eq!(decimal_string(44100), "44100");
    assert_eq!(decimal_string(u64::MAX), u64::MAX.to_string());
    assert_eq!(parse_u64("18446744073709551615"), Ok(u64::MAX));
    assert_eq!(parse_u64("18446744073709551616"), Err(IntErrorKind::PosOverflow));
    assert_eq!(parse_u32("+96000"), Ok(96000));
    assert_eq!(parse_u32(""), Err(IntErrorKind::Empty));
    assert_eq!(parse_u32("+"), Err(IntErrorKind::InvalidDigit));
    assert_eq!(parse_u32("-1"), Err(IntErrorKind::InvalidDigit));
    assert_eq!(parse_u8("256"), Err(IntErrorKind::PosOverflow));
    assert_eq!(parse_u8("24"), Ok(24));
    assert_eq!(parse_u8(" 1"), Err(IntErrorKind::InvalidDigit));
}

#[test]
fn parse_agrees_with_std() {
    for s in ["", "+", "-", "0", "007", "+5", "-5", "255", "256", "4294967295", "4294967296", "1x", "١٢", "99999999999x"] {
        assert_eq!(parse_u8(s).ok(), s.parse::<u8>().ok(), "u8 {:?}", s);
        assert_eq!(parse_u32(s).ok(), s.parse::<u32>().ok(), "u32 {:?}", s);
        assert_eq!(parse_u64(s).ok(), s.parse::<u64>().ok(), "u64 {:?}", s);
        if let Err(e) = s.parse::<u32>() {
            assert_eq!(parse_u32(s).unwrap_err().message(), e.to_string(), "message {:?}", s);
        }
    }
}

#[test]
fn utf8_length() {
    assert!(!utf8_len_exceeds("abc", 3));
    assert!(utf8_len_exceeds("abcd", 3));
    assert!(utf8_len_exceeds("éé", 3));
    assert!(!utf8_len_exceeds("é", 2));
}

#[test]
fn whitespace_matches_std() {
    for c in (0u32..=0x10ffff).filter_map(char::from_u32) {
        assert_eq!(is_whitespace(c), c.is_whitespace(), "{:?}", c);
    }
}
