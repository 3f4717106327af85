use localhost_rs::bytes::{
    eq_ignore_case, find_bytes, line_bounds, lowercase, token_range, trimmed, unquote,
};
use localhost_rs::number::{parse_uint, to_decimal};

#[test]
fn decimal_numbers() {
    assert_eq!(parse_uint(b"0", 10, usize::MAX), Some(0));
    assert_eq!(parse_uint(b"1234", 10, usize::MAX), Some(1234));
    assert_eq!(parse_uint(b"+7", 10, usize::MAX), Some(7));
    assert_eq!(parse_uint(b"007", 10, usize::MAX), Some(7));
    assert_eq!(parse_uint(b"", 10, usize::MAX), None);
    assert_eq!(parse_uint(b"+", 10, usize::MAX), None);
    assert_eq!(parse_uint(b"-1", 10, usize::MAX), None);
    assert_eq!(parse_uint(b"1 ", 10, usize::MAX), None);
    assert_eq!(parse_uint(b"1a", 10, usize::MAX), None);
    assert_eq!(parse_uint(b"65535", 10, 65535), Some(65535));
    assert_eq!(parse_uint(b"65536", 10, 65535), None);
    assert_eq!(parse_uint(b"99999999999999999999999999", 10, usize::MAX), None);
    assert_eq!(
        parse_uint(usize::MAX.to_string().as_bytes(), 10, usize::MAX),
        Some(usize::MAX)
    );
}

#[test]
fn hexadecimal_numbers() {
    assert_eq!(parse_uint(b"ff", 16, usize::MAX), Some(255));
    assert_eq!(parse_uint(b"FF", 16, usize::MAX), Some(255));
    assert_eq!(parse_uint(b"1aB", 16, usize::MAX), Some(427));
    assert_eq!(parse_uint(b"g", 16, usize::MAX), None);
    assert_eq!(parse_uint(b"0x10", 16, usize::MAX), None);
}

#[test]
fn decimal_digits_of_numbers() {
    assert_eq!(to_decimal(0), b"0".to_vec());
    assert_eq!(to_decimal(7), b"7".to_vec());
    assert_eq!(to_decimal(10), b"10".to_vec());
    assert_eq!(to_decimal(65535), b"65535".to_vec());
    assert_eq!(to_decimal(usize::MAX), usize::MAX.to_string().into_bytes());
}

#[test]
fn trimming_removes_unicode_white_space() {
    assert_eq!(trimmed(b"  a b\t\r\n"), b"a b".to_vec());
    assert_eq!(trimmed("\u{a0}x\u{3000}".as_bytes()), b"x".to_vec());
    assert_eq!(trimmed("\u{2003}\u{85}y z\u{2028}\u{205f}".as_bytes()), b"y z".to_vec());
    assert_eq!(trimmed("\u{e9}".as_bytes()), "\u{e9}".as_bytes().to_vec());
    assert_eq!(trimmed(b"   "), Vec::<u8>::new());
    assert_eq!(trimmed(b""), Vec::<u8>::new());
}

#[test]
fn unquoting_strips_space_then_quotes() {
    assert_eq!(unquote(b"  \"a b\"  "), b"a b".to_vec());
    assert_eq!(unquote(b"'x'"), b"x".to_vec());
    assert_eq!(unquote(b"\"'x'\""), b"x".to_vec());
    assert_eq!(unquote(b"'\"x\"'"), b"\"x\"".to_vec());
    assert_eq!(unquote(b"plain"), b"plain".to_vec());
}

#[test]
fn lower_case_touches_ascii_letters_only() {
    assert_eq!(lowercase(b"Content-TYPE_09"), b"content-type_09".to_vec());
    assert_eq!(lowercase("\u{c4}".as_bytes()), "\u{c4}".as_bytes().to_vec());
    assert!(eq_ignore_case(b"Chunked", b"cHUNKED"));
    assert!(!eq_ignore_case(b"chunked", b"chunke"));
}

#[test]
fn first_occurrence_search() {
    assert_eq!(find_bytes(b"aaa", b"aa", 0), Some(0));
    assert_eq!(find_bytes(b"aaa", b"aa", 1), Some(1));
    assert_eq!(find_bytes(b"aaa", b"aa", 2), None);
    assert_eq!(find_bytes(b"abc", b"", 1), Some(1));
}

#[test]
fn tokens_and_lines() {
    let s = b"  GET   /x y";
    let (a, b) = token_range(s, 0, s.len());
    assert_eq!(&s[a..b], b"GET");
    let (c, d) = token_range(s, b, s.len());
    assert_eq!(&s[c..d], b"/x");
    let t = b"one\r\ntwo\nthree";
    assert_eq!(line_bounds(t, 0), (3, 5));
    assert_eq!(line_bounds(t, 5), (8, 9));
    assert_eq!(line_bounds(t, 9), (14, 14));
    assert_eq!(line_bounds(b"a\r", 0), (2, 2));
}
