//! Texts and numbers.

use hord::text::{
    chars_of, eq_ignore_ascii_case, equals, format_number, is_whitespace, parse_number, split,
    split_once, string_of, strip_prefix, trim,
};

#[test]
fn white_space_is_what_std_says() {
    for u in 0..=0x10_FFFFu32 {
        if let Some(c) = char::from_u32(u) {
            assert_eq!(is_whitespace(c), c.is_whitespace(), "U+{u:04X}");
        }
    }
}

#[test]
fn texts_are_cut_like_std_cuts_them() {
    for s in ["", " ", " a b ", "a=b=c", "=", "x", "\u{3000}wide\u{a0}", "0x;;1"] {
        let v = chars_of(s);
        assert_eq!(string_of(&v), s);
        assert_eq!(string_of(trim(&v)), s.trim());
        assert_eq!(
            split_once(&v, '=').map(|(a, b)| (string_of(a), string_of(b))),
            s.split_once('=').map(|(a, b)| (a.to_string(), b.to_string()))
        );
        let pieces: Vec<String> = split(&v, ';').iter().map(|p| string_of(p)).collect();
        let expected: Vec<&str> = s.split(';').collect();
        assert_eq!(pieces, expected);
        assert_eq!(
            strip_prefix(&v, "0x").map(|r| string_of(r)),
            s.strip_prefix("0x").map(|r| r.to_string())
        );
        assert!(equals(&v, s));
        assert!(!equals(&v, "something else"));
    }
}

#[test]
fn numbers_are_read_like_std_reads_them() {
    for s in [
        "", "+", "-", "0", "+7", "-7", "007", "12a", "18446744073709551615",
        "18446744073709551616", " 1", "1_0", "ff", "FF", "fg",
    ] {
        let v = chars_of(s);
        assert_eq!(parse_number(&v, 10, u64::MAX), s.parse::<u64>().ok(), "{s:?}");
        assert_eq!(parse_number(&v, 16, u64::MAX), u64::from_str_radix(s, 16).ok(), "{s:?}");
        assert_eq!(
            parse_number(&v, 16, u32::MAX as u64),
            u32::from_str_radix(s, 16).ok().map(|n| n as u64),
            "{s:?}"
        );
    }
}

#[test]
fn numbers_are_written_like_std_writes_them() {
    for n in [0u64, 1, 9, 10, 255, 4096, u64::MAX] {
        assert_eq!(string_of(&format_number(n, 10)), n.to_string());
        assert_eq!(string_of(&format_number(n, 16)), format!("{n:x}"));
        assert_eq!(parse_number(&format_number(n, 16), 16, u64::MAX), Some(n));
    }
}

#[test]
fn header_names_ignore_case() {
    let eq = |a: &str, b: &str| eq_ignore_ascii_case(&chars_of(a), &chars_of(b));
    assert!(eq("Content-Length", "content-LENGTH"));
    assert!(!eq("Content-Length", "Content-Lengt"));
    assert!(!eq("\u{c9}", "\u{e9}"));
}
