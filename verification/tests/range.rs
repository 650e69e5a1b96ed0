//! `Range` and `Content-Range`, and the payload pattern.

use hord::pattern::{
    check_pattern, pattern_byte, pattern_chunk, pattern_fill, pattern_fill_from, size_from_path,
    verify_stream_body, verify_stream_body_at, verify_zero_copy, verify_zero_copy_at, Mismatch,
};
use hord::range::{
    content_range, content_range_unsatisfied, parse_content_range, parse_range, RangeSpec,
};

#[test]
fn parse_range_explicit() {
    assert_eq!(parse_range("bytes=0-499", 1000), RangeSpec::Range { start: 0, end: 499 });
    assert_eq!(parse_range("bytes=0-0", 1000), RangeSpec::Range { start: 0, end: 0 });
    assert_eq!(parse_range("bytes=500-999", 1000), RangeSpec::Range { start: 500, end: 999 });
}

#[test]
fn parse_range_clamps_end_to_object() {
    assert_eq!(parse_range("bytes=0-100000", 1000), RangeSpec::Range { start: 0, end: 999 });
    assert_eq!(parse_range("bytes=900-100000", 1000), RangeSpec::Range { start: 900, end: 999 });
}

#[test]
fn parse_range_open_ended() {
    assert_eq!(parse_range("bytes=500-", 1000), RangeSpec::Range { start: 500, end: 999 });
    assert_eq!(parse_range("bytes=0-", 1000), RangeSpec::Range { start: 0, end: 999 });
}

#[test]
fn parse_range_suffix() {
    assert_eq!(parse_range("bytes=-500", 1000), RangeSpec::Range { start: 500, end: 999 });
    assert_eq!(parse_range("bytes=-5000", 1000), RangeSpec::Range { start: 0, end: 999 });
}

#[test]
fn parse_range_unsatisfiable() {
    assert_eq!(parse_range("bytes=1000-1001", 1000), RangeSpec::Unsatisfiable);
    assert_eq!(parse_range("bytes=5000-6000", 1000), RangeSpec::Unsatisfiable);
    assert_eq!(parse_range("bytes=1000-", 1000), RangeSpec::Unsatisfiable);
    assert_eq!(parse_range("bytes=-0", 1000), RangeSpec::Unsatisfiable);
    assert_eq!(parse_range("bytes=0-0", 0), RangeSpec::Unsatisfiable);
}

#[test]
fn parse_range_ignored_forms_serve_full() {
    assert_eq!(parse_range("bytes=0-1,2-3", 1000), RangeSpec::Full);
    assert_eq!(parse_range("items=0-1", 1000), RangeSpec::Full);
    assert_eq!(parse_range("bytes=abc", 1000), RangeSpec::Full);
    assert_eq!(parse_range("bytes=zz-10", 1000), RangeSpec::Full);
    assert_eq!(parse_range("bytes=500-100", 1000), RangeSpec::Full);
    assert_eq!(parse_range("", 1000), RangeSpec::Full);
}

#[test]
fn positions_are_digits_only() {
    for value in [
        "bytes=+5-10",
        "bytes=5-+10",
        "bytes=+5-",
        "bytes=-+5",
        "bytes=--5",
        "bytes=0x5-10",
        "bytes=5 0-60",
        "bytes=+-",
    ] {
        assert_eq!(parse_range(value, 1000), RangeSpec::Full, "{value}");
    }
    assert_eq!(parse_range(" bytes= 05 - 010 ", 1000), RangeSpec::Range { start: 5, end: 10 });
    assert_eq!(parse_content_range("bytes +5-9/10"), None);
    assert_eq!(parse_content_range("bytes 5-9/+10"), None);
}

#[test]
fn content_range_round_trips() {
    let v = content_range(0, 499, 1000);
    assert_eq!(v, "bytes 0-499/1000");
    assert_eq!(parse_content_range(&v), Some((0, 499, 1000)));
    assert_eq!(content_range_unsatisfied(1000), "bytes */1000");
    assert_eq!(parse_content_range("bytes */1000"), None);
}

#[test]
fn content_range_refuses_other_forms() {
    assert_eq!(parse_content_range(" bytes 5-9/10 "), Some((5, 9, 10)));
    assert_eq!(parse_content_range("bytes 5-9"), None);
    assert_eq!(parse_content_range("bytes 5/10"), None);
    assert_eq!(parse_content_range("octets 5-9/10"), None);
    assert_eq!(parse_content_range("bytes x-9/10"), None);
}

#[test]
fn pattern_fill_from_uses_absolute_offset() {
    let mut buf = [0u8; 8];
    pattern_fill_from(&mut buf, 250);
    for (i, &b) in buf.iter().enumerate() {
        assert_eq!(b, pattern_byte(250 + i));
    }
    assert_eq!(buf[1], pattern_byte(251));
}

#[test]
fn pattern_values_are_exact() {
    let mut buf = [9u8; 4];
    pattern_fill(&mut buf);
    assert_eq!(buf, [0, 1, 2, 3]);
    pattern_fill_from(&mut buf, 250);
    assert_eq!(buf, [250, 0, 1, 2]);
    assert_eq!(pattern_chunk(250, 1, 4), vec![0, 1, 2]);
}

#[test]
fn range_of_an_object_matches_the_whole() {
    let mut whole = vec![0u8; 1000];
    pattern_fill(&mut whole);
    let mut part = vec![0u8; 300];
    pattern_fill_from(&mut part, 400);
    assert_eq!(&whole[400..700], &part[..]);
}

#[test]
fn sizes_in_paths() {
    assert_eq!(size_from_path("/size/4096"), Some(4096));
    assert_eq!(size_from_path("/size/0"), Some(0));
    assert_eq!(size_from_path("/size/"), None);
    assert_eq!(size_from_path("/size/4k"), None);
    assert_eq!(size_from_path("/other"), None);
}

#[test]
fn mismatches_are_found_and_described() {
    let mut body = vec![0u8; 20];
    pattern_fill_from(&mut body, 100);
    assert_eq!(check_pattern(&body, 100), Ok(()));
    assert_eq!(verify_zero_copy_at(&body, 100, "/size/500"), Ok(true));
    assert_eq!(verify_zero_copy_at(&body, 100, "/elsewhere"), Ok(false));
    body[7] = 1;
    body[9] = 1;
    let m = Mismatch { at: 107, got: 1, want: 107 };
    assert_eq!(check_pattern(&body, 100), Err(m));
    assert_eq!(verify_stream_body_at(&body, true, "/size/500", 100), Err(m));
    assert_eq!(verify_stream_body_at(&body, false, "/size/500", 100), Ok(false));
    // Where there is nothing to check, the position does not matter.
    assert_eq!(verify_zero_copy_at(&body, usize::MAX, "/elsewhere"), Ok(false));
    assert_eq!(verify_stream_body_at(&body, false, "/size/500", usize::MAX), Ok(false));
    assert_eq!(verify_stream_body_at(&body, true, "/elsewhere", usize::MAX), Ok(false));
    assert_eq!(m.message(), "payload mismatch at byte 107: got 1, expected 107");
    assert_eq!(verify_zero_copy(&[0, 1, 2], "/size/3"), Ok(true));
    assert_eq!(
        verify_stream_body(&[0, 1, 3], true, "/size/3"),
        Err(Mismatch { at: 2, got: 3, want: 2 })
    );
}
