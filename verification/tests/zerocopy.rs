//! The `X-HORD-RDMA-Write` header and the server's policy.

use hord::transfer::ZeroCopyRequest;
use hord::verbs::RegisteredBuffer;
use hord::zerocopy::{RdmaWriteAction, RdmaWriteReq, RdmaWriteStatus, HEADER};

#[test]
fn req_round_trips() {
    let r = RdmaWriteReq { addr: 0x7f4a_2c00_0000, rkey: 0x01ab_3f00, len: 16_777_216, id: None };
    assert_eq!(RdmaWriteReq::parse(&r.header_value()), Some(r));

    let with_id = RdmaWriteReq { id: Some(42), ..r };
    assert_eq!(RdmaWriteReq::parse(&with_id.header_value()), Some(with_id));
}

#[test]
fn req_parses_spec_example() {
    let r = RdmaWriteReq::parse("addr=0x7f4a2c000000;rkey=0x01ab3f00;len=16777216").unwrap();
    assert_eq!(r.addr, 0x7f4a_2c00_0000);
    assert_eq!(r.rkey, 0x01ab_3f00);
    assert_eq!(r.len, 16_777_216);
    assert_eq!(r.id, None);
    let s = RdmaWriteReq::parse("addr=0x7f4a2c000000;rkey=0x01ab3f00;len=16777216;id=42").unwrap();
    assert_eq!(s.id, Some(42));
}

#[test]
fn req_rejects_malformed() {
    assert_eq!(RdmaWriteReq::parse("rkey=0x1;len=10"), None);
    assert_eq!(RdmaWriteReq::parse("addr=0x1;len=10"), None);
    assert_eq!(RdmaWriteReq::parse("addr=0x1;rkey=0x2"), None);
    assert_eq!(RdmaWriteReq::parse("addr=zz;rkey=0x2;len=1"), None);
    assert_eq!(RdmaWriteReq::parse("addr=0x1;rkey=0x2;len=nope"), None);
}

#[test]
fn req_hex_is_lenient_and_trailing_semicolon_ok() {
    let r = RdmaWriteReq::parse("addr=1000;rkey=0X2A;len=5;").unwrap();
    assert_eq!(r.addr, 0x1000);
    assert_eq!(r.rkey, 0x2a);
    assert_eq!(r.len, 5);
}

#[test]
fn req_written_form_is_exact() {
    let r = RdmaWriteReq { addr: 0x7f4a_2c00_0000, rkey: 0x01ab_3f00, len: 16_777_216, id: None };
    assert_eq!(r.header_value(), "addr=0x7f4a2c000000;rkey=0x1ab3f00;len=16777216");
    let s = RdmaWriteReq { addr: 1, rkey: 2, len: 3, id: Some(u32::MAX) };
    assert_eq!(s.header_value(), "addr=0x1;rkey=0x2;len=3;id=4294967295");
}

#[test]
fn req_edge_cases() {
    // Spaces round keys and values, unknown keys, and the last of a repeated key.
    let r = RdmaWriteReq::parse(" addr = 0x1 ; rkey=2;len=3;colour=red; len=4 ").unwrap();
    assert_eq!(r, RdmaWriteReq { addr: 1, rkey: 2, len: 4, id: None });
    // A parameter without a value is unknown too, wherever it stands.
    for value in ["addr=1;rkey=2;len=3;gpu", "gpu;addr=1;rkey=2;len=3", "addr=1;rkey=2; gpu ;len=3"] {
        assert_eq!(
            RdmaWriteReq::parse(value),
            Some(RdmaWriteReq { addr: 1, rkey: 2, len: 3, id: None })
        );
    }
    // A known key needs a value, also where another part gives it one.
    assert_eq!(RdmaWriteReq::parse("addr;rkey=2;len=3"), None);
    for bare in ["addr", "rkey", " len ", "id"] {
        assert_eq!(RdmaWriteReq::parse(&format!("addr=1;rkey=2;len=3;{bare}")), None);
        assert_eq!(RdmaWriteReq::parse(&format!("{bare};addr=1;rkey=2;len=3;id=4")), None);
    }
    // Numbers that do not fit.
    assert_eq!(RdmaWriteReq::parse("addr=10000000000000000;rkey=2;len=3"), None);
    assert_eq!(RdmaWriteReq::parse("addr=1;rkey=100000000;len=3"), None);
    assert_eq!(RdmaWriteReq::parse("addr=1;rkey=2;len=18446744073709551616"), None);
    assert_eq!(RdmaWriteReq::parse("addr=1;rkey=2;len=3;id=4294967296"), None);
    let max = RdmaWriteReq::parse(
        "addr=ffffffffffffffff;rkey=ffffffff;len=18446744073709551615;id=4294967295",
    )
    .unwrap();
    assert_eq!(max, RdmaWriteReq { addr: u64::MAX, rkey: u32::MAX, len: u64::MAX, id: Some(u32::MAX) });
    assert_eq!(RdmaWriteReq::parse(""), None);
    assert_eq!(RdmaWriteReq::parse(";;;"), None);
    assert_eq!(RdmaWriteReq::parse("addr=0x;rkey=2;len=3"), None);
}

#[test]
fn status_round_trips() {
    for s in [
        RdmaWriteStatus::Complete { bytes_written: 14_680_064 },
        RdmaWriteStatus::TooLarge { object_size: 1_073_741_824 },
        RdmaWriteStatus::Declined,
    ] {
        assert_eq!(RdmaWriteStatus::parse(&s.header_value()), Some(s));
    }
}

#[test]
fn status_rejects_unknown_and_missing() {
    assert_eq!(RdmaWriteStatus::parse("status=bogus"), None);
    assert_eq!(RdmaWriteStatus::parse("status=complete"), None);
    assert_eq!(RdmaWriteStatus::parse("status=too_large"), None);
    assert_eq!(RdmaWriteStatus::parse("bytes_written=5"), None);
}

#[test]
fn status_written_form_is_exact() {
    assert_eq!(
        RdmaWriteStatus::Complete { bytes_written: 7 }.header_value(),
        "status=complete;bytes_written=7"
    );
    assert_eq!(
        RdmaWriteStatus::TooLarge { object_size: 9 }.header_value(),
        "status=too_large;object_size=9"
    );
    assert_eq!(RdmaWriteStatus::Declined.header_value(), "status=declined");
    assert_eq!(
        RdmaWriteStatus::parse(" bytes_written=7 ; status=complete "),
        Some(RdmaWriteStatus::Complete { bytes_written: 7 })
    );
    // Unknown parameters are ignored.
    assert_eq!(
        RdmaWriteStatus::parse("gpu;status=declined;colour=red"),
        Some(RdmaWriteStatus::Declined)
    );
    // A known key needs a value.
    for bare in ["status", "bytes_written", " object_size "] {
        assert_eq!(RdmaWriteStatus::parse(&format!("status=declined;{bare}")), None);
        assert_eq!(RdmaWriteStatus::parse(&format!("{bare};status=complete;bytes_written=7")), None);
    }
}

/// A request that advertises a buffer of `len` bytes.
fn req(len: u64, id: Option<u32>) -> RdmaWriteReq {
    RdmaWriteReq { addr: 0x1000, rkey: 0x2a, len, id }
}

#[test]
fn decide_too_large_writes_nothing() {
    let a = RdmaWriteAction::decide(&req(1024, None), 2048, false);
    assert_eq!(a, RdmaWriteAction::Respond(RdmaWriteStatus::TooLarge { object_size: 2048 }));
    let split = RdmaWriteAction::decide(&req(1024, Some(7)), 2048, true);
    assert_eq!(split, RdmaWriteAction::Respond(RdmaWriteStatus::TooLarge { object_size: 2048 }));
}

#[test]
fn decide_plain_zero_length_short_circuits() {
    let a = RdmaWriteAction::decide(&req(1024, None), 0, false);
    assert_eq!(a, RdmaWriteAction::Respond(RdmaWriteStatus::Complete { bytes_written: 0 }));
}

#[test]
fn decide_plain_write() {
    let a = RdmaWriteAction::decide(&req(1024, None), 512, false);
    assert_eq!(
        a,
        RdmaWriteAction::Write { payload_len: 512, source_len: 512, transfer_id: None }
    );
}

#[test]
fn decide_split_write() {
    let a = RdmaWriteAction::decide(&req(1024, Some(42)), 512, true);
    assert_eq!(
        a,
        RdmaWriteAction::Write { payload_len: 512, source_len: 512, transfer_id: Some(42) }
    );
}

#[test]
fn decide_split_zero_length_keeps_immediate_with_one_byte_source() {
    let a = RdmaWriteAction::decide(&req(1024, Some(9)), 0, true);
    assert_eq!(a, RdmaWriteAction::Write { payload_len: 0, source_len: 1, transfer_id: Some(9) });
}

#[test]
fn decide_ignores_id_when_split_not_negotiated() {
    let a = RdmaWriteAction::decide(&req(1024, Some(5)), 512, false);
    assert_eq!(
        a,
        RdmaWriteAction::Write { payload_len: 512, source_len: 512, transfer_id: None }
    );
    let empty = RdmaWriteAction::decide(&req(1024, Some(5)), 0, false);
    assert_eq!(empty, RdmaWriteAction::Respond(RdmaWriteStatus::Complete { bytes_written: 0 }));
}

#[test]
fn decide_exact_fit_is_not_too_large() {
    let a = RdmaWriteAction::decide(&req(1024, None), 1024, false);
    assert_eq!(
        a,
        RdmaWriteAction::Write { payload_len: 1024, source_len: 1024, transfer_id: None }
    );
    assert_eq!(a.status(), RdmaWriteStatus::Complete { bytes_written: 1024 });
}

#[test]
fn header_lines_carry_the_name() {
    let line = RdmaWriteStatus::Declined.header_line();
    assert_eq!(line, "X-HORD-RDMA-Write: status=declined");
    assert!(RdmaWriteReq { addr: 1, rkey: 2, len: 3, id: None }
        .header_line()
        .starts_with("X-HORD-RDMA-Write: "));
    assert_eq!(HEADER, "X-HORD-RDMA-Write");
}

#[test]
fn offered_buffer_describes_itself() {
    let buf = RegisteredBuffer { addr: 0xABC0, length: 4096, local_key: 1, remote_key: 0x77 };
    let offer = ZeroCopyRequest::from_buffer(buf);
    assert_eq!(offer.id(), None);
    assert_eq!(offer.capacity(), 4096);
    assert_eq!(offer.request(), RdmaWriteReq { addr: 0xABC0, rkey: 0x77, len: 4096, id: None });
    let split = offer.with_id(5);
    assert_eq!(split.id(), Some(5));
    assert_eq!(
        split.header_line(),
        "X-HORD-RDMA-Write: addr=0xabc0;rkey=0x77;len=4096;id=5"
    );
}
