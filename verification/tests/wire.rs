//! Envelopes, handshakes, work-request identifiers and configuration.

use hord::config::{
    my_handshake, negotiate_split, qp_sizing, recv_base_count, recv_wr_count, split_slack,
    HordConfig,
};
use hord::envelope::{flags, Envelope, ENVELOPE_LEN};
use hord::handshake::{Handshake, HandshakeError, HANDSHAKE_LEN, MAGIC, VERSION};
use hord::wr_id::{
    ctrl_send_wr_id, imm_write_wr_id, is_ctrl_send, is_imm_write, is_send, is_write, recv_wr_id,
    send_wr_id, slot_of, write_wr_id, HS_RECV_WR_ID, HS_SEND_WR_ID,
};

#[test]
fn envelope_round_trip() {
    let e = Envelope { length: 1234, credits: 7, flags: flags::CREDIT_ONLY };
    let mut buf = [0u8; ENVELOPE_LEN];
    e.encode(&mut buf);
    assert_eq!(Envelope::decode(&buf), e);
    assert!(e.is_credit_only());
}

#[test]
fn handshake_round_trip() {
    let h = Handshake::new(65536, 32);
    let decoded = Handshake::decode(&h.encode()).unwrap();
    assert_eq!(h, decoded);
}

#[test]
fn magic_is_ascii_hord() {
    assert_eq!(&MAGIC.to_be_bytes(), b"HORD");
}

#[test]
fn rejects_bad_magic() {
    let mut b = Handshake::new(65536, 32).encode();
    b[0] = 0;
    assert!(Handshake::decode(&b).is_err());
}

#[test]
fn zero_copy_flag_round_trips() {
    let off = Handshake::new(65536, 32);
    assert!(!off.zero_copy_capable());
    assert!(!Handshake::decode(&off.encode()).unwrap().zero_copy_capable());

    let on = Handshake::new(65536, 32).with_zero_copy(true);
    assert!(on.zero_copy_capable());
    assert!(Handshake::decode(&on.encode()).unwrap().zero_copy_capable());

    assert!(!on.with_zero_copy(false).zero_copy_capable());
}

fn peer(zero_copy: bool, split: bool, credits: u16) -> Handshake {
    Handshake::new(65536, 32)
        .with_zero_copy(zero_copy)
        .with_split_mode(split)
        .with_split_credits(credits)
}

#[test]
fn split_needs_capability_zerocopy_and_credits() {
    assert!(negotiate_split(true, true, &peer(true, true, 8)));
    assert!(!negotiate_split(true, true, &peer(true, true, 0)));
    assert!(!negotiate_split(true, false, &peer(true, true, 8)));
    assert!(!negotiate_split(true, true, &peer(true, false, 8)));
    assert!(!negotiate_split(false, true, &peer(true, true, 8)));
}

#[test]
fn envelope_bytes_are_exact() {
    let e = Envelope { length: 0x0102_0304, credits: 0x0506, flags: 0x0708 };
    let mut buf = [0xEEu8; 10];
    e.encode(&mut buf);
    assert_eq!(buf, [1, 2, 3, 4, 5, 6, 7, 8, 0xEE, 0xEE]);
    assert_eq!(Envelope::decode(&buf), e);
    assert!(!Envelope { length: 1, credits: 0, flags: 0 }.is_credit_only());
}

#[test]
fn handshake_bytes_are_exact() {
    let h = peer(true, true, 8);
    let b = h.encode();
    assert_eq!(b.len(), HANDSHAKE_LEN);
    assert_eq!(&b[..4], b"HORD");
    assert_eq!(&b[8..], &[0, 1, 0, 0, 0, 32, 0, 8]);
    // A peer that does not know the last field leaves it out.
    let short = Handshake::decode(&b[..14]).unwrap();
    assert_eq!(short, h.with_split_credits(0));
    assert!(short.split_mode_capable());
}

#[test]
fn handshake_refusals() {
    let good = Handshake::new(65536, 32).encode();
    assert_eq!(Handshake::decode(&good[..13]), Err(HandshakeError::TooShort { len: 13 }));
    let mut bad = good;
    bad[1] = b'0';
    assert_eq!(Handshake::decode(&bad), Err(HandshakeError::BadMagic { magic: 0x4830_5244 }));
    let other = Handshake { version: VERSION + 1, ..Handshake::new(65536, 32) };
    assert_eq!(
        Handshake::decode(&other.encode()),
        Err(HandshakeError::BadVersion { version: VERSION + 1 })
    );
}

#[test]
fn work_request_lanes_are_apart() {
    assert_eq!(recv_wr_id(5), 5);
    for (id, send, ctrl, write, imm) in [
        (recv_wr_id(5), false, false, false, false),
        (send_wr_id(5), true, false, false, false),
        (ctrl_send_wr_id(5), true, true, false, false),
        (write_wr_id(5), false, false, true, false),
        (imm_write_wr_id(5), false, false, true, true),
    ] {
        assert_eq!(
            (is_send(id), is_ctrl_send(id), is_write(id), is_imm_write(id)),
            (send, ctrl, write, imm)
        );
        assert_eq!(slot_of(id), 5);
        assert!(id != HS_RECV_WR_ID && id != HS_SEND_WR_ID);
    }
}

#[test]
fn queue_sizes() {
    let c = HordConfig::default();
    assert_eq!(split_slack(&c), 8);
    assert_eq!(recv_base_count(&c), 34);
    assert_eq!(recv_wr_count(&c), 42);
    assert_eq!(qp_sizing(&c), (18, 43));
    let plain = HordConfig { split_mode: false, ..c };
    assert_eq!(split_slack(&plain), 0);
    assert_eq!(qp_sizing(&plain), (18, 35));
}

#[test]
fn advertised_capabilities() {
    let c = HordConfig::default();
    let h = my_handshake(&c);
    assert_eq!((h.max_message_size, h.max_recv_buffers, h.split_credits), (65536, 32, 8));
    assert!(h.zero_copy_capable() && h.split_mode_capable());
    let without = my_handshake(&HordConfig { zero_copy: false, ..c });
    assert!(!without.zero_copy_capable() && !without.split_mode_capable());
    assert_eq!(without.split_credits, 0);
    let wide = my_handshake(&HordConfig { split_credits: 100_000, ..c });
    assert_eq!(wide.split_credits, u16::MAX);
}
