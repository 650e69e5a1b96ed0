//! Two ends of a connection joined by a fabric that delivers in order, consumes a
//! posted receive for every message, and never lacks one.

use std::collections::VecDeque;

use hord::config::{my_handshake, HordConfig};
use hord::handshake::{HandshakeError, HANDSHAKE_LEN};
use hord::stream::completion::RecvPlace;
use hord::stream::facade::{IdleStep, Pump, CM_DISCONNECT_POLL_SPINS};
use hord::stream::rdma_write::{DriveAction, WriteDrive, WriteWr};
use hord::stream::send::SendWr;
use hord::stream::setup::{ExchangeError, HandshakeExchange};
use hord::stream::{HordStream, PeerAddr, StreamError};
use hord::transfer::{serve_rdma_write, ServeStep, SplitCompletion, SplitReceiver};
use hord::verbs::{Completion, Opcode, RegisteredBuffer};
use hord::wr_id::{recv_wr_id, HS_RECV_WR_ID, HS_SEND_WR_ID};
use hord::zerocopy::{RdmaWriteReq, RdmaWriteStatus};

/// One end: its stream, the receives it has posted, its completion queue and the
/// memory that the peer may write to and that it writes from.
struct End {
    stream: HordStream,
    posted: VecDeque<u64>,
    cq: VecDeque<(Completion, Vec<u8>)>,
    memory: Vec<u8>,
}

struct Fabric {
    ends: [End; 2],
}

fn wc(wr_id: u64, opcode: Opcode, byte_len: usize, imm_data: u32) -> Completion {
    Completion { wr_id, byte_len: byte_len as u32, opcode, status: 0, imm_data }
}

impl Fabric {
    /// Joins two ends and exchanges their handshakes.
    fn new(configs: [HordConfig; 2]) -> Fabric {
        let end = |config: &HordConfig| {
            let stream = HordStream::new_common(config);
            let posted = stream.initial_recvs().into();
            End { stream, posted, cq: VecDeque::new(), memory: vec![0; 4096] }
        };
        let mut fabric = Fabric { ends: [end(&configs[0]), end(&configs[1])] };
        for i in 0..2 {
            let hs = my_handshake(&configs[i]).encode();
            fabric.deliver(i, HS_SEND_WR_ID, &hs);
        }
        for i in 0..2 {
            let mut exchange = HandshakeExchange::new();
            let mut buf = vec![0u8; HANDSHAKE_LEN + 4];
            while !exchange.is_complete() {
                let (wc, bytes) = fabric.ends[i].cq.pop_front().unwrap();
                exchange.on_completion(&wc).unwrap();
                buf[..bytes.len()].copy_from_slice(&bytes);
            }
            let peer = exchange.finish(&buf).unwrap();
            let end = &mut fabric.ends[i];
            let slots = end.stream.plan_split_recvs(&peer);
            end.stream.apply_peer(&peer, slots.len()).unwrap();
            end.posted.extend(slots.iter().map(|&s| recv_wr_id(s)));
            end.stream.established(true, None, 7);
        }
        fabric
    }

    /// A message from end `i`: it lands in the receive that its peer posted first.
    fn deliver(&mut self, i: usize, wr_id: u64, bytes: &[u8]) {
        let peer = &mut self.ends[1 - i];
        let slot = peer.posted.pop_front().expect("the receiver always has a receive posted");
        peer.cq.push_back((wc(slot, Opcode::Recv, bytes.len(), 0), bytes.to_vec()));
        self.ends[i].cq.push_back((wc(wr_id, Opcode::Send, 0, 0), Vec::new()));
    }

    fn post(&mut self, i: usize, wrs: &[SendWr]) {
        for wr in wrs {
            assert!(self.ends[i].stream.send_slot(wr.slot).is_some());
            self.deliver(i, wr.wr_id, &wr.bytes);
        }
    }

    fn post_writes(&mut self, i: usize, wrs: &[WriteWr]) {
        for wr in wrs {
            let mut data = Vec::new();
            for sge in &wr.sges {
                let at = sge.addr as usize;
                data.extend_from_slice(&self.ends[i].memory[at..at + sge.length as usize]);
            }
            let peer = &mut self.ends[1 - i];
            let at = wr.remote_addr as usize;
            peer.memory[at..at + data.len()].copy_from_slice(&data);
            if let Some(imm) = wr.imm {
                let slot = peer.posted.pop_front().expect("a receive is left for a transfer");
                peer.cq.push_back((wc(slot, Opcode::RecvRdmaWithImm, data.len(), imm), Vec::new()));
            }
            self.ends[i].cq.push_back((wc(wr.wr_id, Opcode::RdmaWrite, 0, 0), Vec::new()));
        }
    }

    fn write(&mut self, i: usize, buf: &[u8]) -> usize {
        let wrs = self.ends[i].stream.plan_write(buf);
        self.post(i, &wrs);
        self.ends[i].stream.try_write(buf, wrs.len()).unwrap()
    }

    fn flush(&mut self, i: usize) -> bool {
        let wrs = self.ends[i].stream.plan_flush();
        self.post(i, &wrs);
        self.ends[i].stream.try_flush_stage(wrs.len()).unwrap()
    }

    fn read(&mut self, i: usize, room: usize) -> Option<Vec<u8>> {
        let mut out = vec![0u8; room];
        let plan = self.ends[i].stream.plan_read(room);
        self.post(i, &plan.credits);
        let accepted = plan.reposts.len() + plan.credits.len();
        let got = self.ends[i].stream.try_read(&mut out, accepted).unwrap();
        self.ends[i].posted.extend(plan.reposts.iter().map(|&s| recv_wr_id(s)));
        if got.is_none() {
            let wrs = self.ends[i].stream.plan_credit_return(true);
            self.post(i, &wrs);
            self.ends[i].stream.return_owed_credits(true, wrs.len()).unwrap();
        }
        got.map(|n| {
            out.truncate(n);
            out
        })
    }

    /// Processes every completion of end `i`; returns how many.
    fn drain(&mut self, i: usize) -> usize {
        let mut n = 0;
        while let Some((wc, bytes)) = self.ends[i].cq.pop_front() {
            let end = &mut self.ends[i];
            let len = end.stream.message_len(&wc);
            let msg = &bytes[..len];
            let repost = end.stream.plan_completion(&wc, msg);
            end.stream.handle_completion(&wc, msg, true).unwrap();
            if let Some(slot) = repost {
                end.posted.push_back(recv_wr_id(slot));
            }
            n += 1;
        }
        n
    }
}

fn small() -> HordConfig {
    HordConfig {
        max_message_size: 24,
        recv_pool_size: 4,
        send_pool_size: 3,
        split_credits: 2,
        ..HordConfig::default()
    }
}

fn bytes(n: usize, seed: usize) -> Vec<u8> {
    (0..n).map(|i| ((i * 7 + seed) % 256) as u8).collect()
}

#[test]
fn handshakes_negotiate_the_smaller_message_and_both_capabilities() {
    let a = HordConfig { max_message_size: 100, ..small() };
    let f = Fabric::new([a, small()]);
    for end in &f.ends {
        assert_eq!(end.stream.payload_capacity(), 16);
        assert!(end.stream.zero_copy_negotiated());
        assert!(end.stream.split_mode_negotiated());
        assert_eq!(end.stream.established_at(), 7);
        assert!(end.stream.watches_cm());
    }
    let plain = HordConfig { zero_copy: false, ..small() };
    let f = Fabric::new([plain, small()]);
    for end in &f.ends {
        assert!(!end.stream.zero_copy_negotiated());
        assert!(!end.stream.split_mode_negotiated());
    }
    assert_eq!(f.ends[1].posted.len(), 6);
    assert_eq!(f.ends[1].stream.recv_slot(6), None);
}

#[test]
fn exchange_refuses_what_is_not_a_handshake() {
    let mut x = HandshakeExchange::new();
    let mut failed = wc(HS_SEND_WR_ID, Opcode::Send, 0, 0);
    failed.status = 12;
    assert_eq!(
        x.on_completion(&failed),
        Err(ExchangeError::Failed { wr_id: HS_SEND_WR_ID, status: 12 })
    );
    assert_eq!(
        x.on_completion(&wc(3, Opcode::Recv, 16, 0)),
        Err(ExchangeError::Unexpected { wr_id: 3 })
    );
    assert_eq!(x.on_idle(false), Ok(()));
    assert_eq!(x.on_idle(true), Err(ExchangeError::TimedOut));
    x.on_completion(&wc(HS_RECV_WR_ID, Opcode::Recv, 5, 0)).unwrap();
    assert!(!x.is_complete());
    x.on_completion(&wc(HS_SEND_WR_ID, Opcode::Send, 0, 0)).unwrap();
    assert!(x.is_complete());
    assert_eq!(
        x.finish(&[0x48; 20]),
        Err(ExchangeError::Refused(HandshakeError::TooShort { len: 5 }))
    );
}

#[test]
fn message_size_without_room_for_a_payload_is_refused() {
    let mut stream = HordStream::new_common(&small());
    let peer = my_handshake(&HordConfig { max_message_size: 8, ..small() });
    assert!(stream.plan_split_recvs(&peer).is_empty());
    assert_eq!(stream.apply_peer(&peer, 0), Err(StreamError::MessageSize { effective: 8 }));
}

#[test]
fn full_duplex_bulk_arrives_in_order() {
    let mut f = Fabric::new([small(), HordConfig { recv_pool_size: 2, ..small() }]);
    let data = [bytes(10_000, 1), bytes(9_001, 2)];
    let mut sent = [0usize; 2];
    let mut got = [Vec::new(), Vec::new()];
    let mut rounds = 0;
    while got[0].len() < data[1].len() || got[1].len() < data[0].len() {
        rounds += 1;
        assert!(rounds < 100_000, "the connection makes progress");
        for i in 0..2 {
            let end = (sent[i] + 50).min(data[i].len());
            let chunk = data[i][sent[i]..end].to_vec();
            if !chunk.is_empty() {
                sent[i] += f.write(i, &chunk);
            }
            if sent[i] == data[i].len() {
                f.flush(i);
            }
            f.drain(i);
            if let Some(b) = f.read(i, 33) {
                got[i].extend_from_slice(&b);
            }
        }
    }
    assert_eq!(got[0], data[1]);
    assert_eq!(got[1], data[0]);
    for end in &f.ends {
        assert!(!end.stream.is_closed());
    }
}

#[test]
fn writer_is_bounded_by_the_readers_credits() {
    let config = HordConfig { send_pool_size: 100, ..small() };
    let mut f = Fabric::new([config, config]);
    let mut accepted = 0;
    for _ in 0..50 {
        accepted += f.write(0, &bytes(64, 3));
        f.drain(0);
    }
    // Four credits of sixteen bytes, and not a byte more until the peer reads.
    assert_eq!(accepted, 64);
    assert!(!f.ends[0].stream.can_send_data());
    assert_eq!(f.write(0, &bytes(64, 3)), 0);
    f.drain(1);
    assert_eq!(f.read(1, 16), Some(bytes(64, 3)[..16].to_vec()));
    f.drain(0);
    assert!(f.ends[0].stream.can_send_data());
}

#[test]
fn ends_that_are_both_out_of_credits_unblock_each_other() {
    let config = HordConfig { recv_pool_size: 2, send_pool_size: 8, ..small() };
    let mut f = Fabric::new([config, config]);
    for i in 0..2 {
        while f.write(i, &bytes(32, 0)) > 0 {
            f.drain(i);
        }
    }
    for i in 0..2 {
        f.drain(i);
        assert!(!f.ends[i].stream.can_send_data());
    }
    // Each reads what it holds; the debt comes back on the control slot alone.
    for i in 0..2 {
        while f.read(i, 16).is_some() {}
    }
    for i in 0..2 {
        f.drain(i);
        assert!(f.ends[i].stream.can_send_data());
    }
    assert_eq!(f.write(0, &bytes(16, 9)), 16);
    f.drain(1);
    assert_eq!(f.read(1, 99), Some(bytes(16, 9)));
}

#[test]
fn staged_bytes_leave_with_a_flush() {
    let mut f = Fabric::new([small(), small()]);
    assert_eq!(f.write(0, b"hello"), 5);
    f.drain(1);
    assert_eq!(f.read(1, 10), None);
    assert!(f.flush(0));
    f.drain(1);
    assert_eq!(f.read(1, 3), Some(b"hel".to_vec()));
    assert_eq!(f.read(1, 10), Some(b"lo".to_vec()));
    assert_eq!(f.read(1, 10), None);
    // A write that fills the staged message sends it whole.
    f.drain(0);
    assert_eq!(f.write(0, b"0123456789"), 10);
    assert_eq!(f.write(0, b"abcdefgh"), 8);
    f.drain(1);
    assert_eq!(f.read(1, 99), Some(b"0123456789abcdef".to_vec()));
    f.flush(0);
    f.drain(1);
    assert_eq!(f.read(1, 99), Some(b"gh".to_vec()));
}

#[test]
fn flush_is_a_delivery_barrier() {
    let mut f = Fabric::new([small(), small()]);
    f.write(0, b"abc");
    let wrs = f.ends[0].stream.plan_flush();
    f.post(0, &wrs);
    assert_eq!(f.ends[0].stream.poll_flush_ready(wrs.len()), Ok(false));
    assert!(f.ends[0].stream.sends_outstanding());
    f.drain(0);
    assert_eq!(f.ends[0].stream.poll_flush_ready(0), Ok(true));
    f.write(0, b"abc");
    let wrs = f.ends[0].stream.plan_flush();
    f.post(0, &wrs);
    f.ends[0].stream.try_flush_stage(wrs.len()).unwrap();
    f.ends[0].stream.mark_closed();
    assert_eq!(f.ends[0].stream.poll_flush_ready(0), Err(StreamError::Unacknowledged));
}

#[test]
fn half_close_ends_the_stream_after_its_data() {
    let mut f = Fabric::new([small(), small()]);
    f.write(0, &bytes(16, 4));
    f.drain(1);
    assert!(!f.ends[1].stream.poll_cm_disconnect(false));
    assert!(f.ends[1].stream.poll_cm_disconnect(true));
    assert!(f.ends[1].stream.is_closed());
    assert_eq!(f.read(1, 99), Some(bytes(16, 4)));
    assert_eq!(f.read(1, 99), Some(Vec::new()));
    assert_eq!(f.ends[1].stream.try_write(b"x", 0), Err(StreamError::Closed));
    assert!(f.ends[1].stream.plan_write(b"x").is_empty());
}

#[test]
fn refused_posts_and_failed_completions_close_the_stream() {
    let mut f = Fabric::new([small(), small()]);
    let wrs = f.ends[0].stream.plan_write(&bytes(40, 0));
    assert_eq!(wrs.len(), 2);
    assert_eq!(f.ends[0].stream.try_write(&bytes(40, 0), 1), Err(StreamError::Post));
    assert!(f.ends[0].stream.is_closed());

    let mut f = Fabric::new([small(), small()]);
    let mut bad = wc(recv_wr_id(0), Opcode::Recv, 20, 0);
    bad.status = 5;
    assert_eq!(f.ends[0].stream.handle_completion(&bad, &[], true), Ok(()));
    assert!(f.ends[0].stream.is_closed());

    let mut f = Fabric::new([small(), small()]);
    let runt = wc(recv_wr_id(0), Opcode::Recv, 7, 0);
    assert_eq!(
        f.ends[0].stream.handle_completion(&runt, &[0; 7], true),
        Err(StreamError::Runt { len: 7 })
    );
}

#[test]
fn peer_of_a_refused_write_reads_a_prefix() {
    // Ten bytes are accepted and staged. Of the three messages that the next write
    // makes, one is taken: it carries them and six bytes of the buffer.
    let mut f = Fabric::new([small(), small()]);
    let (first, second) = (bytes(10, 1), bytes(40, 2));
    assert_eq!(f.write(0, &first), 10);
    let wrs = f.ends[0].stream.plan_write(&second);
    assert_eq!(wrs.len(), 3);
    f.post(0, &wrs[..1]);
    assert_eq!(f.ends[0].stream.try_write(&second, 1), Err(StreamError::Post));
    assert!(f.ends[0].stream.is_closed());
    f.drain(1);
    let mut sent = first.clone();
    sent.extend_from_slice(&second[..6]);
    assert_eq!(f.read(1, 100), Some(sent));
    assert_eq!(f.read(1, 100), None);
    // The closed end sends nothing more.
    assert!(f.ends[0].stream.plan_write(&second).is_empty());
    assert!(f.ends[0].stream.plan_flush().is_empty());
    assert_eq!(f.ends[0].stream.try_write(&second, 0), Err(StreamError::Closed));

    // A refused flush drops what was staged.
    let mut f = Fabric::new([small(), small()]);
    assert_eq!(f.write(0, &first), 10);
    assert_eq!(f.ends[0].stream.plan_flush().len(), 1);
    assert_eq!(f.ends[0].stream.try_flush_stage(0), Err(StreamError::Post));
    assert!(f.ends[0].stream.is_closed());
    f.drain(1);
    assert_eq!(f.read(1, 100), None);
    assert_eq!(f.ends[0].stream.try_flush_stage(0), Ok(true));

    // A read whose credit return is refused has copied its bytes out.
    let mut f = Fabric::new([small(), small()]);
    let msg = bytes(16, 3);
    assert_eq!(f.write(0, &msg), 16);
    f.drain(1);
    let mut out = vec![0u8; 16];
    let plan = f.ends[1].stream.plan_read(16);
    assert_eq!((plan.reposts.len(), plan.credits.len()), (1, 1));
    assert_eq!(f.ends[1].stream.try_read(&mut out, 1), Err(StreamError::Post));
    assert_eq!(out, msg);
    assert!(f.ends[1].stream.is_closed());
}

#[test]
fn receive_slots_lie_where_they_should() {
    let f = Fabric::new([small(), small()]);
    let s = &f.ends[0].stream;
    assert_eq!(s.recv_bytes(), 6 * 24);
    assert_eq!(s.send_bytes(), 4 * 24);
    assert_eq!(s.split_bytes(), 2 * 24);
    assert_eq!(s.recv_slot(5), Some(RecvPlace::Base { offset: 120 }));
    assert_eq!(s.recv_slot(7), Some(RecvPlace::Split { offset: 24 }));
    assert_eq!(s.recv_slot(8), None);
    assert_eq!(s.send_slot(3), Some(72));
    assert_eq!(s.send_slot(4), None);
    assert_eq!(s.proactive_threshold(), 1);
}

fn source(len: usize) -> RegisteredBuffer {
    RegisteredBuffer { addr: 0, length: len, local_key: 11, remote_key: 12 }
}

#[test]
fn split_transfers_arrive_with_their_identifiers() {
    let mut f = Fabric::new([small(), small()]);
    f.ends[0].memory[..8].copy_from_slice(b"payload!");
    let plane = SplitReceiver::new(&f.ends[1].stream).unwrap();
    assert_eq!(plane.poll_completion(&mut f.ends[1].stream), None);
    for id in 1..=2u32 {
        let s = &f.ends[0].stream;
        let wrs =
            s.begin_rdma_write_with_imm(&source(8), 0, 16, 100 * id as u64, 12, 8, id).unwrap();
        assert_eq!(wrs.len(), 1);
        f.post_writes(0, &wrs);
        f.ends[0].stream.writes_posted(1, true, 1).unwrap();
    }
    // The window is two transfers wide.
    let s = &f.ends[0].stream;
    assert_eq!(
        s.begin_rdma_write_with_imm(&source(8), 0, 16, 300, 12, 8, 3),
        Err(StreamError::WouldBlock)
    );
    assert_eq!(s.check_write_capacity(1, false), Ok(()));
    f.drain(1);
    assert!(f.ends[1].stream.has_completed_transfers());
    assert_eq!(
        plane.poll_completion(&mut f.ends[1].stream),
        Some(Some(SplitCompletion { transfer_id: 1 }))
    );
    assert_eq!(
        plane.try_completion(&mut f.ends[1].stream),
        Some(SplitCompletion { transfer_id: 2 })
    );
    assert_eq!(plane.try_completion(&mut f.ends[1].stream), None);
    assert_eq!(&f.ends[1].memory[100..108], b"payload!");
    assert_eq!(&f.ends[1].memory[200..208], b"payload!");
    f.drain(0);
    assert!(!f.ends[0].stream.writes_pending());
    assert!(f.ends[0]
        .stream
        .begin_rdma_write_with_imm(&source(8), 0, 16, 300, 12, 8, 3)
        .is_ok());
    f.ends[1].stream.mark_closed();
    assert!(plane.is_closed(&f.ends[1].stream));
    assert_eq!(plane.poll_completion(&mut f.ends[1].stream), Some(None));
}

#[test]
fn transfers_do_not_touch_the_byte_stream() {
    let mut f = Fabric::new([small(), small()]);
    f.write(0, &bytes(16, 1));
    let wrs =
        f.ends[0].stream.begin_rdma_write_with_imm(&source(4), 0, 16, 0, 12, 4, 77).unwrap();
    f.post_writes(0, &wrs);
    f.ends[0].stream.writes_posted(1, true, 1).unwrap();
    f.write(0, &bytes(16, 2));
    f.drain(1);
    f.drain(0);
    assert_eq!(f.read(1, 16), Some(bytes(16, 1)));
    assert_eq!(f.ends[1].stream.next_completed_transfer(), Some(77));
    assert_eq!(f.read(1, 16), Some(bytes(16, 2)));
}

#[test]
fn data_plane_needs_negotiation() {
    let plain = HordConfig { split_mode: false, ..small() };
    let f = Fabric::new([plain, small()]);
    assert!(SplitReceiver::new(&f.ends[0].stream).is_none());
    assert!(SplitReceiver::new(&f.ends[1].stream).is_none());
}

#[test]
fn an_empty_window_is_no_offer_at_either_end() {
    let empty = HordConfig { split_credits: 0, ..small() };
    let f = Fabric::new([empty, small()]);
    for end in &f.ends {
        assert!(end.stream.zero_copy_negotiated());
        assert!(!end.stream.split_mode_negotiated());
    }
}

#[test]
fn write_errors() {
    let mut f = Fabric::new([small(), small()]);
    let s = &f.ends[0].stream;
    assert_eq!(s.check_write_capacity(4, false), Err(StreamError::TooManyWrs { needed: 4, pool: 3 }));
    assert_eq!(
        s.begin_rdma_write_gather_with_imm(&[], 16, 0, 12, 5),
        Err(StreamError::NoSegment)
    );
    assert_eq!(s.begin_rdma_write_gather(&[], 16, 0, 12), Ok(Vec::new()));
    // An empty body with an identifier still travels.
    let empty = s.begin_rdma_write_with_imm(&source(1), 0, 16, 40, 12, 0, 5).unwrap();
    assert_eq!(empty.len(), 1);
    assert_eq!(empty[0].imm, Some(5));
    assert_eq!(empty[0].sges[0].length, 0);
    // A refused post leaves what was taken outstanding and closes the stream.
    assert_eq!(f.ends[0].stream.writes_posted(2, false, 1), Err(StreamError::Post));
    assert!(f.ends[0].stream.is_closed());
    assert!(f.ends[0].stream.writes_pending());
    assert!(f.ends[0].stream.must_quiesce());
    let drive = WriteDrive::Draining(Err(StreamError::Post));
    assert_eq!(drive.next(&f.ends[0].stream), DriveAction::Pump);
    assert_eq!(
        f.ends[0].stream.begin_rdma_write(&source(8), 0, 16, 0, 12, 8),
        Err(StreamError::Closed)
    );
}

#[test]
fn driven_write_posts_drains_and_reports() {
    let mut f = Fabric::new([small(), small()]);
    f.ends[0].memory[..4].copy_from_slice(b"data");
    let mut drive = WriteDrive::new();
    assert_eq!(drive.next(&f.ends[0].stream), DriveAction::Begin);
    let wrs = f.ends[0].stream.begin_rdma_write(&source(4), 0, 16, 50, 12, 4).unwrap();
    f.post_writes(0, &wrs);
    let outcome = f.ends[0].stream.writes_posted(wrs.len(), false, wrs.len());
    assert_eq!(drive.begun(&f.ends[0].stream, outcome), DriveAction::Pump);
    f.drain(0);
    assert_eq!(drive.next(&f.ends[0].stream), DriveAction::Done(Ok(())));
    assert_eq!(&f.ends[1].memory[50..54], b"data");
    f.ends[0].stream.mark_closed();
    assert_eq!(
        drive.next(&f.ends[0].stream),
        DriveAction::Done(Err(StreamError::WriteAborted))
    );
    // Back-pressure with nothing in flight can never clear.
    let mut stuck = WriteDrive::new();
    assert_eq!(
        stuck.begun(&f.ends[0].stream, Err(StreamError::WouldBlock)),
        DriveAction::Done(Err(StreamError::Stalled))
    );
}

#[test]
fn driven_write_is_drained_before_a_failure_is_reported() {
    let mut f = Fabric::new([small(), small()]);
    let mut drive = WriteDrive::new();
    let wrs = f.ends[0].stream.begin_rdma_write(&source(4), 0, 16, 50, 12, 4).unwrap();
    f.post_writes(0, &wrs);
    let outcome = f.ends[0].stream.writes_posted(wrs.len(), false, wrs.len());
    assert_eq!(drive.begun(&f.ends[0].stream, outcome), DriveAction::Pump);
    // A runt message arrives first; the write is still outstanding.
    let runt = StreamError::Runt { len: 3 };
    let slot = f.ends[0].posted.pop_front().unwrap();
    let failed =
        f.ends[0].stream.handle_completion(&wc(slot, Opcode::Recv, 3, 0), &[1, 2, 3], true);
    assert_eq!(failed, Err(runt));
    assert_eq!(drive.pumped(&f.ends[0].stream, failed), DriveAction::Pump);
    // A later error does not replace the first.
    assert_eq!(drive.pumped(&f.ends[0].stream, Err(StreamError::Post)), DriveAction::Pump);
    assert!(f.ends[0].stream.must_quiesce());
    f.drain(0);
    assert_eq!(drive.pumped(&f.ends[0].stream, Ok(())), DriveAction::Done(Err(runt)));
    assert!(!f.ends[0].stream.must_quiesce());
}

#[test]
fn driven_write_on_a_dead_transport_is_torn_down() {
    let mut f = Fabric::new([small(), small()]);
    let mut drive = WriteDrive::new();
    let wrs = f.ends[0].stream.begin_rdma_write_with_imm(&source(4), 0, 16, 50, 12, 4, 1).unwrap();
    let outcome = f.ends[0].stream.writes_posted(wrs.len(), true, wrs.len());
    assert_eq!(drive.begun(&f.ends[0].stream, outcome), DriveAction::Pump);
    let dead = Err(StreamError::Transport);
    assert_eq!(drive.pumped(&f.ends[0].stream, dead), DriveAction::Teardown);
    f.ends[0].stream.quiesced();
    assert!(f.ends[0].stream.is_closed() && !f.ends[0].stream.writes_pending());
    assert_eq!(drive.next(&f.ends[0].stream), DriveAction::Done(dead));
    // While back-pressured with nothing of its own posted, a failure ends the write.
    let mut waiting = WriteDrive::new();
    assert_eq!(waiting.pumped(&f.ends[0].stream, dead), DriveAction::Done(dead));
}

#[test]
fn served_write_reaches_the_offered_buffer() {
    let mut f = Fabric::new([small(), small()]);
    let req = RdmaWriteReq { addr: 64, rkey: 12, len: 10, id: Some(9) };
    assert_eq!(
        serve_rdma_write(&f.ends[0].stream, &req, 11),
        ServeStep::Answer(RdmaWriteStatus::TooLarge { object_size: 11 })
    );
    let w = match serve_rdma_write(&f.ends[0].stream, &req, 6) {
        ServeStep::Write(w) => w,
        other => panic!("{other:?}"),
    };
    assert_eq!((w.payload_len, w.source_len, w.transfer_id), (6, 6, Some(9)));
    assert!(w.needs_fill() && w.reaches());
    f.ends[0].memory[..6].copy_from_slice(b"object");
    let wrs = w.begin(&f.ends[0].stream, &source(6), 16).unwrap();
    f.post_writes(0, &wrs);
    let outcome = f.ends[0].stream.writes_posted(wrs.len(), true, wrs.len());
    f.drain(0);
    f.drain(1);
    assert_eq!(w.finish(outcome), Ok(RdmaWriteStatus::Complete { bytes_written: 6 }));
    assert_eq!(w.finish(Err(StreamError::Post)), Err(StreamError::Post));
    assert_eq!(&f.ends[1].memory[64..70], b"object");
    assert_eq!(f.ends[1].stream.next_transfer(), Some(Some(9)));
    let far = RdmaWriteReq { addr: u64::MAX - 3, rkey: 12, len: 10, id: None };
    match serve_rdma_write(&f.ends[0].stream, &far, 6) {
        ServeStep::Write(w) => assert!(!w.reaches()),
        other => panic!("{other:?}"),
    }
}

#[test]
fn pump_looks_for_a_half_close_now_and_then() {
    let mut pump = Pump::new();
    assert_eq!(pump.on_empty(false), IdleStep::Return);
    for _ in 0..CM_DISCONNECT_POLL_SPINS - 1 {
        assert_eq!(pump.on_empty(true), IdleStep::Spin);
    }
    assert_eq!(pump.on_empty(true), IdleStep::CheckDisconnect);
    assert_eq!(pump.on_empty(true), IdleStep::Spin);
}

#[test]
fn metadata_is_a_snapshot() {
    let mut f = Fabric::new([small(), small()]);
    let addr = Some(PeerAddr::V4 { ip: 0x7F00_0001, port: 80 });
    f.ends[0].stream.established(false, addr, 123);
    let meta = f.ends[0].stream.conn_meta();
    assert_eq!(meta.peer_addr, addr);
    assert_eq!(meta.established_at, 123);
    assert!(meta.zero_copy_negotiated && meta.split_mode_negotiated);
    // An unwatched channel says nothing.
    assert!(!f.ends[0].stream.poll_cm_disconnect(true));
    assert!(!f.ends[0].stream.is_closed());
}
