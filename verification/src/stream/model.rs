//! The stream's state as a mathematical value, and what each operation makes of
//! it.

use vstd::prelude::*;
use crate::envelope::{flags, Envelope, ENVELOPE_LEN};
use crate::stream::{PeerAddr, StreamError};
use crate::verbs::{Completion, Opcode};
use crate::wr_id::{controls, immediates, sends, slot_in, writes, CTRL_FLAG, SEND_FLAG};

verus! {

/// The most credits that one envelope grants.
pub const MAX_GRANT: u32 = 65535;

/// A held message: its receive slot and the bytes not read yet.
#[verifier::ext_equal]
pub struct Ready {
    /// Receive slot.
    pub slot: usize,
    /// Unread payload.
    pub bytes: Seq<u8>,
}

/// A send to post: its identifier, the send slot that holds it and its bytes.
#[verifier::ext_equal]
pub struct SendView {
    /// Work-request identifier.
    pub wr_id: u64,
    /// Send slot.
    pub slot: usize,
    /// Envelope and payload.
    pub bytes: Seq<u8>,
}

/// The state of a stream.
#[verifier::ext_equal]
pub struct StreamState {
    /// Bytes per buffer slot.
    pub msg_size: usize,
    /// Largest payload of one message; zero until the peer's handshake is known.
    pub payload_cap: usize,
    /// Receive slots for data.
    pub recv_pool: usize,
    /// First receive slot of the split headroom.
    pub split_base: usize,
    /// Receive slots in the split headroom.
    pub split_headroom: usize,
    /// Send slots for data; the control slot follows them.
    pub send_pool: usize,
    /// Free data send slots, the next one to use last.
    pub send_free: Seq<usize>,
    /// Data messages that may still be posted.
    pub send_credits: u32,
    /// Credits owed to the peer.
    pub grant_pending: u32,
    /// A credit return is in flight.
    pub ctrl_send_busy: bool,
    /// Accepted bytes that are not in a posted message yet.
    pub tx_stage: Seq<u8>,
    /// Received messages that are not read to their end.
    pub rx_ready: Seq<Ready>,
    /// The peer or the transport closed the connection.
    pub peer_closed: bool,
    /// The connection manager's channel is watched for a half-close.
    pub cm_watch: bool,
    /// The peer's address.
    pub peer_addr: Option<PeerAddr>,
    /// When the handshake completed.
    pub established_at: u64,
    /// Zero-copy: wished before the handshake, negotiated after it.
    pub zero_copy: bool,
    /// One-sided writes that are not acknowledged.
    pub writes_outstanding: u32,
    /// Splitting: offered before the handshake, negotiated after it.
    pub split_mode: bool,
    /// The split headroom is registered.
    pub split_posted: bool,
    /// Split transfers that arrived and were not taken yet.
    pub completed_transfers: Seq<u32>,
    /// Split transfers that the peer can receive at once.
    pub peer_split_credits: u32,
    /// Writes-with-immediate that are not acknowledged.
    pub imm_outstanding: u32,
}

/// The smaller of two integers.
pub open spec fn min_int(a: int, b: int) -> int {
    if a <= b {
        a
    } else {
        b
    }
}

/// What is left of `rx` once its first `n` bytes have been read.
pub open spec fn drained(rx: Seq<Ready>, n: int) -> Seq<Ready>
    decreases rx.len(),
{
    if rx.len() == 0 || n <= 0 {
        rx
    } else if rx[0].bytes.len() <= n {
        drained(rx.drop_first(), n - rx[0].bytes.len())
    } else {
        seq![Ready { slot: rx[0].slot, bytes: rx[0].bytes.skip(n) }] + rx.drop_first()
    }
}

/// All unread bytes, in order.
pub open spec fn held(rx: Seq<Ready>) -> Seq<u8>
    decreases rx.len(),
{
    if rx.len() == 0 {
        seq![]
    } else {
        rx[0].bytes + held(rx.drop_first())
    }
}

/// How many whole messages the first `n` unread bytes make up.
pub open spec fn finished(rx: Seq<Ready>, n: int) -> int
    decreases rx.len(),
{
    if rx.len() == 0 || n <= 0 || rx[0].bytes.len() > n {
        0
    } else {
        1 + finished(rx.drop_first(), n - rx[0].bytes.len())
    }
}

/// Bytes of the first `k` messages.
pub open spec fn held_len(rx: Seq<Ready>, k: int) -> int
    decreases k,
{
    if k <= 0 || rx.len() == 0 {
        0
    } else {
        rx[0].bytes.len() + held_len(rx.drop_first(), k - 1)
    }
}

impl StreamState {
    /// The invariant: before the peer's handshake nothing is staged; after it a
    /// payload fits a message of either end, and less than one payload is staged.
    /// No held message is empty, and the free send slots are distinct slots of the
    /// data pool.
    pub open spec fn inv(self) -> bool {
        &&& self.payload_cap == 0 ==> self.tx_stage.len() == 0
        &&& self.payload_cap > 0 ==> {
            &&& self.tx_stage.len() < self.payload_cap
            &&& self.payload_cap + ENVELOPE_LEN <= self.msg_size
            &&& self.payload_cap + ENVELOPE_LEN <= u32::MAX
        }
        &&& forall|i: int| 0 <= i < self.rx_ready.len() ==> (#[trigger] self.rx_ready[i]).bytes.len() > 0
        &&& self.slots_distinct()
        &&& self.send_pool < u32::MAX
        &&& self.send_free.len() <= self.send_pool
        &&& self.imm_outstanding <= self.writes_outstanding
        &&& self.split_base + self.split_headroom <= usize::MAX
        &&& self.split_base * self.msg_size <= usize::MAX
        &&& self.split_headroom * self.msg_size <= usize::MAX
        &&& (self.send_pool + 1) * self.msg_size <= usize::MAX
    }

    /// The free send slots are distinct slots of the data pool.
    pub open spec fn slots_distinct(self) -> bool {
        &&& self.send_free.no_duplicates()
        &&& forall|i: int| 0 <= i < self.send_free.len() ==> #[trigger] self.send_free[i]
            < self.send_pool
    }

    /// The peer's handshake is known.
    pub open spec fn ready(self) -> bool {
        self.payload_cap > 0
    }

    /// Whether a data send is unacknowledged.
    pub open spec fn sends_pending(self) -> bool {
        self.send_free.len() < self.send_pool
    }

    /// Data messages that can be posted right now.
    pub open spec fn window(self) -> int {
        if self.peer_closed {
            0
        } else {
            min_int(self.send_free.len() as int, self.send_credits as int)
        }
    }

    /// The slot of the control send.
    pub open spec fn ctrl_slot(self) -> usize {
        self.send_pool
    }

    /// Grants owed before an unprompted credit return.
    pub open spec fn proactive(self) -> u32 {
        let q = (self.recv_pool as u32 / 4) as u32;
        if q < 1 {
            1
        } else {
            q
        }
    }

    /// Grants still owed after `i` messages carried as many as they could.
    pub open spec fn grant_after(self, i: int) -> int {
        if self.grant_pending <= MAX_GRANT * i {
            0
        } else {
            self.grant_pending - MAX_GRANT * i
        }
    }

    /// Grants that the `i`-th message from here carries.
    pub open spec fn stamp(self, i: int) -> u16 {
        min_int(self.grant_after(i), MAX_GRANT as int) as u16
    }

    /// The slot of the `i`-th data message from here.
    pub open spec fn slot_for(self, i: int) -> usize {
        self.send_free[self.send_free.len() - 1 - i]
    }

    /// The `i`-th data message from here, carrying `payload`.
    pub open spec fn data_message(self, i: int, payload: Seq<u8>) -> SendView {
        SendView {
            wr_id: SEND_FLAG | self.slot_for(i) as u64,
            slot: self.slot_for(i),
            bytes: (Envelope { length: payload.len() as u32, credits: self.stamp(i), flags: 0 }).wire()
                + payload,
        }
    }

    /// The state once `k` data messages have been posted.
    pub open spec fn after_sends(self, k: int) -> StreamState {
        StreamState {
            send_free: self.send_free.take(self.send_free.len() - k),
            send_credits: (self.send_credits - k) as u32,
            grant_pending: self.grant_after(k) as u32,
            ..self
        }
    }

    /// Whether a credit return is sent when at least `threshold` grants are worth
    /// one: one is owed, none is in flight and the stream is open.
    pub open spec fn returns_credits(self, threshold: u32) -> bool {
        &&& self.grant_pending >= threshold
        &&& self.grant_pending > 0
        &&& !self.ctrl_send_busy
        &&& !self.peer_closed
    }

    /// The credit return that would be sent.
    pub open spec fn credit_message(self) -> SendView {
        SendView {
            wr_id: SEND_FLAG | CTRL_FLAG | self.ctrl_slot() as u64,
            slot: self.ctrl_slot(),
            bytes: (Envelope { length: 0, credits: self.stamp(0), flags: flags::CREDIT_ONLY }).wire(),
        }
    }

    /// The credit return to post, if any.
    pub open spec fn credit_posts(self, threshold: u32) -> Seq<SendView> {
        if self.returns_credits(threshold) {
            seq![self.credit_message()]
        } else {
            seq![]
        }
    }

    /// The state once the credit return, if any, has been handed to the queue
    /// pair, which took `accepted` work requests.
    pub open spec fn after_credits(self, threshold: u32, accepted: int) -> StreamState {
        if !self.returns_credits(threshold) {
            self
        } else if accepted >= 1 {
            StreamState {
                ctrl_send_busy: true,
                grant_pending: self.grant_after(1) as u32,
                ..self
            }
        } else {
            self.closed()
        }
    }

    /// Whether the credit return, if any, was taken.
    pub open spec fn credits_taken(self, threshold: u32, accepted: int) -> bool {
        self.returns_credits(threshold) ==> accepted >= 1
    }

    /// The same state, closed.
    pub open spec fn closed(self) -> StreamState {
        StreamState { peer_closed: true, ..self }
    }

    /// The staged bytes followed by `buf`.
    pub open spec fn with_stage(self, buf: Seq<u8>) -> Seq<u8> {
        self.tx_stage + buf
    }

    /// Whole messages that the staged bytes and `buf` make up.
    pub open spec fn whole(self, buf: Seq<u8>) -> int {
        (self.tx_stage.len() + buf.len()) as int / self.payload_cap as int
    }

    /// How many of them a write of `buf` posts: as many as the window allows.
    pub open spec fn sent(self, buf: Seq<u8>) -> int {
        min_int(self.whole(buf), self.window())
    }

    /// The payload of the `i`-th message of a write of `buf`.
    pub open spec fn chunk(self, buf: Seq<u8>, i: int) -> Seq<u8> {
        self.with_stage(buf).subrange(i * self.payload_cap, (i + 1) * self.payload_cap)
    }

    /// The data messages that a write of `buf` posts.
    pub open spec fn write_messages(self, buf: Seq<u8>) -> Seq<SendView> {
        Seq::new(
            self.sent(buf) as nat,
            |i: int| self.data_message(i, self.chunk(buf, i)),
        )
    }

    /// The work requests of a write of `buf`: its data messages and, when the
    /// window cut it short, a credit return, so that a peer that waits for credits
    /// is not kept waiting.
    pub open spec fn write_posts(self, buf: Seq<u8>) -> Seq<SendView> {
        if self.peer_closed {
            seq![]
        } else if self.sent(buf) < self.whole(buf) {
            self.write_messages(buf) + self.after_sends(self.sent(buf)).credit_posts(1)
        } else {
            self.write_messages(buf)
        }
    }

    /// The state after a write of `buf` of whose work requests `accepted` were
    /// taken.
    pub open spec fn after_write(self, buf: Seq<u8>, accepted: int) -> StreamState {
        let k = self.sent(buf);
        if self.peer_closed {
            self
        } else if accepted < k {
            StreamState { tx_stage: seq![], ..self.after_sends(accepted) }.closed()
        } else if k == self.whole(buf) {
            StreamState {
                tx_stage: self.with_stage(buf).skip(k * self.payload_cap),
                ..self.after_sends(k)
            }
        } else if k == 0 {
            self.after_credits(1, accepted)
        } else {
            StreamState { tx_stage: seq![], ..self.after_sends(k) }.after_credits(1, accepted - k)
        }
    }

    /// What a write of `buf` returns when `accepted` of its work requests were
    /// taken: the bytes of `buf` that are now staged or in a posted message.
    pub open spec fn write_result(self, buf: Seq<u8>, accepted: int) -> Result<
        usize,
        StreamError,
    > {
        let k = self.sent(buf);
        if self.peer_closed {
            Err(StreamError::Closed)
        } else if accepted < k {
            Err(StreamError::Post)
        } else if k == self.whole(buf) {
            Ok(buf.len() as usize)
        } else if !self.after_sends(k).credits_taken(1, accepted - k) {
            Err(StreamError::Post)
        } else if k == 0 {
            Ok(0)
        } else {
            Ok((k * self.payload_cap - self.tx_stage.len()) as usize)
        }
    }

    /// The bytes of `buf` that a failed write of it left in posted messages: it did
    /// not report them as accepted.
    pub open spec fn write_unreported(self, buf: Seq<u8>, accepted: int) -> Seq<u8> {
        let posted = min_int(accepted, self.sent(buf));
        if self.peer_closed || self.write_result(buf, accepted) is Ok || posted <= 0 {
            seq![]
        } else {
            buf.take(posted * self.payload_cap - self.tx_stage.len())
        }
    }

    /// The staged bytes that a failed write of `buf` dropped, because the message
    /// that was to carry them was refused.
    pub open spec fn write_dropped(self, buf: Seq<u8>, accepted: int) -> Seq<u8> {
        if !self.peer_closed && accepted <= 0 && self.sent(buf) > 0 {
            self.tx_stage
        } else {
            seq![]
        }
    }

    /// The work requests of a flush of the staged bytes.
    pub open spec fn flush_posts(self) -> Seq<SendView> {
        if self.tx_stage.len() == 0 {
            seq![]
        } else if self.window() > 0 {
            seq![self.data_message(0, self.tx_stage)]
        } else {
            self.credit_posts(1)
        }
    }

    /// The state after a flush of the staged bytes of whose work requests
    /// `accepted` were taken.
    pub open spec fn after_flush(self, accepted: int) -> StreamState {
        if self.tx_stage.len() == 0 {
            self
        } else if self.window() <= 0 {
            self.after_credits(1, accepted)
        } else if accepted >= 1 {
            StreamState { tx_stage: seq![], ..self.after_sends(1) }
        } else {
            StreamState { tx_stage: seq![], ..self }.closed()
        }
    }

    /// What a flush of the staged bytes returns: whether nothing is staged any
    /// more.
    pub open spec fn flush_result(self, accepted: int) -> Result<bool, StreamError> {
        if self.tx_stage.len() == 0 {
            Ok(true)
        } else if self.window() > 0 {
            if accepted >= 1 {
                Ok(true)
            } else {
                Err(StreamError::Post)
            }
        } else if self.credits_taken(1, accepted) {
            Ok(false)
        } else {
            Err(StreamError::Post)
        }
    }

    /// The staged bytes that a failed flush dropped.
    pub open spec fn flush_dropped(self, accepted: int) -> Seq<u8> {
        if self.window() > 0 && accepted < 1 {
            self.tx_stage
        } else {
            seq![]
        }
    }

    /// Bytes that a read into `room` bytes delivers.
    pub open spec fn read_len(self, room: int) -> int {
        min_int(room, held(self.rx_ready).len() as int)
    }

    /// Messages that a read into `room` bytes reads to their end.
    pub open spec fn read_finishes(self, room: int) -> int {
        finished(self.rx_ready, self.read_len(room))
    }

    /// The receive slots that a read into `room` bytes frees, in order.
    pub open spec fn read_reposts(self, room: int) -> Seq<usize> {
        Seq::new(self.read_finishes(room) as nat, |i: int| self.rx_ready[i].slot)
    }

    /// The state once a read into `room` bytes has drained what it delivers and
    /// every freed slot has been re-posted: one credit more is owed for each.
    pub open spec fn after_drain(self, room: int) -> StreamState {
        StreamState {
            rx_ready: drained(self.rx_ready, self.read_len(room)),
            grant_pending: (self.grant_pending + self.read_finishes(room)) as u32,
            ..self
        }
    }

    /// The credit return that follows the re-posts of a read, if any.
    pub open spec fn read_credits(self, room: int) -> Seq<SendView> {
        if self.read_len(room) <= 0 {
            seq![]
        } else {
            self.after_drain(room).credit_posts(self.proactive())
        }
    }

    /// The state after a read into `room` bytes of whose work requests `accepted`
    /// were taken.
    pub open spec fn after_read(self, room: int, accepted: int) -> StreamState {
        if self.read_len(room) <= 0 {
            self
        } else if accepted < self.read_finishes(room) {
            StreamState {
                rx_ready: self.rx_ready.skip(accepted + 1),
                grant_pending: (self.grant_pending + accepted) as u32,
                ..self
            }.closed()
        } else {
            self.after_drain(room).after_credits(
                self.proactive(),
                accepted - self.read_finishes(room),
            )
        }
    }

    /// The messages that such a read has sent.
    pub open spec fn read_sent(self, room: int, accepted: int) -> Seq<SendView> {
        if accepted <= self.read_finishes(room) {
            seq![]
        } else {
            self.read_credits(room)
        }
    }

    /// The bytes that such a read has copied out.
    pub open spec fn bytes_read(self, room: int, accepted: int) -> Seq<u8> {
        if accepted < self.read_finishes(room) {
            held(self.rx_ready).take(held_len(self.rx_ready, accepted + 1))
        } else {
            held(self.rx_ready).take(self.read_len(room))
        }
    }

    /// What such a read returns: the bytes delivered, zero at the end of the
    /// stream, or nothing when no byte has arrived yet.
    pub open spec fn read_result(self, room: int, accepted: int) -> Result<
        Option<usize>,
        StreamError,
    > {
        if room <= 0 {
            Ok(Some(0))
        } else if self.rx_ready.len() == 0 {
            Ok(
                if self.peer_closed {
                    Some(0)
                } else {
                    None
                },
            )
        } else if accepted < self.read_finishes(room) {
            Err(StreamError::Post)
        } else if self.after_drain(room).credits_taken(
            self.proactive(),
            accepted - self.read_finishes(room),
        ) {
            Ok(Some(self.read_len(room) as usize))
        } else {
            Err(StreamError::Post)
        }
    }

    /// Bytes of the message that a receive completion delivered, when `msg` holds
    /// what was copied out of its slot.
    pub open spec fn received(self, wc: Completion, msg: Seq<u8>) -> int {
        min_int(min_int(wc.byte_len as int, self.msg_size as int), msg.len() as int)
    }

    /// Whether the completion is that of a message that arrived.
    pub open spec fn is_message(self, wc: Completion) -> bool {
        wc.opcode != Opcode::RecvRdmaWithImm && !writes(wc.wr_id) && wc.success() && !sends(
            wc.wr_id,
        )
    }

    /// The payload of a received message of `n` bytes: what its envelope announces,
    /// as far as it arrived; a credit-only message has none.
    pub open spec fn payload_of(msg: Seq<u8>, n: int) -> Seq<u8> {
        let env = Envelope::parsed(msg);
        if env.credit_only() {
            seq![]
        } else {
            msg.subrange(
                ENVELOPE_LEN as int,
                ENVELOPE_LEN + min_int(env.length as int, n - ENVELOPE_LEN),
            )
        }
    }

    /// The state once the send `wr_id` has completed: a control send frees the
    /// control slot, any other gives its slot back.
    pub open spec fn reclaimed(self, wr_id: u64) -> StreamState {
        if controls(wr_id) {
            StreamState { ctrl_send_busy: false, ..self }
        } else {
            StreamState { send_free: self.send_free.push(slot_in(wr_id)), ..self }
        }
    }

    /// The receive slot that processing the completion re-posts, if any: at once
    /// for an immediate, a credit-only message and an empty data message, but only
    /// after the last byte has been read for a message with payload.
    pub open spec fn completion_repost(self, wc: Completion, msg: Seq<u8>) -> Option<usize> {
        let n = self.received(wc, msg);
        if wc.opcode == Opcode::RecvRdmaWithImm && wc.success() {
            Some(slot_in(wc.wr_id))
        } else if self.is_message(wc) && n >= ENVELOPE_LEN && Self::payload_of(msg, n).len() == 0 {
            Some(slot_in(wc.wr_id))
        } else {
            None
        }
    }

    /// The state after a completion, given whether its re-post, if any, was taken.
    pub open spec fn after_completion(
        self,
        wc: Completion,
        msg: Seq<u8>,
        reposted: bool,
    ) -> StreamState {
        if wc.opcode == Opcode::RecvRdmaWithImm {
            if !wc.success() {
                self.closed()
            } else {
                let s = StreamState {
                    completed_transfers: self.completed_transfers.push(wc.imm_data),
                    ..self
                };
                if reposted {
                    s
                } else {
                    s.closed()
                }
            }
        } else if writes(wc.wr_id) {
            StreamState {
                writes_outstanding: if self.writes_outstanding > 0 {
                    (self.writes_outstanding - 1) as u32
                } else {
                    0
                },
                imm_outstanding: if immediates(wc.wr_id) && self.imm_outstanding > 0 {
                    (self.imm_outstanding - 1) as u32
                } else {
                    self.imm_outstanding
                },
                peer_closed: self.peer_closed || !wc.success(),
                ..self
            }
        } else if !wc.success() {
            if sends(wc.wr_id) {
                self.reclaimed(wc.wr_id).closed()
            } else {
                self.closed()
            }
        } else if sends(wc.wr_id) {
            self.reclaimed(wc.wr_id)
        } else {
            self.after_message(slot_in(wc.wr_id), msg, self.received(wc, msg), reposted)
        }
    }

    /// The state after the message `msg` of `n` bytes arrived in `slot`.
    pub open spec fn after_message(
        self,
        slot: usize,
        msg: Seq<u8>,
        n: int,
        reposted: bool,
    ) -> StreamState {
        let env = Envelope::parsed(msg);
        let payload = Self::payload_of(msg, n);
        let granted = min_int(self.send_credits + env.credits, u32::MAX as int);
        let s = StreamState { send_credits: granted as u32, ..self };
        if n < ENVELOPE_LEN {
            self
        } else if payload.len() > 0 {
            StreamState { rx_ready: self.rx_ready.push(Ready { slot, bytes: payload }), ..s }
        } else if !reposted {
            s.closed()
        } else if env.credit_only() {
            s
        } else {
            StreamState { grant_pending: (self.grant_pending + 1) as u32, ..s }
        }
    }

    /// What processing the completion returns.
    pub open spec fn completion_result(
        self,
        wc: Completion,
        msg: Seq<u8>,
        reposted: bool,
    ) -> Result<(), StreamError> {
        let n = self.received(wc, msg);
        if self.is_message(wc) && n < ENVELOPE_LEN {
            Err(StreamError::Runt { len: n as usize })
        } else if self.completion_repost(wc, msg) is Some && !reposted {
            Err(StreamError::Post)
        } else {
            Ok(())
        }
    }

    /// Whether the completion answers a work request that is in flight: a send
    /// from a slot that is not free, a write that is outstanding, or any receive.
    pub open spec fn expects(self, wc: Completion) -> bool {
        if wc.opcode == Opcode::RecvRdmaWithImm {
            true
        } else if writes(wc.wr_id) {
            if immediates(wc.wr_id) {
                self.imm_outstanding > 0
            } else {
                self.writes_outstanding > self.imm_outstanding
            }
        } else if sends(wc.wr_id) && !controls(wc.wr_id) {
            slot_in(wc.wr_id) < self.send_pool && !self.send_free.contains(slot_in(wc.wr_id))
        } else {
            true
        }
    }

    /// Send-queue entries that one-sided writes can use: the free data slots, less
    /// the writes in flight.
    pub open spec fn write_room(self) -> int {
        if self.send_free.len() <= self.writes_outstanding {
            0
        } else {
            self.send_free.len() - self.writes_outstanding
        }
    }

    /// Whether a batch of `n_wrs` writes may be posted. More than the send pool
    /// never fits; otherwise it waits until enough entries are free and, with an
    /// immediate, until the peer can receive one more transfer.
    pub open spec fn capacity(self, n_wrs: int, has_imm: bool) -> Result<(), StreamError> {
        if n_wrs > self.send_pool {
            Err(StreamError::TooManyWrs { needed: n_wrs as usize, pool: self.send_pool })
        } else if n_wrs > self.write_room() {
            Err(StreamError::WouldBlock)
        } else if has_imm && self.imm_outstanding >= self.peer_split_credits {
            Err(StreamError::WouldBlock)
        } else {
            Ok(())
        }
    }

    /// The state once `accepted` of `n` writes have been taken, the last of which
    /// carries an immediate if `has_imm`.
    pub open spec fn after_writes(self, n: int, has_imm: bool, accepted: int) -> StreamState {
        let taken = min_int(n, accepted);
        StreamState {
            writes_outstanding: (self.writes_outstanding + taken) as u32,
            imm_outstanding: if has_imm && accepted >= n {
                (self.imm_outstanding + 1) as u32
            } else {
                self.imm_outstanding
            },
            peer_closed: self.peer_closed || accepted < n,
            ..self
        }
    }
    /// The state once the queue pair has been torn down: no write is outstanding,
    /// and the stream is closed.
    pub open spec fn after_teardown(self) -> StreamState {
        StreamState { writes_outstanding: 0, imm_outstanding: 0, peer_closed: true, ..self }
    }
}

/// Whether no message of `rx` is empty.
pub open spec fn nonempty(rx: Seq<Ready>) -> bool {
    forall|i: int| 0 <= i < rx.len() ==> (#[trigger] rx[i]).bytes.len() > 0
}

/// Reading the first `p` messages and `r` bytes of the next one.
pub proof fn lemma_drained(rx: Seq<Ready>, p: int, r: int)
    requires
        nonempty(rx),
        0 <= p <= rx.len(),
        r == 0 || (p < rx.len() && 0 <= r < rx[p].bytes.len()),
    ensures
        finished(rx, held_len(rx, p) + r) == p,
        held_len(rx, p) >= 0,
        drained(rx, held_len(rx, p) + r) == (if r == 0 {
            rx.skip(p)
        } else {
            seq![Ready { slot: rx[p].slot, bytes: rx[p].bytes.skip(r) }] + rx.skip(p + 1)
        }),
    decreases p,
{
    if p == 0 {
        assert(rx.skip(0) =~= rx);
        if rx.len() > 0 {
            assert(rx.skip(1) =~= rx.drop_first());
            assert(rx[0].bytes.len() > 0);
        }
    } else {
        let rest = rx.drop_first();
        assert forall|i: int| 0 <= i < rest.len() implies (#[trigger] rest[i]).bytes.len() > 0 by {
            assert(rest[i] == rx[i + 1]);
        }
        lemma_drained(rest, p - 1, r);
        assert(rx[0].bytes.len() > 0);
        assert(rest.skip(p - 1) =~= rx.skip(p));
        if p < rx.len() {
            assert(rest.skip(p) =~= rx.skip(p + 1));
        }
    }
}

/// The unread bytes behind the first `p` messages.
pub proof fn lemma_held_skip(rx: Seq<Ready>, p: int)
    requires
        0 <= p <= rx.len(),
    ensures
        0 <= held_len(rx, p) <= held(rx).len(),
        held(rx).skip(held_len(rx, p)) == held(rx.skip(p)),
    decreases p,
{
    if p == 0 {
        assert(rx.skip(0) =~= rx);
        assert(held(rx).skip(0) =~= held(rx));
    } else {
        let rest = rx.drop_first();
        lemma_held_skip(rest, p - 1);
        assert(rest.skip(p - 1) =~= rx.skip(p));
        assert(held(rx).skip(held_len(rx, p)) =~= held(rest).skip(held_len(rest, p - 1)));
    }
}

/// Adding a message to the prefix adds its bytes.
pub proof fn lemma_held_len_step(rx: Seq<Ready>, p: int)
    requires
        0 <= p < rx.len(),
    ensures
        held_len(rx, p + 1) == held_len(rx, p) + rx[p].bytes.len(),
    decreases p,
{
    if p > 0 {
        lemma_held_len_step(rx.drop_first(), p - 1);
    } else {
        assert(held_len(rx.drop_first(), 0) == 0);
    }
}

} // verus!
