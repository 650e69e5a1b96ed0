//! Completions: what each one means for the stream, by opcode and identifier.

use vstd::prelude::*;
use crate::envelope::{Envelope, ENVELOPE_LEN};
use crate::stream::model::{Ready, StreamState};
use crate::stream::{HordStream, ReadyMsg, StreamError};
use crate::verbs::{Completion, Opcode};
use crate::wr_id::{is_ctrl_send, is_imm_write, is_send, is_write, slot_of};

verus! {

/// Where a receive slot's memory lies.
#[derive(Debug, Clone, Copy, PartialEq, Eq, Structural)]
pub enum RecvPlace {
    /// In the region that is posted before the handshake.
    Base {
        /// Byte offset of the slot.
        offset: usize,
    },
    /// In the split headroom.
    Split {
        /// Byte offset of the slot.
        offset: usize,
    },
}

impl StreamState {
    /// The region that a receive slot lies in and its offset there.
    pub open spec fn recv_place(self, slot: usize) -> Option<RecvPlace> {
        if slot < self.split_base {
            Some(RecvPlace::Base { offset: (slot * self.msg_size) as usize })
        } else if self.split_posted && slot - self.split_base < self.split_headroom {
            Some(
                RecvPlace::Split { offset: ((slot - self.split_base) * self.msg_size) as usize },
            )
        } else {
            None
        }
    }

    /// How many bytes of its receive slot a completion has delivered.
    pub open spec fn message_bytes(self, wc: Completion) -> usize {
        if self.is_message(wc) {
            if wc.byte_len <= self.msg_size {
                wc.byte_len as usize
            } else {
                self.msg_size
            }
        } else {
            0
        }
    }
}

impl HordStream {
    /// The region that a receive slot lies in and its offset there, or `None` for
    /// a slot of no region. The receive queue is one FIFO, so a message of either
    /// kind can land in either region.
    pub fn recv_slot(&self, slot: usize) -> (r: Option<RecvPlace>)
        requires
            self.wf(),
        ensures
            r == self@.recv_place(slot),
    {
        proof {
            let m = self@.msg_size as int;
            let a = slot as int;
            let b = self@.split_base as int;
            let c = self@.split_headroom as int;
            assert(a < b ==> a * m <= b * m) by (nonlinear_arith)
                requires
                    m >= 0,
                    a >= 0,
            ;
            assert(a - b < c ==> (a - b) * m <= c * m) by (nonlinear_arith)
                requires
                    m >= 0,
            ;
            assert(a >= 0 ==> a * m >= 0) by (nonlinear_arith)
                requires
                    m >= 0,
            ;
        }
        if slot < self.split_base {
            Some(RecvPlace::Base { offset: slot * self.msg_size })
        } else if self.split_posted && slot - self.split_base < self.split_headroom {
            Some(RecvPlace::Split { offset: (slot - self.split_base) * self.msg_size })
        } else {
            None
        }
    }

    /// How many bytes of its receive slot a completion has delivered; zero for a
    /// completion that is not that of an arrived message.
    pub fn message_len(&self, wc: &Completion) -> (r: usize)
        ensures
            r == self@.message_bytes(*wc),
    {
        if wc.opcode == Opcode::RecvRdmaWithImm || is_write(wc.wr_id) || !wc.is_success() || is_send(
            wc.wr_id,
        ) {
            0
        } else if wc.byte_len as usize <= self.msg_size {
            wc.byte_len as usize
        } else {
            self.msg_size
        }
    }

    fn arrived(&self, wc: &Completion, msg: &[u8]) -> (r: usize)
        ensures
            r == self@.received(*wc, msg@),
    {
        let n: usize = if wc.byte_len as usize <= self.msg_size {
            wc.byte_len as usize
        } else {
            self.msg_size
        };
        if n <= msg.len() {
            n
        } else {
            msg.len()
        }
    }

    /// The receive slot to re-post when the completion is processed, if any.
    pub fn plan_completion(&self, wc: &Completion, msg: &[u8]) -> (r: Option<usize>)
        ensures
            r == self@.completion_repost(*wc, msg@),
    {
        if wc.opcode == Opcode::RecvRdmaWithImm {
            return if wc.is_success() {
                Some(slot_of(wc.wr_id))
            } else {
                None
            };
        }
        if is_write(wc.wr_id) || !wc.is_success() || is_send(wc.wr_id) {
            return None;
        }
        let n: usize = self.arrived(wc, msg);
        if n < ENVELOPE_LEN {
            return None;
        }
        let env = Envelope::decode(msg);
        if env.is_credit_only() || env.length == 0 || n == ENVELOPE_LEN {
            Some(slot_of(wc.wr_id))
        } else {
            None
        }
    }

    fn reclaim_send(&mut self, wr_id: u64)
        ensures
            final(self)@ == old(self)@.reclaimed(wr_id),
            final(self).rx_ready@ == old(self).rx_ready@,
    {
        if is_ctrl_send(wr_id) {
            self.ctrl_send_busy = false;
        } else {
            self.send_free.push(slot_of(wr_id));
        }
        assert(self@ =~= old(self)@.reclaimed(wr_id));
    }

    fn hold(&mut self, slot: usize, payload: &[u8])
        ensures
            final(self)@ == (StreamState {
                rx_ready: old(self)@.rx_ready.push(Ready { slot, bytes: payload@ }),
                ..old(self)@
            }),
            old(self).wf() && payload@.len() > 0 ==> final(self).wf(),
    {
        let ghost before = self.rx_ready@;
        let data: Vec<u8> = vstd::slice::slice_to_vec(payload);
        let m = ReadyMsg { slot, data, start: 0 };
        let ghost held = m@;
        self.rx_ready.push_back(m);
        proof {
            assert(held.bytes =~= payload@);
            assert(self@.rx_ready =~= old(self)@.rx_ready.push(held));
            assert(self@ =~= (StreamState {
                rx_ready: old(self)@.rx_ready.push(Ready { slot, bytes: payload@ }),
                ..old(self)@
            }));
            if old(self).wf() && payload@.len() > 0 {
                assert forall|i: int| 0 <= i < self.rx_ready@.len() implies (
                #[trigger] self.rx_ready@[i]).in_bounds() by {
                    if i < before.len() {
                        assert(self.rx_ready@[i] == before[i]);
                    }
                }
                assert forall|i: int| 0 <= i < self@.rx_ready.len() implies (
                #[trigger] self@.rx_ready[i]).bytes.len() > 0 by {
                    if i < old(self)@.rx_ready.len() {
                        assert(self@.rx_ready[i] == old(self)@.rx_ready[i]);
                    }
                }
            }
        }
    }

    /// Processes one completion. `msg` is what was copied out of the receive slot
    /// (see [`message_len`](Self::message_len)); `reposted` says whether the
    /// receive of [`plan_completion`](Self::plan_completion), if any, was taken.
    ///
    /// The completion is told apart by opcode and identifier: the arrival of a
    /// split transfer, a one-sided write, a send, or a message. A failed completion
    /// closes the stream, so that reads see its end; only a send gives a slot back
    /// then.
    pub fn handle_completion(&mut self, wc: &Completion, msg: &[u8], reposted: bool) -> (r: Result<
        (),
        StreamError,
    >)
        requires
            old(self)@.grant_pending < u32::MAX,
        ensures
            final(self)@ == old(self)@.after_completion(*wc, msg@, reposted),
            r == old(self)@.completion_result(*wc, msg@, reposted),
            old(self).wf() && old(self)@.expects(*wc) ==> final(self).wf(),
    {
        let ghost s = self@;
        if wc.opcode == Opcode::RecvRdmaWithImm {
            if !wc.is_success() {
                self.peer_closed = true;
                return Ok(());
            }
            self.completed_transfers.push_back(wc.imm_data);
            if !reposted {
                self.peer_closed = true;
                return Err(StreamError::Post);
            }
            return Ok(());
        }
        if is_write(wc.wr_id) {
            self.writes_outstanding = self.writes_outstanding.saturating_sub(1);
            if is_imm_write(wc.wr_id) {
                self.imm_outstanding = self.imm_outstanding.saturating_sub(1);
            }
            if !wc.is_success() {
                self.peer_closed = true;
            }
            return Ok(());
        }
        if !wc.is_success() {
            if is_send(wc.wr_id) {
                self.reclaim_send(wc.wr_id);
                proof {
                    lemma_reclaimed(s, wc.wr_id);
                }
            }
            self.peer_closed = true;
            return Ok(());
        }
        if is_send(wc.wr_id) {
            self.reclaim_send(wc.wr_id);
            proof {
                lemma_reclaimed(s, wc.wr_id);
            }
            return Ok(());
        }
        let slot: usize = slot_of(wc.wr_id);
        let n: usize = self.arrived(wc, msg);
        if n < ENVELOPE_LEN {
            return Err(StreamError::Runt { len: n });
        }
        let env = Envelope::decode(msg);
        let avail: usize = n - ENVELOPE_LEN;
        let plen: usize = if env.is_credit_only() {
            0
        } else if env.length as usize <= avail {
            env.length as usize
        } else {
            avail
        };
        self.send_credits = self.send_credits.saturating_add(env.credits as u32);
        if plen > 0 {
            let payload: &[u8] = vstd::slice::slice_subrange(msg, ENVELOPE_LEN, ENVELOPE_LEN + plen);
            self.hold(slot, payload);
            return Ok(());
        }
        if !reposted {
            self.peer_closed = true;
            return Err(StreamError::Post);
        }
        if !env.is_credit_only() {
            self.grant_pending = self.grant_pending + 1;
        }
        Ok(())
    }
}

/// Giving back a slot that was in use keeps the free slots distinct.
pub(crate) proof fn lemma_reclaimed(s: StreamState, wr_id: u64)
    ensures
        s.inv() && (in_use(s, wr_id)) ==> s.reclaimed(wr_id).inv(),
{
    let t = s.reclaimed(wr_id);
    if s.inv() && in_use(s, wr_id) && !crate::wr_id::controls(wr_id) {
        let slot = crate::wr_id::slot_in(wr_id);
        assert forall|i: int, j: int|
            0 <= i < t.send_free.len() && 0 <= j < t.send_free.len() && i
                != j implies t.send_free[i] != t.send_free[j] by {
            if i < s.send_free.len() && j == s.send_free.len() {
                assert(s.send_free.contains(s.send_free[i]));
            }
            if j < s.send_free.len() && i == s.send_free.len() {
                assert(s.send_free.contains(s.send_free[j]));
            }
        }
        lemma_distinct_below(t.send_free, t.send_pool as nat);
    }
}

pub(crate) open spec fn in_use(s: StreamState, wr_id: u64) -> bool {
    crate::wr_id::controls(wr_id) || (crate::wr_id::slot_in(wr_id) < s.send_pool
        && !s.send_free.contains(crate::wr_id::slot_in(wr_id)))
}

/// Distinct numbers below `n` are at most `n` of them.
proof fn lemma_distinct_below(s: Seq<usize>, n: nat)
    requires
        s.no_duplicates(),
        forall|i: int| 0 <= i < s.len() ==> #[trigger] s[i] < n,
    ensures
        s.len() <= n,
{
    let ints = s.map_values(|x: usize| x as int);
    assert forall|i: int, j: int| 0 <= i < ints.len() && 0 <= j < ints.len() && i
        != j implies ints[i] != ints[j] by {
        assert(s[i] != s[j]);
    }
    ints.unique_seq_to_set();
    let below = vstd::set_lib::set_int_range(0, n as int);
    vstd::set_lib::lemma_int_range(0, n as int);
    assert forall|x: int| ints.to_set().contains(x) implies below.contains(x) by {
        let i = choose|i: int| 0 <= i < ints.len() && ints[i] == x;
        assert(s[i] < n);
    }
    vstd::set_lib::lemma_len_subset(ints.to_set(), below);
}

/// Receive slots lie inside their region and apart from each other: a slot ends where
/// its region does at the latest, and two slots of one region are a message apart. A
/// slot behind those for messages is a place only where splitting has its own.
pub proof fn law_receive_slots_do_not_overlap(s: StreamState, a: usize, b: usize)
    requires
        s.inv(),
        a < b,
    ensures
        ({
            let m = s.msg_size as int;
            &&& s.recv_place(a) matches Some(RecvPlace::Base { offset }) ==> {
                &&& a < s.split_base && offset + m <= s.split_base * m
                &&& s.recv_place(b) matches Some(RecvPlace::Base { offset: other }) ==> offset + m
                    <= other
            }
            &&& s.recv_place(a) matches Some(RecvPlace::Split { offset }) ==> {
                &&& s.split_posted && a >= s.split_base && offset + m <= s.split_headroom * m
                &&& s.recv_place(b) matches Some(RecvPlace::Split { offset: other }) ==> offset + m
                    <= other
            }
            &&& a < s.split_base ==> s.recv_place(a) is Some
            &&& s.split_posted && a < s.split_base + s.split_headroom ==> s.recv_place(a) is Some
            &&& a >= s.split_base && !s.split_posted ==> s.recv_place(a) is None
            &&& a >= s.split_base + s.split_headroom ==> s.recv_place(a) is None
        }),
{
    let m = s.msg_size as int;
    let (x, y) = (a as int, b as int);
    let (base, room) = (s.split_base as int, s.split_headroom as int);
    lemma_slot_offsets(x, y, base, m);
    if x >= base {
        lemma_slot_offsets(x - base, y - base, room, m);
    }
}

/// Offsets of slots of `m` bytes each in a region of `n` slots.
pub(crate) proof fn lemma_slot_offsets(x: int, y: int, n: int, m: int)
    requires
        0 <= x < y,
        0 <= n,
        0 <= m,
    ensures
        0 <= x * m,
        x * m + m <= y * m,
        x < n ==> x * m + m <= n * m,
        y < n ==> y * m + m <= n * m,
{
    assert(0 <= x * m && x * m + m <= y * m) by (nonlinear_arith)
        requires
            0 <= x < y,
            0 <= m,
    ;
    assert(x < n ==> x * m + m <= n * m) by (nonlinear_arith)
        requires
            0 <= m,
    ;
    assert(y < n ==> y * m + m <= n * m) by (nonlinear_arith)
        requires
            0 <= m,
    ;
}

/// A receive completion delivers what it reports, but never more than a slot holds;
/// any other completion delivers nothing.
pub proof fn law_message_fits_its_slot(s: StreamState, wc: Completion)
    ensures
        s.message_bytes(wc) <= s.msg_size && s.message_bytes(wc) <= wc.byte_len,
        s.is_message(wc) ==> s.message_bytes(wc) == wc.byte_len || s.message_bytes(wc)
            == s.msg_size,
        !s.is_message(wc) ==> s.message_bytes(wc) == 0,
{
}

} // verus!
