//! Sending: data messages, staged bytes and credit returns.

use vstd::prelude::*;
use crate::envelope::{flags, Envelope, ENVELOPE_LEN};
use crate::stream::model::{SendView, StreamState, MAX_GRANT};
use crate::stream::{HordStream, StreamError};
use crate::wr_id::{ctrl_send_wr_id, send_wr_id};

verus! {

/// A send to post: `bytes` go into send slot `slot`, and the work request is
/// posted under `wr_id`.
#[derive(Debug, PartialEq, Eq)]
pub struct SendWr {
    /// Work-request identifier.
    pub wr_id: u64,
    /// Send slot.
    pub slot: usize,
    /// Envelope and payload.
    pub bytes: Vec<u8>,
}

impl View for SendWr {
    type V = SendView;

    open spec fn view(&self) -> SendView {
        SendView { wr_id: self.wr_id, slot: self.slot, bytes: self.bytes@ }
    }
}

/// The sends of a plan as mathematical values.
pub open spec fn views(wrs: Seq<SendWr>) -> Seq<SendView> {
    wrs.map_values(|w: SendWr| w@)
}

/// An envelope followed by two pieces of payload.
fn stamped(env: Envelope, first: &[u8], second: &[u8]) -> (r: Vec<u8>)
    requires
        first@.len() + second@.len() + ENVELOPE_LEN <= u32::MAX,
    ensures
        r@ == env.wire() + (first@ + second@),
{
    let mut hdr: [u8; ENVELOPE_LEN] = [0, 0, 0, 0, 0, 0, 0, 0];
    env.encode(&mut hdr);
    let mut bytes: Vec<u8> = Vec::with_capacity(ENVELOPE_LEN + first.len() + second.len());
    bytes.extend_from_slice(&hdr);
    bytes.extend_from_slice(first);
    bytes.extend_from_slice(second);
    assert(bytes@ =~= env.wire() + (first@ + second@));
    bytes
}

impl HordStream {
    fn grant_left(&self, i: usize) -> (r: u32)
        requires
            i <= u32::MAX,
        ensures
            r == self@.grant_after(i as int),
    {
        proof {
            assert(0 <= MAX_GRANT * i <= 65535 * 0xFFFF_FFFF) by (nonlinear_arith)
                requires
                    MAX_GRANT == 65535,
                    0 <= i <= 0xFFFF_FFFF,
            ;
        }
        let spent: u64 = MAX_GRANT as u64 * i as u64;
        if self.grant_pending as u64 <= spent {
            0
        } else {
            (self.grant_pending as u64 - spent) as u32
        }
    }

    fn stamp_at(&self, i: usize) -> (r: u16)
        requires
            i <= u32::MAX,
        ensures
            r == self@.stamp(i as int),
    {
        let left: u32 = self.grant_left(i);
        if left < MAX_GRANT {
            left as u16
        } else {
            MAX_GRANT as u16
        }
    }

    fn room(&self) -> (r: usize)
        ensures
            r == self@.window(),
    {
        if self.peer_closed {
            0
        } else if self.send_free.len() <= self.send_credits as usize {
            self.send_free.len()
        } else {
            self.send_credits as usize
        }
    }

    fn data_wr(&self, i: usize, first: &[u8], second: &[u8]) -> (r: SendWr)
        requires
            self.wf(),
            i < self@.send_free.len(),
            first@.len() + second@.len() <= self@.payload_cap,
            self@.ready(),
        ensures
            r@ == self@.data_message(i as int, first@ + second@),
    {
        let slot: usize = self.send_free[self.send_free.len() - 1 - i];
        let env = Envelope {
            length: (first.len() + second.len()) as u32,
            credits: self.stamp_at(i),
            flags: 0,
        };
        SendWr { wr_id: send_wr_id(slot), slot, bytes: stamped(env, first, second) }
    }

    /// The credit return that repays as much of `owed` as one message can.
    pub(crate) fn credit_wr(&self, owed: u32) -> (r: SendWr)
        requires
            self.wf(),
        ensures
            r@ == (StreamState { grant_pending: owed, ..self@ }).credit_message(),
    {
        let credits: u16 = if owed < MAX_GRANT {
            owed as u16
        } else {
            MAX_GRANT as u16
        };
        let env = Envelope { length: 0, credits, flags: flags::CREDIT_ONLY };
        let slot: usize = self.send_pool;
        let none: [u8; 0] = [];
        let bytes: Vec<u8> = stamped(env, &none, &none);
        assert(bytes@ =~= env.wire());
        SendWr { wr_id: ctrl_send_wr_id(slot), slot, bytes }
    }

    fn owes_at_least(&self, threshold: u32) -> (r: bool)
        ensures
            r == self@.returns_credits(threshold),
    {
        self.grant_pending >= threshold && self.grant_pending > 0 && !self.ctrl_send_busy
            && !self.peer_closed
    }

    /// Applies the outcome of the credit return that `threshold` calls for, if
    /// any, when the queue pair took `accepted` work requests from it on.
    pub(crate) fn send_credit_return(&mut self, threshold: u32, accepted: usize) -> (r: Result<
        (),
        StreamError,
    >)
        requires
            old(self).wf(),
        ensures
            final(self).wf(),
            final(self)@ == old(self)@.after_credits(threshold, accepted as int),
            r == (if old(self)@.credits_taken(threshold, accepted as int) {
                Ok::<(), StreamError>(())
            } else {
                Err(StreamError::Post)
            }),
    {
        if !self.owes_at_least(threshold) {
            return Ok(());
        }
        if accepted < 1 {
            self.peer_closed = true;
            return Err(StreamError::Post);
        }
        self.ctrl_send_busy = true;
        self.grant_pending = self.grant_left(1);
        Ok(())
    }

    fn consume_sends(&mut self, k: usize)
        requires
            old(self).wf(),
            k <= old(self)@.send_free.len(),
            k <= old(self)@.send_credits,
        ensures
            final(self).wf(),
            final(self)@ == old(self)@.after_sends(k as int),
    {
        self.grant_pending = self.grant_left(k);
        self.send_credits = self.send_credits - k as u32;
        let left: usize = self.send_free.len() - k;
        self.send_free.truncate(left);
        assert(self.send_free@ =~= old(self)@.send_free.take(left as int));
    }

    fn drop_stage(&mut self)
        requires
            old(self).wf(),
        ensures
            final(self).wf(),
            final(self)@ == (StreamState { tx_stage: seq![], ..old(self)@ }),
    {
        self.tx_stage.clear();
        assert(self@ =~= (StreamState { tx_stage: seq![], ..old(self)@ }));
    }

    fn add_to_stage(&mut self, bytes: &[u8])
        requires
            old(self).wf(),
            old(self)@.tx_stage.len() + bytes@.len() < old(self)@.payload_cap,
        ensures
            final(self).wf(),
            final(self)@ == (StreamState { tx_stage: old(self)@.tx_stage + bytes@, ..old(self)@ }),
    {
        self.tx_stage.extend_from_slice(bytes);
        assert(self@ =~= (StreamState { tx_stage: old(self)@.tx_stage + bytes@, ..old(self)@ }));
    }

    fn whole_messages(&self, len: usize) -> (r: usize)
        requires
            self.wf(),
            self@.ready(),
        ensures
            r == (self@.tx_stage.len() + len) / self@.payload_cap as int,
    {
        let cap: usize = self.payload_cap;
        let need: usize = cap - self.tx_stage.len();
        if len < need {
            proof {
                let t = self@.tx_stage.len() + len;
                assert(t / (cap as int) == 0) by (nonlinear_arith)
                    requires
                        0 <= t < cap,
                ;
            }
            0
        } else {
            proof {
                let d = len - need;
                assert((cap + d) / (cap as int) == 1 + d / (cap as int)) by (nonlinear_arith)
                    requires
                        cap > 0,
                        d >= 0,
                ;
                assert(d / (cap as int) <= d) by (nonlinear_arith)
                    requires
                        cap > 0,
                        d >= 0,
                ;
            }
            1 + (len - need) / cap
        }
    }

    /// The work requests that a write of `buf` posts, in order.
    pub fn plan_write(&self, buf: &[u8]) -> (r: Vec<SendWr>)
        requires
            self.wf(),
            self@.ready(),
        ensures
            views(r@) == self@.write_posts(buf@),
    {
        let mut wrs: Vec<SendWr> = Vec::new();
        if self.peer_closed {
            assert(views(wrs@) =~= self@.write_posts(buf@));
            return wrs;
        }
        let cap: usize = self.payload_cap;
        let whole: usize = self.whole_messages(buf.len());
        let room: usize = self.room();
        let k: usize = if whole <= room {
            whole
        } else {
            room
        };
        let ghost total = self@.with_stage(buf@);
        proof {
            lemma_whole_fits(total.len() as int, cap as int);
        }
        let none: [u8; 0] = [];
        let mut pos: usize = 0;
        let mut i: usize = 0;
        while i < k
            invariant
                i <= k,
                k <= whole,
                k == self@.sent(buf@),
                k <= self@.send_free.len(),
                self.wf(),
                self@.ready(),
                cap == self@.payload_cap,
                total == self@.with_stage(buf@),
                whole * cap <= total.len(),
                i == 0 ==> pos == 0,
                i > 0 ==> pos == i * cap - self@.tx_stage.len(),
                pos <= buf@.len(),
                views(wrs@) == self@.write_messages(buf@).take(i as int),
            decreases k - i,
        {
            let ghost before = wrs@;
            proof {
                lemma_step(i as int, whole as int, cap as int);
                assert(0 * cap == 0) by (nonlinear_arith);
            }
            let wr: SendWr;
            let end: usize;
            if i == 0 {
                assert((0 + 1) * cap == cap);
                end = cap - self.tx_stage.len();
                let head: &[u8] = vstd::slice::slice_subrange(buf, 0, end);
                wr = self.data_wr(i, self.tx_stage.as_slice(), head);
                assert(self@.tx_stage + head@ =~= self@.chunk(buf@, 0));
            } else {
                assert(pos + cap <= buf.len());
                end = pos + cap;
                let body: &[u8] = vstd::slice::slice_subrange(buf, pos, end);
                wr = self.data_wr(i, body, &none);
                assert(body@ + none@ =~= self@.chunk(buf@, i as int));
            }
            pos = end;
            wrs.push(wr);
            i = i + 1;
            assert(views(wrs@) =~= views(before).push(wr@));
            assert(views(wrs@) =~= self@.write_messages(buf@).take(i as int));
        }
        assert(self@.write_messages(buf@).take(k as int) =~= self@.write_messages(buf@));
        if k < whole {
            let left: u32 = self.grant_left(k);
            if left > 0 && !self.ctrl_send_busy {
                let ghost before = wrs@;
                let wr: SendWr = self.credit_wr(left);
                proof {
                    lemma_stamp_after(self@, k as int);
                }
                wrs.push(wr);
                assert(views(wrs@) =~= views(before).push(wr@));
                assert(views(wrs@) =~= self@.write_posts(buf@));
            } else {
                assert(views(wrs@) =~= self@.write_posts(buf@));
            }
        }
        wrs
    }

    /// Accepts as many bytes of `buf` as the window allows: whole messages are
    /// sent and the remainder, shorter than one payload, is staged. Returns how
    /// many bytes were accepted; zero of a buffer that is not empty means that no
    /// slot or credit was free, and the caller waits for a completion. `accepted`
    /// is how many of the work requests of [`plan_write`](Self::plan_write) the
    /// queue pair took.
    #[verifier::spinoff_prover]
    #[verifier::rlimit(60)]
    pub fn try_write(&mut self, buf: &[u8], accepted: usize) -> (r: Result<usize, StreamError>)
        requires
            old(self).wf(),
            old(self)@.ready(),
        ensures
            final(self).wf(),
            final(self)@ == old(self)@.after_write(buf@, accepted as int),
            r == old(self)@.write_result(buf@, accepted as int),
    {
        if self.peer_closed {
            return Err(StreamError::Closed);
        }
        let ghost s = self@;
        let ghost total = s.with_stage(buf@);
        let cap: usize = self.payload_cap;
        let staged: usize = self.tx_stage.len();
        let whole: usize = self.whole_messages(buf.len());
        let room: usize = self.room();
        let k: usize = if whole <= room {
            whole
        } else {
            room
        };
        proof {
            lemma_whole_fits(total.len() as int, cap as int);
            assert(0 * cap == 0) by (nonlinear_arith);
        }
        if accepted < k {
            self.consume_sends(accepted);
            self.drop_stage();
            self.mark_closed();
            return Err(StreamError::Post);
        }
        if whole == 0 {
            self.add_to_stage(buf);
            proof {
                assert(s.send_free.take(s.send_free.len() as int) =~= s.send_free);
                assert(total.skip(0) =~= total);
            }
            return Ok(buf.len());
        }
        if k == 0 {
            assert(s.send_free.take(s.send_free.len() as int) =~= s.send_free);
            return match self.send_credit_return(1, accepted) {
                Ok(()) => Ok(0),
                Err(e) => Err(e),
            };
        }
        proof {
            lemma_step(k - 1, whole as int, cap as int);
        }
        let taken: usize = (k - 1) * cap + (cap - staged);
        self.consume_sends(k);
        self.drop_stage();
        if k == whole {
            let rest: &[u8] = vstd::slice::slice_subrange(buf, taken, buf.len());
            self.add_to_stage(rest);
            assert(self@.tx_stage =~= total.skip(k * cap));
            return Ok(buf.len());
        }
        match self.send_credit_return(1, accepted - k) {
            Ok(()) => Ok(taken),
            Err(e) => Err(e),
        }
    }

    /// The work requests that a flush of the staged bytes posts.
    pub fn plan_flush(&self) -> (r: Vec<SendWr>)
        requires
            self.wf(),
            self@.ready(),
        ensures
            views(r@) == self@.flush_posts(),
    {
        let mut wrs: Vec<SendWr> = Vec::new();
        if self.tx_stage.len() > 0 {
            if self.can_send_data() {
                let none: [u8; 0] = [];
                let wr: SendWr = self.data_wr(0, self.tx_stage.as_slice(), &none);
                assert(self@.tx_stage + none@ =~= self@.tx_stage);
                wrs.push(wr);
            } else if self.owes_at_least(1) {
                wrs.push(self.credit_wr(self.grant_pending));
            }
        }
        assert(views(wrs@) =~= self@.flush_posts());
        wrs
    }

    /// Emits the staged bytes as one message. `Ok(true)` means that nothing is
    /// staged any more, `Ok(false)` that no slot or credit is free. `accepted` is
    /// how many of the work requests of [`plan_flush`](Self::plan_flush) the queue
    /// pair took.
    pub fn try_flush_stage(&mut self, accepted: usize) -> (r: Result<bool, StreamError>)
        requires
            old(self).wf(),
            old(self)@.ready(),
        ensures
            final(self).wf(),
            final(self)@ == old(self)@.after_flush(accepted as int),
            r == old(self)@.flush_result(accepted as int),
    {
        if self.tx_stage.len() == 0 {
            return Ok(true);
        }
        if !self.can_send_data() {
            return match self.send_credit_return(1, accepted) {
                Ok(()) => Ok(false),
                Err(e) => Err(e),
            };
        }
        if accepted < 1 {
            self.tx_stage.clear();
            self.peer_closed = true;
            assert(self@ =~= old(self)@.after_flush(accepted as int));
            return Err(StreamError::Post);
        }
        self.consume_sends(1);
        self.tx_stage.clear();
        assert(self@ =~= old(self)@.after_flush(accepted as int));
        Ok(true)
    }

    /// The credit return that [`return_owed_credits`](Self::return_owed_credits)
    /// posts, if any.
    pub fn plan_credit_return(&self, urgent: bool) -> (r: Vec<SendWr>)
        requires
            self.wf(),
        ensures
            views(r@) == self@.credit_posts(
                if urgent {
                    1
                } else {
                    self@.proactive()
                },
            ),
    {
        let threshold: u32 = if urgent {
            1
        } else {
            self.proactive_threshold()
        };
        let mut wrs: Vec<SendWr> = Vec::new();
        if self.owes_at_least(threshold) {
            wrs.push(self.credit_wr(self.grant_pending));
        }
        assert(views(wrs@) =~= self@.credit_posts(threshold));
        wrs
    }

    /// Returns owed credits to the peer: any at all when `urgent`, otherwise only
    /// once a quarter of the data pool is owed. `accepted` is how many of the work
    /// requests of [`plan_credit_return`](Self::plan_credit_return) the queue pair
    /// took.
    pub fn return_owed_credits(&mut self, urgent: bool, accepted: usize) -> (r: Result<
        (),
        StreamError,
    >)
        requires
            old(self).wf(),
        ensures
            final(self).wf(),
            ({
                let threshold = if urgent {
                    1
                } else {
                    old(self)@.proactive()
                };
                &&& final(self)@ == old(self)@.after_credits(threshold, accepted as int)
                &&& r == (if old(self)@.credits_taken(threshold, accepted as int) {
                    Ok::<(), StreamError>(())
                } else {
                    Err(StreamError::Post)
                })
            }),
    {
        let threshold: u32 = if urgent {
            1
        } else {
            self.proactive_threshold()
        };
        self.send_credit_return(threshold, accepted)
    }
}

proof fn lemma_whole_fits(total: int, cap: int)
    requires
        total >= 0,
        cap > 0,
    ensures
        (total / cap) * cap <= total,
        total / cap >= 0,
        total - (total / cap) * cap < cap,
{
    assert((total / cap) * cap <= total && total / cap >= 0 && total - (total / cap) * cap < cap)
        by (nonlinear_arith)
        requires
            total >= 0,
            cap > 0,
    ;
}

proof fn lemma_step(i: int, whole: int, cap: int)
    requires
        0 <= i < whole,
        cap > 0,
    ensures
        (i + 1) * cap == i * cap + cap,
        (i + 1) * cap <= whole * cap,
        0 <= i * cap,
{
    assert((i + 1) * cap == i * cap + cap && (i + 1) * cap <= whole * cap && 0 <= i * cap)
        by (nonlinear_arith)
        requires
            0 <= i < whole,
            cap > 0,
    ;
}

/// After `k` sends the next stamp is the one that the `k`-th message would carry.
proof fn lemma_stamp_after(s: StreamState, k: int)
    requires
        0 <= k,
    ensures
        s.after_sends(k).stamp(0) == s.stamp(k),
        s.after_sends(k).grant_pending == s.grant_after(k),
{
}

} // verus!
