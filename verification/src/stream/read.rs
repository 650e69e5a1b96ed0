//! Reading: held messages, re-posts and the credits they earn.

use vstd::prelude::*;
use crate::stream::model::{
    finished, held, held_len, lemma_drained, lemma_held_len_step, lemma_held_skip, nonempty,
    Ready, StreamState,
};
use crate::stream::send::{views, SendWr};
use crate::stream::{HordStream, ReadyMsg, StreamError};

verus! {

/// The work requests of a read: first the receives of the slots it frees, then a
/// credit return.
#[derive(Debug, PartialEq, Eq)]
pub struct ReadPlan {
    /// Receive slots to re-post, in order.
    pub reposts: Vec<usize>,
    /// The credit return, if any.
    pub credits: Vec<SendWr>,
}

/// Copies `src[from..]`, up to `n` bytes of it, to `out` at `at`.
fn copy_at(out: &mut [u8], at: usize, src: &Vec<u8>, from: usize, n: usize)
    requires
        at + n <= old(out)@.len(),
        from + n <= src@.len(),
    ensures
        final(out)@ == old(out)@.take(at as int) + src@.subrange(from as int, from + n) + old(
            out,
        )@.skip(at + n),
{
    let mut i: usize = 0;
    while i < n
        invariant
            i <= n,
            at + n <= out@.len(),
            from + n <= src@.len(),
            out@.len() == old(out)@.len(),
            out@ == old(out)@.take(at as int) + src@.subrange(from as int, from + i) + old(
                out,
            )@.skip(at + i),
        decreases n - i,
    {
        assert(at + i < out.len() && from + i < src.len());
        out[at + i] = src[from + i];
        i = i + 1;
        assert(out@ =~= old(out)@.take(at as int) + src@.subrange(from as int, from + i) + old(
            out,
        )@.skip(at + i));
    }
}

impl HordStream {
    /// The work requests that a read into `room` bytes posts, in order.
    pub fn plan_read(&self, room: usize) -> (r: ReadPlan)
        requires
            self.wf(),
            self@.grant_pending + self@.rx_ready.len() <= u32::MAX,
        ensures
            r.reposts@ == self@.read_reposts(room as int),
            views(r.credits@) == self@.read_credits(room as int),
    {
        let ghost rx = self@.rx_ready;
        let mut reposts: Vec<usize> = Vec::new();
        let mut left: usize = room;
        let mut p: usize = 0;
        let mut more = true;
        proof {
            lemma_held_skip(rx, 0);
            assert(rx.skip(0) =~= rx);
        }
        while more && p < self.rx_ready.len() && left > 0
            invariant
                self.wf(),
                rx == self@.rx_ready,
                p <= rx.len(),
                rx.len() == self.rx_ready@.len(),
                left <= room,
                more ==> left == room - held_len(rx, p as int),
                !more ==> p < rx.len() && left == 0 && room - held_len(rx, p as int) > 0 && room
                    - held_len(rx, p as int) < rx[p as int].bytes.len(),
                held_len(rx, p as int) <= room,
                reposts@ == Seq::new(p as nat, |i: int| rx[i].slot),
            decreases self.rx_ready@.len() - p, left,
        {
            let m: &ReadyMsg = &self.rx_ready[p];
            assert(self.rx_ready@[p as int].in_bounds());
            assert(rx[p as int] == m@);
            let avail: usize = m.data.len() - m.start;
            if avail <= left {
                reposts.push(m.slot);
                left = left - avail;
                proof {
                    lemma_held_len_step(rx, p as int);
                }
                p = p + 1;
                assert(reposts@ =~= Seq::new(p as nat, |i: int| rx[i].slot));
            } else {
                more = false;
                left = 0;
            }
        }
        proof {
            lemma_held_skip(rx, p as int);
            if p < rx.len() {
                assert(rx[p as int].bytes.len() > 0);
            }
            lemma_read_extent(self@, room as int, p as int);
        }
        let mut credits: Vec<SendWr> = Vec::new();
        if room > 0 && self.rx_ready.len() > 0 {
            let owed: u32 = self.grant_pending + p as u32;
            if owed >= self.proactive_threshold() && owed > 0 && !self.ctrl_send_busy
                && !self.peer_closed {
                credits.push(self.credit_wr(owed));
            }
        }
        assert(views(credits@) =~= self@.read_credits(room as int));
        ReadPlan { reposts, credits }
    }

    fn front_len(&self) -> (r: usize)
        requires
            self.wf(),
            self@.rx_ready.len() > 0,
        ensures
            r == self@.rx_ready[0].bytes.len(),
    {
        let m: &ReadyMsg = &self.rx_ready[0];
        assert(self.rx_ready@[0].in_bounds());
        assert(self@.rx_ready[0] == m@);
        m.data.len() - m.start
    }

    /// Copies the first held message, or its first `out.len() - at` bytes, to
    /// `out` at `at`, and takes those bytes from it.
    fn take_front(&mut self, out: &mut [u8], at: usize) -> (r: usize)
        requires
            old(self).wf(),
            old(self)@.rx_ready.len() > 0,
            at < old(out)@.len(),
        ensures
            final(self).wf(),
            ({
                let rx = old(self)@.rx_ready;
                let n = rx[0].bytes.len();
                let room = old(out)@.len() - at;
                if n <= room {
                    &&& r == n
                    &&& final(self)@ == (StreamState { rx_ready: rx.skip(1), ..old(self)@ })
                    &&& final(out)@ == old(out)@.take(at as int) + rx[0].bytes + old(out)@.skip(
                        at + n,
                    )
                } else {
                    &&& r == room
                    &&& final(self)@ == (StreamState {
                        rx_ready: seq![
                            Ready { slot: rx[0].slot, bytes: rx[0].bytes.skip(room) },
                        ] + rx.skip(1),
                        ..old(self)@
                    })
                    &&& final(out)@ == old(out)@.take(at as int) + rx[0].bytes.take(room)
                }
            }),
    {
        let ghost rx = self@.rx_ready;
        let ghost mid = self.rx_ready@;
        let room: usize = out.len() - at;
        assert(mid[0].in_bounds());
        let front: Option<ReadyMsg> = self.rx_ready.pop_front();
        let mut m: ReadyMsg = front.unwrap();
        assert(m == mid[0] && rx[0] == m@);
        proof {
            assert(rx[0].bytes.len() > 0);
            assert(forall|i: int| 0 <= i < self.rx_ready@.len() ==> self.rx_ready@[i] == mid[i + 1]);
            assert(self@.rx_ready =~= rx.skip(1));
            assert forall|i: int| 0 <= i < self.rx_ready@.len() implies (
            #[trigger] self.rx_ready@[i]).in_bounds() by {
                assert(mid[i + 1].in_bounds());
            }
            assert forall|i: int| 0 <= i < self@.rx_ready.len() implies (
            #[trigger] self@.rx_ready[i]).bytes.len() > 0 by {
                assert(rx[i + 1].bytes.len() > 0);
            }
        }
        let n: usize = m.data.len() - m.start;
        if n <= room {
            copy_at(out, at, &m.data, m.start, n);
            assert(m.data@.subrange(m.start as int, m.start + n) =~= rx[0].bytes);
            assert(self@ =~= (StreamState { rx_ready: rx.skip(1), ..old(self)@ }));
            n
        } else {
            copy_at(out, at, &m.data, m.start, room);
            assert(m.data@.subrange(m.start as int, m.start + room) =~= rx[0].bytes.take(
                room as int,
            ));
            let ghost tail = self.rx_ready@;
            m.start = m.start + room;
            let ghost front = m@;
            assert(front.bytes =~= rx[0].bytes.skip(room as int));
            self.rx_ready.push_front(m);
            proof {
                assert(self.rx_ready@ =~= seq![m] + tail);
                assert(self@.rx_ready =~= seq![front] + rx.skip(1));
                assert forall|i: int| 0 <= i < self.rx_ready@.len() implies (
                #[trigger] self.rx_ready@[i]).in_bounds() by {
                    if i > 0 {
                        assert(self.rx_ready@[i] == mid[i]);
                        assert(mid[i].in_bounds());
                    }
                }
                assert forall|i: int| 0 <= i < self@.rx_ready.len() implies (
                #[trigger] self@.rx_ready[i]).bytes.len() > 0 by {
                    if i > 0 {
                        assert(self@.rx_ready[i] == rx[i]);
                    }
                }
            }
            room
        }
    }

    /// Reads into `out`, as many bytes as it holds and have arrived. `Ok(None)`
    /// means that no byte has arrived yet, `Ok(Some(0))` the end of the stream. A
    /// message that is read to its end frees its receive slot and earns the peer a
    /// credit. `accepted` is how many of the work requests of
    /// [`plan_read`](Self::plan_read) the queue pair took.
    pub fn try_read(&mut self, out: &mut [u8], accepted: usize) -> (r: Result<
        Option<usize>,
        StreamError,
    >)
        requires
            old(self).wf(),
            old(self)@.grant_pending + old(self)@.rx_ready.len() <= u32::MAX,
        ensures
            final(self).wf(),
            final(self)@ == old(self)@.after_read(old(out)@.len() as int, accepted as int),
            r == old(self)@.read_result(old(out)@.len() as int, accepted as int),
            final(out)@ == overlay(
                old(out)@,
                old(self)@.bytes_read(old(out)@.len() as int, accepted as int),
            ),
    {
        let ghost s = self@;
        let ghost rx = s.rx_ready;
        let ghost room = out@.len() as int;
        proof {
            lemma_held_skip(rx, 0);
            assert(rx.skip(0) =~= rx);
            if rx.len() > 0 {
                assert(rx[0].bytes.len() > 0);
            }
        }
        if out.len() == 0 {
            proof {
                assert(held(rx).take(0) =~= seq![]);
                assert(out@ =~= overlay(old(out)@, s.bytes_read(room, accepted as int)));
            }
            return Ok(Some(0));
        }
        if self.rx_ready.len() == 0 {
            proof {
                assert(out@ =~= overlay(old(out)@, s.bytes_read(room, accepted as int)));
            }
            return Ok(
                if self.peer_closed {
                    Some(0)
                } else {
                    None
                },
            );
        }
        let mut written: usize = 0;
        let mut p: usize = 0;
        assert(out@ =~= overlay(old(out)@, held(rx).take(0)));
        while written < out.len() && self.rx_ready.len() > 0 && self.front_len() <= out.len()
            - written
            invariant
                self.wf(),
                s.inv(),
                rx == s.rx_ready,
                s.grant_pending + rx.len() <= u32::MAX,
                room == old(out)@.len(),
                room > 0,
                rx.len() > 0,
                out@.len() == room,
                s == old(self)@,
                p <= rx.len(),
                p <= accepted,
                written == held_len(rx, p as int),
                written <= room,
                self@ == (StreamState {
                    rx_ready: rx.skip(p as int),
                    grant_pending: (s.grant_pending + p) as u32,
                    ..s
                }),
                out@ == overlay(old(out)@, held(rx).take(written as int)),
            decreases rx.len() - p,
        {
            proof {
                lemma_held_skip(rx, p as int);
                lemma_held_skip(rx, p + 1);
                lemma_held_len_step(rx, p as int);
                assert(rx.skip(p as int)[0] == rx[p as int]);
                assert(rx.skip(p as int).skip(1) =~= rx.skip(p + 1));
            }
            let ghost before = out@;
            let n: usize = self.take_front(out, written);
            proof {
                lemma_overlay_step(
                    old(out)@,
                    held(rx),
                    written as int,
                    held_len(rx, p + 1),
                    rx[p as int].bytes,
                );
                assert(rx.skip(p as int).drop_first() =~= rx.skip(p + 1));
                assert(held(rx).skip(written as int) == rx[p as int].bytes + held(rx.skip(p + 1)));
                assert(held(rx).subrange(written as int, held_len(rx, p + 1)) =~= rx[p as int].bytes);
                assert(out@ =~= overlay(old(out)@, held(rx).take(held_len(rx, p + 1))));
            }
            written = written + n;
            if p >= accepted {
                self.peer_closed = true;
                proof {
                    lemma_unfinished(s, room, p as int);
                    assert(self@ =~= s.after_read(room, accepted as int));
                }
                return Err(StreamError::Post);
            }
            p = p + 1;
            self.grant_pending = self.grant_pending + 1;
        }
        let ghost q = held_len(rx, p as int);
        proof {
            lemma_held_skip(rx, p as int);
            if p < rx.len() {
                assert(rx.skip(p as int)[0] == rx[p as int]);
                assert(rx[p as int].bytes.len() > 0);
                assert(rx.skip(p as int).skip(1) =~= rx.skip(p + 1));
            }
            lemma_read_extent(s, room, p as int);
            lemma_drained(
                rx,
                p as int,
                if p < rx.len() {
                    room - q
                } else {
                    0
                },
            );
        }
        if written < out.len() && self.rx_ready.len() > 0 {
            let n: usize = self.take_front(out, written);
            proof {
                let r = room - q;
                lemma_overlay_step(old(out)@, held(rx), q, room, rx[p as int].bytes.take(r));
                assert(rx.skip(p as int).drop_first() =~= rx.skip(p + 1));
                assert(held(rx).skip(q) == rx[p as int].bytes + held(rx.skip(p + 1)));
                assert(held(rx).subrange(q, room) =~= rx[p as int].bytes.take(r));
                assert(out@ =~= overlay(old(out)@, held(rx).take(room)));
            }
            written = written + n;
        }
        assert(self@ =~= s.after_drain(room));
        let threshold: u32 = self.proactive_threshold();
        match self.send_credit_return(threshold, accepted - p) {
            Ok(()) => Ok(Some(written)),
            Err(e) => Err(e),
        }
    }
}

/// `out` with `bytes` copied over its front.
pub open spec fn overlay(out: Seq<u8>, bytes: Seq<u8>) -> Seq<u8> {
    bytes + out.skip(bytes.len() as int)
}

proof fn lemma_overlay_step(out: Seq<u8>, h: Seq<u8>, from: int, to: int, bytes: Seq<u8>)
    requires
        0 <= from <= to <= out.len(),
        to <= h.len(),
        bytes.len() == to - from,
    ensures
        h.subrange(from, to) == bytes ==> overlay(out, h.take(from)).take(from) + bytes + overlay(
            out,
            h.take(from),
        ).skip(to) == overlay(out, h.take(to)),
{
    if h.subrange(from, to) == bytes {
        assert(h.take(from) + bytes =~= h.take(to));
        assert(overlay(out, h.take(from)).take(from) + bytes + overlay(out, h.take(from)).skip(to)
            =~= overlay(out, h.take(to)));
    }
}

/// A read that gets as far as the end of message `p` finishes more than `p`.
proof fn lemma_unfinished(s: StreamState, room: int, p: int)
    requires
        s.inv(),
        0 <= p < s.rx_ready.len(),
        held_len(s.rx_ready, p + 1) <= room,
    ensures
        p < s.read_finishes(room),
        s.read_len(room) > 0,
{
    let rx = s.rx_ready;
    assert(nonempty(rx));
    lemma_held_skip(rx, p + 1);
    lemma_held_skip(rx, p);
    lemma_held_len_step(rx, p);
    assert(rx[p].bytes.len() > 0);
    lemma_finished_at_least(rx, s.read_len(room), p + 1);
}

proof fn lemma_finished_at_least(rx: Seq<Ready>, n: int, k: int)
    requires
        nonempty(rx),
        0 <= k <= rx.len(),
        held_len(rx, k) <= n,
    ensures
        finished(rx, n) >= k,
    decreases rx.len(),
{
    if rx.len() > 0 {
        let rest = rx.drop_first();
        assert forall|i: int| 0 <= i < rest.len() implies (#[trigger] rest[i]).bytes.len() > 0 by {
            assert(rest[i] == rx[i + 1]);
        }
        assert(rx[0].bytes.len() > 0);
        if k > 0 {
            lemma_held_skip(rest, k - 1);
            lemma_finished_at_least(rest, n - rx[0].bytes.len(), k - 1);
        } else if n > 0 && rx[0].bytes.len() <= n {
            lemma_finished_at_least(rest, n - rx[0].bytes.len(), 0);
        }
    }
}

/// How far a read gets when it finishes exactly `p` messages.
proof fn lemma_read_extent(s: StreamState, room: int, p: int)
    requires
        s.inv(),
        0 <= p <= s.rx_ready.len(),
        0 <= held_len(s.rx_ready, p) <= room,
        p < s.rx_ready.len() ==> room - held_len(s.rx_ready, p) < s.rx_ready[p].bytes.len(),
    ensures
        s.read_finishes(room) == p,
        s.read_len(room) <= 0 <==> room <= 0 || s.rx_ready.len() == 0,
        p < s.rx_ready.len() ==> s.read_len(room) == room,
        p == s.rx_ready.len() ==> s.read_len(room) == held_len(s.rx_ready, p),
{
    let rx = s.rx_ready;
    assert(nonempty(rx));
    lemma_held_skip(rx, p);
    let rest = rx.skip(p);
    if p < rx.len() {
        let r = room - held_len(rx, p);
        lemma_drained(rx, p, r);
        assert(rest[0] == rx[p]);
        assert(held(rest).len() >= rx[p].bytes.len());
        assert(held(rx).len() == held_len(rx, p) + held(rx).skip(held_len(rx, p)).len());
    } else {
        lemma_drained(rx, p, 0);
        assert(rest =~= seq![]);
        assert(held(rx).len() == held_len(rx, p) + held(rx).skip(held_len(rx, p)).len());
        if rx.len() > 0 {
            lemma_held_len_step(rx, 0);
            assert(rx[0].bytes.len() > 0);
            lemma_held_skip(rx, 1);
        }
    }
    if rx.len() > 0 {
        assert(rx[0].bytes.len() > 0);
    }
}

/// A read writes the bytes it delivers to the front of the caller's buffer and leaves
/// the rest of it alone.
pub proof fn law_read_fills_the_front(out: Seq<u8>, bytes: Seq<u8>, i: int)
    requires
        bytes.len() <= out.len(),
        0 <= i < out.len(),
    ensures
        overlay(out, bytes).len() == out.len(),
        i < bytes.len() ==> overlay(out, bytes)[i] == bytes[i],
        i >= bytes.len() ==> overlay(out, bytes)[i] == out[i],
{
}

} // verus!
