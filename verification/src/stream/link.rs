//! A connection as a whole: two streams, the messages between them, and what
//! holds of every history of it.
//!
//! Messages arrive whole and in the order in which they were posted, as far as they
//! arrive at all. Each operation finds as many of its work requests accepted as it may
//! be: all of them, or only the first few, and then its end is closed.

use vstd::prelude::*;
use crate::config::HordConfig;
use crate::envelope::ENVELOPE_LEN;
use crate::stream::completion::lemma_reclaimed;
use crate::stream::laws::{
    credits_of, granted, law_arrival_keeps_credits, law_credit_return_keeps_credits,
    law_credits_at_start, law_flush_keeps_credits, law_flush_keeps_order, law_read_keeps_credits,
    law_read_keeps_order, law_receive_keeps_order, law_refused_flush_keeps_order,
    law_refused_write_keeps_order, law_write_keeps_credits, law_write_keeps_order, lemma_append,
    lemma_counts_nonnegative, lemma_credit_message, lemma_credit_posts, lemma_drained_len,
    lemma_message_len, lemma_split_first, payload, payloads, spent,
};
use crate::stream::model::{drained, held, nonempty, Ready, SendView, StreamState};
use crate::wr_id::{controls, slot_in};

verus! {

/// Something that happens at one end of a connection.
pub enum LinkOp {
    /// The application writes.
    Write {
        /// What it offers.
        buf: Seq<u8>,
        /// Work requests that are accepted.
        accepted: nat,
    },
    /// The staged bytes are flushed.
    Flush {
        /// Work requests that are accepted.
        accepted: nat,
    },
    /// Owed credits are returned if at least `threshold` are owed.
    ReturnCredits {
        /// That number.
        threshold: u32,
        /// Work requests that are accepted.
        accepted: nat,
    },
    /// The application reads.
    Read {
        /// Bytes it has room for.
        room: nat,
        /// Work requests that are accepted.
        accepted: nat,
    },
    /// The oldest message on its way here arrives.
    Arrival {
        /// The receive slot it lands in.
        slot: usize,
        /// The receive is accepted again, if it is re-posted at once.
        reposted: bool,
    },
    /// A send is acknowledged.
    Acknowledged {
        /// Its identifier.
        wr_id: u64,
    },
    /// A split transfer arrives.
    Transfer {
        /// Its identifier.
        id: u32,
    },
    /// One-sided writes are posted.
    PostWrites {
        /// How many.
        n: nat,
        /// The last carries an immediate.
        has_imm: bool,
        /// Work requests that are accepted.
        accepted: nat,
    },
    /// A one-sided write is acknowledged.
    WriteDone {
        /// It carried an immediate.
        imm: bool,
    },
    /// The end is closed.
    Close,
}

/// A connection between the ends `a` and `b`.
#[verifier::ext_equal]
pub struct Link {
    /// One end.
    pub a: StreamState,
    /// The other end.
    pub b: StreamState,
    /// Messages on their way from `a` to `b`, the oldest first.
    pub ab: Seq<SendView>,
    /// Messages on their way from `b` to `a`, the oldest first.
    pub ba: Seq<SendView>,
    /// All bytes that `a` accepted from its application.
    pub written_a: Seq<u8>,
    /// All bytes that `b` accepted from its application.
    pub written_b: Seq<u8>,
    /// Bytes behind them that `a` posted in a write that then failed, and so did not
    /// report as accepted.
    pub unreported_a: Seq<u8>,
    /// The same of `b`.
    pub unreported_b: Seq<u8>,
    /// Accepted bytes that `a` dropped when the message that was to carry them was
    /// refused.
    pub dropped_a: Seq<u8>,
    /// The same of `b`.
    pub dropped_b: Seq<u8>,
    /// All bytes that `a` delivered to its application.
    pub read_a: Seq<u8>,
    /// All bytes that `b` delivered to its application.
    pub read_b: Seq<u8>,
    /// Data credits from `a` to `b`.
    pub total_ab: int,
    /// Data credits from `b` to `a`.
    pub total_ba: int,
}

impl Link {
    /// The connection with its ends exchanged.
    pub open spec fn mirrored(self) -> Link {
        Link {
            a: self.b,
            b: self.a,
            ab: self.ba,
            ba: self.ab,
            written_a: self.written_b,
            written_b: self.written_a,
            unreported_a: self.unreported_b,
            unreported_b: self.unreported_a,
            dropped_a: self.dropped_b,
            dropped_b: self.dropped_a,
            read_a: self.read_b,
            read_b: self.read_a,
            total_ab: self.total_ba,
            total_ba: self.total_ab,
        }
    }

    /// What holds of the direction from `a` to `b`: the bytes that `b` delivered,
    /// holds, has coming and that `a` has staged or dropped are, in this order, the
    /// bytes that `a` accepted or posted in a write that failed; none were dropped and
    /// no write failed half-way as long as `a` is open; no credit is made, and none is
    /// lost as long as `b` is open.
    pub open spec fn direction_holds(self) -> bool {
        &&& self.read_b + held(self.b.rx_ready) + payloads(self.ab) + self.a.tx_stage
            + self.dropped_a == self.written_a + self.unreported_a
        &&& !self.a.peer_closed ==> self.dropped_a.len() == 0 && self.unreported_a.len() == 0
        &&& credits_of(self.a, self.b, self.ab, self.ba) <= self.total_ab
        &&& !self.b.peer_closed ==> credits_of(self.a, self.b, self.ab, self.ba) == self.total_ab
        &&& 0 <= self.total_ab <= self.b.recv_pool
        &&& self.total_ab <= u16::MAX
        &&& forall|i: int|
            0 <= i < self.ab.len() ==> (#[trigger] self.ab[i]).bytes.len() >= ENVELOPE_LEN
    }

    /// The invariant of a connection.
    pub open spec fn inv(self) -> bool {
        &&& self.a.inv() && self.a.ready()
        &&& self.b.inv() && self.b.ready()
        &&& self.direction_holds()
        &&& self.mirrored().direction_holds()
    }

    /// How many work requests `op` at `a` posts, and how many of them are accepted.
    pub open spec fn posts_at_a(self, op: LinkOp) -> (nat, nat) {
        match op {
            LinkOp::Write { buf, accepted } => (self.a.write_posts(buf).len(), accepted),
            LinkOp::Flush { accepted } => (self.a.flush_posts().len(), accepted),
            LinkOp::ReturnCredits { threshold, accepted } => (
                self.a.credit_posts(threshold).len(),
                accepted,
            ),
            LinkOp::Read { room, accepted } => (
                (self.a.read_finishes(room as int) + self.a.read_credits(room as int).len()) as nat,
                accepted,
            ),
            LinkOp::Arrival { reposted, .. } => if payload(self.ba[0]).len() > 0 {
                (0, 0)
            } else if reposted {
                (1, 1)
            } else {
                (1, 0)
            },
            LinkOp::PostWrites { n, accepted, .. } => (n, accepted),
            _ => (0, 0),
        }
    }

    /// Whether `op` can happen at `a`.
    pub open spec fn enabled_at_a(self, op: LinkOp) -> bool {
        let (posts, accepted) = self.posts_at_a(op);
        accepted <= posts && match op {
            LinkOp::Write { buf, .. } => buf.len() <= usize::MAX,
            LinkOp::Arrival { .. } => self.ba.len() > 0,
            LinkOp::Acknowledged { wr_id } => controls(wr_id) || (slot_in(wr_id) < self.a.send_pool
                && !self.a.send_free.contains(slot_in(wr_id))),
            LinkOp::PostWrites { n, has_imm, .. } => (has_imm ==> n > 0) && self.a.capacity(
                n as int,
                has_imm,
            ) is Ok,
            LinkOp::WriteDone { imm } => if imm {
                self.a.imm_outstanding > 0
            } else {
                self.a.writes_outstanding > self.a.imm_outstanding
            },
            _ => true,
        }
    }

    /// The connection after `op` happened at `a`.
    pub open spec fn stepped_at_a(self, op: LinkOp) -> Link {
        match op {
            LinkOp::Write { buf, accepted } => {
                let n = accepted as int;
                Link {
                    a: self.a.after_write(buf, n),
                    ab: self.ab + self.a.write_posts(buf).take(n),
                    written_a: match self.a.write_result(buf, n) {
                        Ok(taken) => self.written_a + buf.take(taken as int),
                        Err(_) => self.written_a,
                    },
                    unreported_a: self.unreported_a + self.a.write_unreported(buf, n),
                    dropped_a: self.dropped_a + self.a.write_dropped(buf, n),
                    ..self
                }
            },
            LinkOp::Flush { accepted } => {
                let n = accepted as int;
                Link {
                    a: self.a.after_flush(n),
                    ab: self.ab + self.a.flush_posts().take(n),
                    dropped_a: self.dropped_a + self.a.flush_dropped(n),
                    ..self
                }
            },
            LinkOp::ReturnCredits { threshold, accepted } => {
                let n = accepted as int;
                Link {
                    a: self.a.after_credits(threshold, n),
                    ab: self.ab + self.a.credit_posts(threshold).take(n),
                    ..self
                }
            },
            LinkOp::Read { room, accepted } => {
                let n = accepted as int;
                Link {
                    a: self.a.after_read(room as int, n),
                    ab: self.ab + self.a.read_sent(room as int, n),
                    read_a: self.read_a + self.a.bytes_read(room as int, n),
                    ..self
                }
            },
            LinkOp::Arrival { slot, reposted } => Link {
                a: self.a.after_message(
                    slot,
                    self.ba[0].bytes,
                    self.ba[0].bytes.len() as int,
                    reposted,
                ),
                ba: self.ba.drop_first(),
                ..self
            },
            LinkOp::Acknowledged { wr_id } => Link { a: self.a.reclaimed(wr_id), ..self },
            LinkOp::Transfer { id } => Link {
                a: StreamState {
                    completed_transfers: self.a.completed_transfers.push(id),
                    ..self.a
                },
                ..self
            },
            LinkOp::PostWrites { n, has_imm, accepted } => Link {
                a: self.a.after_writes(n as int, has_imm, accepted as int),
                ..self
            },
            LinkOp::WriteDone { imm } => Link {
                a: StreamState {
                    writes_outstanding: (self.a.writes_outstanding - 1) as u32,
                    imm_outstanding: if imm {
                        (self.a.imm_outstanding - 1) as u32
                    } else {
                        self.a.imm_outstanding
                    },
                    ..self.a
                },
                ..self
            },
            LinkOp::Close => Link { a: self.a.closed(), ..self },
        }
    }

    /// Whether a work request of `op` at `a`, or at `b`, is refused.
    pub open spec fn refuses(self, at_a: bool, op: LinkOp) -> bool {
        let (posts, accepted) = if at_a {
            self.posts_at_a(op)
        } else {
            self.mirrored().posts_at_a(op)
        };
        accepted < posts
    }

    /// Whether `op` can happen at `a`, or at `b`.
    pub open spec fn enabled(self, at_a: bool, op: LinkOp) -> bool {
        if at_a {
            self.enabled_at_a(op)
        } else {
            self.mirrored().enabled_at_a(op)
        }
    }

    /// The connection after `op` happened at `a`, or at `b`.
    pub open spec fn stepped(self, at_a: bool, op: LinkOp) -> Link {
        if at_a {
            self.stepped_at_a(op)
        } else {
            self.mirrored().stepped_at_a(op).mirrored()
        }
    }

    /// Whether the operations can happen one after the other.
    pub open spec fn allows(self, ops: Seq<(bool, LinkOp)>) -> bool
        decreases ops.len(),
    {
        ops.len() > 0 ==> self.allows(ops.drop_last()) && self.run(ops.drop_last()).enabled(
            ops.last().0,
            ops.last().1,
        )
    }

    /// The connection after the operations.
    pub open spec fn run(self, ops: Seq<(bool, LinkOp)>) -> Link
        decreases ops.len(),
    {
        if ops.len() == 0 {
            self
        } else {
            self.run(ops.drop_last()).stepped(ops.last().0, ops.last().1)
        }
    }

    /// The connection of two configurations, once both handshakes are through.
    pub open spec fn established(ca: HordConfig, cb: HordConfig) -> Link {
        let a = StreamState::fresh(ca);
        let b = StreamState::fresh(cb);
        Link {
            a: a.after_peer(cb.advertised(), a.split_recvs(cb.advertised()).len() as int),
            b: b.after_peer(ca.advertised(), b.split_recvs(ca.advertised()).len() as int),
            ab: seq![],
            ba: seq![],
            written_a: seq![],
            written_b: seq![],
            unreported_a: seq![],
            unreported_b: seq![],
            dropped_a: seq![],
            dropped_b: seq![],
            read_a: seq![],
            read_b: seq![],
            total_ab: cb.advertised().max_recv_buffers as int,
            total_ba: ca.advertised().max_recv_buffers as int,
        }
    }
}

proof fn lemma_taken_distinct(s: StreamState, k: int)
    requires
        s.slots_distinct(),
        0 <= k <= s.send_free.len(),
    ensures
        s.after_sends(k).slots_distinct(),
{
    let t = s.send_free.take(s.send_free.len() - k);
    assert forall|i: int, j: int| 0 <= i < t.len() && 0 <= j < t.len() && i != j implies t[i]
        != t[j] by {
        assert(t[i] == s.send_free[i] && t[j] == s.send_free[j]);
    }
}

proof fn lemma_write_keeps_inv(s: StreamState, buf: Seq<u8>, accepted: int)
    requires
        s.inv(),
        s.ready(),
        0 <= accepted <= s.write_posts(buf).len(),
    ensures
        s.after_write(buf, accepted).inv(),
        s.after_write(buf, accepted).ready(),
        s.write_result(buf, accepted) is Err <==> s.peer_closed || accepted < s.write_posts(
            buf,
        ).len(),
        s.peer_closed ==> s.after_write(buf, accepted).peer_closed,
{
    if !s.peer_closed {
        let k = s.sent(buf);
        let cap = s.payload_cap as int;
        let len = (s.tx_stage.len() + buf.len()) as int;
        let w = s.whole(buf);
        assert(w >= 0 && w * cap <= len && len - w * cap < cap) by (nonlinear_arith)
            requires
                w == len / cap,
                cap > 0,
                len >= 0,
        ;
        assert(0 * cap == 0) by (nonlinear_arith);
        lemma_taken_distinct(s, k);
        assert(s.write_messages(buf).len() == k);
        if accepted < k {
            lemma_taken_distinct(s, accepted);
        }
        if k == w {
            assert(s.with_stage(buf).skip(k * cap).len() == len - k * cap);
        }
    }
}

proof fn lemma_flush_keeps_inv(s: StreamState, accepted: int)
    requires
        s.inv(),
        s.ready(),
        0 <= accepted <= s.flush_posts().len(),
    ensures
        s.after_flush(accepted).inv(),
        s.after_flush(accepted).ready(),
        s.flush_result(accepted) is Ok <==> accepted == s.flush_posts().len(),
{
    if s.tx_stage.len() > 0 && s.window() > 0 {
        lemma_taken_distinct(s, 1);
    }
}

proof fn lemma_drained_nonempty(rx: Seq<Ready>, n: int)
    requires
        nonempty(rx),
    ensures
        nonempty(drained(rx, n)),
    decreases rx.len(),
{
    if rx.len() > 0 && n > 0 {
        let rest = rx.drop_first();
        assert forall|i: int| 0 <= i < rest.len() implies (#[trigger] rest[i]).bytes.len() > 0 by {
            assert(rest[i] == rx[i + 1]);
        }
        if rx[0].bytes.len() <= n {
            lemma_drained_nonempty(rest, n - rx[0].bytes.len());
        } else {
            let d = drained(rx, n);
            assert(d[0].bytes.len() == rx[0].bytes.len() - n);
            assert forall|i: int| 0 <= i < d.len() implies (#[trigger] d[i]).bytes.len() > 0 by {
                if i > 0 {
                    assert(d[i] == rest[i - 1]);
                }
            }
        }
    }
}

proof fn lemma_read_keeps_inv(s: StreamState, room: int, accepted: int)
    requires
        s.inv(),
        s.ready(),
        room >= 0,
        0 <= accepted <= s.read_finishes(room) + s.read_credits(room).len(),
    ensures
        s.after_read(room, accepted).inv(),
        s.after_read(room, accepted).ready(),
        accepted < s.read_finishes(room) + s.read_credits(room).len() ==> s.after_read(
            room,
            accepted,
        ).peer_closed,
{
    lemma_drained_len(s.rx_ready, s.read_len(room));
    lemma_drained_nonempty(s.rx_ready, s.read_len(room));
    if accepted < s.read_finishes(room) {
        let rest = s.rx_ready.skip(accepted + 1);
        assert forall|i: int| 0 <= i < rest.len() implies (#[trigger] rest[i]).bytes.len() > 0 by {
            assert(rest[i] == s.rx_ready[i + accepted + 1]);
        }
    }
}

proof fn lemma_message_keeps_inv(s: StreamState, slot: usize, msg: Seq<u8>, reposted: bool)
    requires
        s.inv(),
        s.ready(),
    ensures
        s.after_message(slot, msg, msg.len() as int, reposted).inv(),
        s.after_message(slot, msg, msg.len() as int, reposted).ready(),
{
}

/// The messages that an operation adds are whole.
proof fn lemma_posts_whole(s: StreamState, buf: Seq<u8>, room: int, threshold: u32)
    requires
        s.inv(),
        s.ready(),
    ensures
        forall|i: int|
            0 <= i < s.write_posts(buf).len() ==> (#[trigger] s.write_posts(buf)[i]).bytes.len()
                >= ENVELOPE_LEN,
        forall|i: int|
            0 <= i < s.flush_posts().len() ==> (#[trigger] s.flush_posts()[i]).bytes.len()
                >= ENVELOPE_LEN,
        forall|i: int|
            0 <= i < s.credit_posts(threshold).len() ==> (#[trigger] s.credit_posts(
                threshold,
            )[i]).bytes.len() >= ENVELOPE_LEN,
        forall|i: int|
            0 <= i < s.read_credits(room).len() ==> (#[trigger] s.read_credits(room)[i]).bytes.len()
                >= ENVELOPE_LEN,
{
    let msgs = s.write_messages(buf);
    let mid = s.after_sends(s.sent(buf));
    assert forall|i: int| 0 <= i < s.write_posts(buf).len() implies (#[trigger] s.write_posts(
        buf,
    )[i]).bytes.len() >= ENVELOPE_LEN by {
        if i < msgs.len() {
            assert(s.write_posts(buf)[i] == msgs[i]);
            lemma_message_len(s, i, s.chunk(buf, i));
        } else {
            lemma_credit_message(mid);
        }
    }
    lemma_message_len(s, 0, s.tx_stage);
    lemma_credit_message(s);
    lemma_credit_message(s.after_drain(room));
}

proof fn lemma_write_step(l: Link, buf: Seq<u8>, accepted: nat)
    requires
        l.inv(),
        buf.len() <= usize::MAX,
        accepted <= l.a.write_posts(buf).len(),
    ensures
        l.stepped_at_a(LinkOp::Write { buf, accepted }).inv(),
{
    let (a, b, ab, ba) = (l.a, l.b, l.ab, l.ba);
    let t = l.stepped_at_a(LinkOp::Write { buf, accepted });
    let n = accepted as int;
    let posts = a.write_posts(buf).take(n);
    lemma_write_keeps_inv(a, buf, n);
    lemma_posts_whole(a, buf, 0, 1);
    law_write_keeps_credits(a, b, ab, ba, buf, n);
    lemma_append(ab, posts);
    let sent = l.read_b + held(b.rx_ready) + payloads(ab);
    assert(l.read_b + held(b.rx_ready) + payloads(t.ab) =~= sent + payloads(posts));
    let none = Seq::<u8>::empty();
    if a.peer_closed {
        assert(t.ab =~= ab);
        assert(t.dropped_a =~= l.dropped_a && t.unreported_a =~= l.unreported_a);
    } else {
        assert(l.dropped_a =~= none && l.unreported_a =~= none);
        assert(t.dropped_a =~= a.write_dropped(buf, n));
        assert(t.unreported_a =~= a.write_unreported(buf, n));
        if n < a.write_posts(buf).len() {
            law_refused_write_keeps_order(a, buf, n);
            lemma_order_extends(
                sent,
                payloads(posts),
                t.a.tx_stage,
                t.dropped_a,
                a.tx_stage,
                t.unreported_a,
            );
        } else {
            assert(posts =~= a.write_posts(buf));
            law_write_keeps_order(a, buf, n);
            let taken = a.write_result(buf, n)->Ok_0 as int;
            assert(payloads(posts) + t.a.tx_stage + none =~= payloads(posts) + t.a.tx_stage);
            lemma_order_extends(
                sent,
                payloads(posts),
                t.a.tx_stage,
                none,
                a.tx_stage,
                buf.take(taken),
            );
            assert(t.written_a + none =~= t.written_a);
        }
        assert(sent + a.tx_stage + none =~= sent + a.tx_stage);
        assert(l.written_a + none =~= l.written_a);
    }
    lemma_whole_append(ab, a.write_posts(buf), n);
}

proof fn lemma_flush_step(l: Link, accepted: nat)
    requires
        l.inv(),
        accepted <= l.a.flush_posts().len(),
    ensures
        l.stepped_at_a(LinkOp::Flush { accepted }).inv(),
{
    let (a, b, ab, ba) = (l.a, l.b, l.ab, l.ba);
    let t = l.stepped_at_a(LinkOp::Flush { accepted });
    let n = accepted as int;
    let posts = a.flush_posts().take(n);
    lemma_flush_keeps_inv(a, n);
    lemma_posts_whole(a, seq![], 0, 1);
    law_flush_keeps_credits(a, b, ab, ba, n);
    lemma_append(ab, posts);
    let sent = l.read_b + held(b.rx_ready) + payloads(ab);
    let none = Seq::<u8>::empty();
    assert(l.read_b + held(b.rx_ready) + payloads(t.ab) =~= sent + payloads(posts));
    if n < a.flush_posts().len() {
        law_refused_flush_keeps_order(a, n);
        assert(posts =~= seq![]);
        assert(payloads(posts) + t.a.tx_stage + a.flush_dropped(n) =~= a.tx_stage + none);
    } else {
        law_flush_keeps_order(a, n);
        assert(posts =~= a.flush_posts());
        assert(a.flush_dropped(n) =~= none);
        assert(payloads(posts) + t.a.tx_stage + none =~= payloads(posts) + t.a.tx_stage);
        assert(a.tx_stage + none =~= a.tx_stage);
    }
    lemma_order_extends(sent, payloads(posts), t.a.tx_stage, a.flush_dropped(n), a.tx_stage, none);
    assert(sent + a.tx_stage + none =~= sent + a.tx_stage);
    if a.peer_closed {
        assert(a.flush_dropped(n) =~= none);
        assert(t.dropped_a =~= l.dropped_a);
        assert(sent + payloads(posts) + t.a.tx_stage + none =~= sent + payloads(posts)
            + t.a.tx_stage);
    } else {
        assert(t.dropped_a =~= a.flush_dropped(n));
        assert(sent + a.tx_stage + l.dropped_a =~= sent + a.tx_stage);
    }
    lemma_whole_append(ab, a.flush_posts(), n);
}

proof fn lemma_credit_step(l: Link, threshold: u32, accepted: nat)
    requires
        l.inv(),
        accepted <= l.a.credit_posts(threshold).len(),
    ensures
        l.stepped_at_a(LinkOp::ReturnCredits { threshold, accepted }).inv(),
{
    let (a, b, ab, ba) = (l.a, l.b, l.ab, l.ba);
    let t = l.stepped_at_a(LinkOp::ReturnCredits { threshold, accepted });
    let n = accepted as int;
    let posts = a.credit_posts(threshold).take(n);
    lemma_posts_whole(a, seq![], 0, threshold);
    law_credit_return_keeps_credits(a, b, ab, ba, threshold, n);
    lemma_append(ab, posts);
    lemma_credit_posts(a, threshold);
    if n == 0 {
        assert(posts =~= seq![]);
    } else {
        assert(posts =~= a.credit_posts(threshold));
    }
    assert(payloads(t.ab) =~= payloads(ab));
    lemma_whole_append(ab, a.credit_posts(threshold), n);
}

proof fn lemma_read_step(l: Link, room: nat, accepted: nat)
    requires
        l.inv(),
        accepted <= l.a.read_finishes(room as int) + l.a.read_credits(room as int).len(),
    ensures
        l.stepped_at_a(LinkOp::Read { room, accepted }).inv(),
{
    let (a, b, ab, ba) = (l.a, l.b, l.ab, l.ba);
    let t = l.stepped_at_a(LinkOp::Read { room, accepted });
    let r = room as int;
    let n = accepted as int;
    let posts = a.read_sent(r, n);
    lemma_bounds(l.mirrored());
    lemma_read_keeps_inv(a, r, n);
    lemma_posts_whole(a, seq![], r, 1);
    law_read_keeps_credits(a, b, ab, ba, r, n);
    law_read_keeps_order(a, r, n);
    lemma_append(ab, posts);
    if a.read_len(r) > 0 {
        lemma_credit_posts(a.after_drain(r), a.proactive());
    }
    assert(payloads(t.ab) =~= payloads(ab));
    assert(l.read_a + a.bytes_read(r, n) + held(t.a.rx_ready) =~= l.read_a + (a.bytes_read(r, n)
        + held(t.a.rx_ready)));
    assert(posts.take(posts.len() as int) =~= posts);
    lemma_whole_append(ab, posts, posts.len() as int);
}

proof fn lemma_arrival_step(l: Link, slot: usize, reposted: bool)
    requires
        l.inv(),
        l.ba.len() > 0,
    ensures
        l.stepped_at_a(LinkOp::Arrival { slot, reposted }).inv(),
{
    let (a, b, ab, ba) = (l.a, l.b, l.ab, l.ba);
    let t = l.stepped_at_a(LinkOp::Arrival { slot, reposted });
    let msg = ba[0].bytes;
    lemma_bounds(l);
    lemma_bounds(l.mirrored());
    lemma_message_keeps_inv(a, slot, msg, reposted);
    lemma_split_first(ba);
    lemma_counts_nonnegative(ba.drop_first());
    law_arrival_keeps_credits(b, a, ba, ab, slot, reposted);
    law_receive_keeps_order(a, slot, msg, msg.len() as int, reposted);
    assert(l.read_a + held(t.a.rx_ready) + payloads(t.ba) =~= l.read_a + held(a.rx_ready)
        + payloads(ba));
    assert forall|i: int| 0 <= i < t.ba.len() implies (#[trigger] t.ba[i]).bytes.len()
        >= ENVELOPE_LEN by {
        assert(t.ba[i] == ba[i + 1]);
    }
}

proof fn lemma_local_step(l: Link, op: LinkOp)
    requires
        l.inv(),
        l.enabled_at_a(op),
        op is Acknowledged || op is Transfer || op is PostWrites || op is WriteDone || op is Close,
    ensures
        l.stepped_at_a(op).inv(),
{
    if let LinkOp::Acknowledged { wr_id } = op {
        lemma_reclaimed(l.a, wr_id);
    }
    let t = l.stepped_at_a(op);
    assert(t.a.rx_ready == l.a.rx_ready && t.a.tx_stage == l.a.tx_stage);
    assert(t.a.send_credits == l.a.send_credits && t.a.grant_pending == l.a.grant_pending);
}

/// Whole messages stay whole when the first `n` of others, whole too, follow them.
proof fn lemma_whole_append(ab: Seq<SendView>, posts: Seq<SendView>, n: int)
    requires
        forall|i: int| 0 <= i < ab.len() ==> (#[trigger] ab[i]).bytes.len() >= ENVELOPE_LEN,
        forall|i: int| 0 <= i < posts.len() ==> (#[trigger] posts[i]).bytes.len() >= ENVELOPE_LEN,
        0 <= n <= posts.len(),
    ensures
        forall|i: int|
            0 <= i < (ab + posts.take(n)).len() ==> (#[trigger] (ab + posts.take(
                n,
            ))[i]).bytes.len() >= ENVELOPE_LEN,
{
    let all = ab + posts.take(n);
    assert forall|i: int| 0 <= i < all.len() implies (#[trigger] all[i]).bytes.len()
        >= ENVELOPE_LEN by {
        if i < ab.len() {
            assert(all[i] == ab[i]);
        } else {
            assert(all[i] == posts[i - ab.len()]);
        }
    }
}

/// An operation at `a` keeps the invariant, and a refusal closes `a`.
proof fn lemma_step_at_a(l: Link, op: LinkOp)
    requires
        l.inv(),
        l.enabled_at_a(op),
    ensures
        l.stepped_at_a(op).inv(),
        l.a.peer_closed || l.refuses(true, op) ==> l.stepped_at_a(op).a.peer_closed,
        l.stepped_at_a(op).total_ab == l.total_ab,
        l.stepped_at_a(op).total_ba == l.total_ba,
{
    match op {
        LinkOp::Write { buf, accepted } => {
            lemma_write_step(l, buf, accepted);
            if accepted < l.a.write_posts(buf).len() {
                law_refused_write_keeps_order(l.a, buf, accepted as int);
            }
        },
        LinkOp::Flush { accepted } => {
            lemma_flush_step(l, accepted);
            if accepted < l.a.flush_posts().len() {
                law_refused_flush_keeps_order(l.a, accepted as int);
            }
        },
        LinkOp::ReturnCredits { threshold, accepted } => lemma_credit_step(l, threshold, accepted),
        LinkOp::Read { room, accepted } => {
            lemma_drained_len(l.a.rx_ready, l.a.read_len(room as int));
            lemma_read_step(l, room, accepted);
            lemma_read_keeps_inv(l.a, room as int, accepted as int);
        },
        LinkOp::Arrival { slot, reposted } => lemma_arrival_step(l, slot, reposted),
        _ => lemma_local_step(l, op),
    }
}

/// What the conserved credits bound.
proof fn lemma_bounds(l: Link)
    requires
        l.direction_holds(),
    ensures
        l.a.send_credits <= l.total_ab,
        l.b.grant_pending + l.b.rx_ready.len() <= l.total_ab,
        l.a.send_credits + granted(l.ba) <= l.total_ab,
        spent(l.ab) + l.b.rx_ready.len() + l.b.grant_pending <= l.total_ab,
{
    lemma_counts_nonnegative(l.ab);
    lemma_counts_nonnegative(l.ba);
}

proof fn lemma_order_extends(
    sent: Seq<u8>,
    posted: Seq<u8>,
    staged: Seq<u8>,
    dropped: Seq<u8>,
    before: Seq<u8>,
    added: Seq<u8>,
)
    requires
        posted + staged + dropped == before + added,
    ensures
        sent + posted + staged + dropped == sent + before + added,
{
    assert(sent + posted + staged + dropped =~= sent + (posted + staged + dropped));
    assert(sent + before + added =~= sent + (before + added));
}

/// Whatever happens at either end keeps the invariant of the connection. An end one
/// of whose work requests is refused is closed, and a closed end stays closed.
pub proof fn law_every_step_keeps_the_connection(l: Link, at_a: bool, op: LinkOp)
    requires
        l.inv(),
        l.enabled(at_a, op),
    ensures
        l.stepped(at_a, op).inv(),
        l.refuses(at_a, op) ==> if at_a {
            l.stepped(at_a, op).a.peer_closed
        } else {
            l.stepped(at_a, op).b.peer_closed
        },
        l.a.peer_closed ==> l.stepped(at_a, op).a.peer_closed,
        l.b.peer_closed ==> l.stepped(at_a, op).b.peer_closed,
        l.stepped(at_a, op).total_ab == l.total_ab,
        l.stepped(at_a, op).total_ba == l.total_ba,
{
    if at_a {
        lemma_step_at_a(l, op);
    } else {
        assert(l.mirrored().mirrored() =~= l);
        lemma_step_at_a(l.mirrored(), op);
        let t = l.mirrored().stepped_at_a(op);
        assert(t.mirrored().mirrored() =~= t);
    }
}

/// What holds of the direction from `a` to `b` in every state that keeps the invariant.
proof fn lemma_delivers_a_prefix(t: Link)
    requires
        t.inv(),
    ensures
        t.read_b.is_prefix_of(t.written_a + t.unreported_a),
        !t.a.peer_closed ==> t.read_b.is_prefix_of(t.written_a),
        spent(t.ab) + t.b.rx_ready.len() <= t.total_ab,
{
    lemma_bounds(t);
    let sent = t.written_a + t.unreported_a;
    assert(t.read_b =~= sent.take(t.read_b.len() as int));
    if !t.a.peer_closed {
        assert(sent =~= t.written_a);
    }
}

/// Over every history of a connection, whatever work requests are refused in it, each
/// end has delivered to its application a prefix of what the other accepted, in order
/// and without loss, duplication or corruption. Only when a write of the other failed
/// half-way, which closed it, can the bytes of the messages that this write had posted
/// follow. The data messages in flight and held never exceed the pool of receives that
/// their receiver granted, so a receive is always left for a credit return.
pub proof fn law_connection_is_a_reliable_stream(l: Link, ops: Seq<(bool, LinkOp)>)
    requires
        l.inv(),
        l.allows(ops),
    ensures
        ({
            let t = l.run(ops);
            &&& t.inv()
            &&& t.read_b.is_prefix_of(t.written_a + t.unreported_a)
            &&& t.read_a.is_prefix_of(t.written_b + t.unreported_b)
            &&& !t.a.peer_closed ==> t.read_b.is_prefix_of(t.written_a)
            &&& !t.b.peer_closed ==> t.read_a.is_prefix_of(t.written_b)
            &&& spent(t.ab) + t.b.rx_ready.len() <= l.total_ab
            &&& spent(t.ba) + t.a.rx_ready.len() <= l.total_ba
            &&& t.total_ab == l.total_ab && t.total_ba == l.total_ba
        }),
    decreases ops.len(),
{
    if ops.len() > 0 {
        law_connection_is_a_reliable_stream(l, ops.drop_last());
        law_every_step_keeps_the_connection(l.run(ops.drop_last()), ops.last().0, ops.last().1);
    }
    lemma_delivers_a_prefix(l.run(ops));
    lemma_delivers_a_prefix(l.run(ops).mirrored());
}

/// A connection whose messages have all arrived, with nothing staged, dropped or held,
/// has delivered everything that was accepted, and behind it what a failed write had
/// posted.
pub proof fn law_quiet_connection_has_delivered_all(l: Link)
    requires
        l.inv(),
        l.ab.len() == 0,
        l.a.tx_stage.len() == 0,
        l.dropped_a.len() == 0,
        l.b.rx_ready.len() == 0,
    ensures
        l.read_b == l.written_a + l.unreported_a,
        !l.a.peer_closed ==> l.read_b == l.written_a,
{
    assert(l.read_b =~= l.written_a + l.unreported_a);
    if !l.a.peer_closed {
        assert(l.read_b =~= l.written_a);
    }
}

/// Credits cannot get lost on the way to a standoff: when `a` has none, nothing is
/// in flight and `b` has read everything, `b` owes all of them. It can return them
/// at once, at most one message later, and `a` then has them all back.
pub proof fn law_missing_credits_are_owed(l: Link, slot: usize)
    requires
        l.inv(),
        l.total_ab > 0,
        l.a.send_credits == 0,
        l.ab.len() == 0,
        l.ba.len() == 0,
        l.b.rx_ready.len() == 0,
        !l.b.ctrl_send_busy,
        !l.b.peer_closed,
    ensures
        l.b.grant_pending == l.total_ab,
        l.b.credit_posts(1) == seq![l.b.credit_message()],
        ({
            let msg = l.b.credit_message().bytes;
            l.a.after_message(slot, msg, msg.len() as int, true).send_credits == l.total_ab
        }),
{
    lemma_credit_message(l.b);
}

/// A connection that was just set up satisfies the invariant, if the message size
/// that both ends can use holds a payload.
pub proof fn law_connection_starts_well(ca: HordConfig, cb: HordConfig)
    requires
        ca.valid(),
        cb.valid(),
        StreamState::fresh(ca).effective_size(cb.advertised()) > ENVELOPE_LEN,
        StreamState::fresh(cb).effective_size(ca.advertised()) > ENVELOPE_LEN,
    ensures
        Link::established(ca, cb).inv(),
{
    let l = Link::established(ca, cb);
    law_credits_at_start(ca, cb);
    law_credits_at_start(cb, ca);
    lemma_start_end(ca, cb);
    lemma_start_end(cb, ca);
    assert(l.read_b + held(l.b.rx_ready) + payloads(l.ab) + l.a.tx_stage + l.dropped_a
        =~= l.written_a + l.unreported_a);
    assert(l.read_a + held(l.a.rx_ready) + payloads(l.ba) + l.b.tx_stage + l.dropped_b
        =~= l.written_b + l.unreported_b);
}

proof fn lemma_start_end(ca: HordConfig, cb: HordConfig)
    requires
        ca.valid(),
        cb.valid(),
        StreamState::fresh(ca).effective_size(cb.advertised()) > ENVELOPE_LEN,
    ensures
        Link::established(ca, cb).a.inv(),
        Link::established(ca, cb).a.ready(),
{
    let s = Link::established(ca, cb).a;
    assert forall|i: int, j: int|
        0 <= i < s.send_free.len() && 0 <= j < s.send_free.len() && i != j implies s.send_free[i]
        != s.send_free[j] by {}
}

} // verus!
