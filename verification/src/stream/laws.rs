//! What holds of the stream as a whole: bytes arrive in order, credits are
//! neither lost nor made, and the lanes keep out of each other's way.

use vstd::prelude::*;
use crate::envelope::{flags, law_envelope_round_trip, Envelope, ENVELOPE_LEN};
use crate::stream::model::{
    drained, finished, held, held_len, lemma_held_skip, min_int, nonempty, Ready, SendView,
    StreamState, MAX_GRANT,
};
use crate::stream::StreamError;
use crate::verbs::{Completion, Opcode};
use crate::wr_id::{
    controls, law_wr_id_lanes, sends, slot_in, CTRL_FLAG, IMM_FLAG, SEND_FLAG, SLOT_LIMIT,
    WRITE_FLAG,
};

verus! {

/// The payload that the receiver of a message finds in it.
pub open spec fn payload(wr: SendView) -> Seq<u8> {
    StreamState::payload_of(wr.bytes, wr.bytes.len() as int)
}

/// The payloads of messages, in order.
pub open spec fn payloads(wrs: Seq<SendView>) -> Seq<u8>
    decreases wrs.len(),
{
    if wrs.len() == 0 {
        seq![]
    } else {
        payloads(wrs.drop_last()) + payload(wrs.last())
    }
}

/// Whether a message spends a data credit: every one that is not credit-only.
pub open spec fn spends(wr: SendView) -> bool {
    !Envelope::parsed(wr.bytes).credit_only()
}

/// How many of the messages spend a data credit.
pub open spec fn spent(wrs: Seq<SendView>) -> int
    decreases wrs.len(),
{
    if wrs.len() == 0 {
        0
    } else {
        spent(wrs.drop_last()) + if spends(wrs.last()) {
            1int
        } else {
            0
        }
    }
}

/// How many credits the messages grant to their receiver.
pub open spec fn granted(wrs: Seq<SendView>) -> int
    decreases wrs.len(),
{
    if wrs.len() == 0 {
        0
    } else {
        granted(wrs.drop_last()) + Envelope::parsed(wrs.last().bytes).credits
    }
}

proof fn lemma_no_flags()
    ensures
        0u16 & flags::CREDIT_ONLY == 0,
        flags::CREDIT_ONLY & flags::CREDIT_ONLY != 0,
{
    assert(0u16 & 1 == 0 && 1u16 & 1 != 0) by (bit_vector);
}

/// What a receiver finds in the `i`-th data message.
proof fn lemma_data_message(s: StreamState, i: int, p: Seq<u8>)
    requires
        p.len() <= u32::MAX,
    ensures
        ({
            let wr = s.data_message(i, p);
            &&& payload(wr) == p
            &&& spends(wr)
            &&& Envelope::parsed(wr.bytes).credits == s.stamp(i)
            &&& wr.bytes.len() == ENVELOPE_LEN + p.len()
        }),
{
    let env = Envelope { length: p.len() as u32, credits: s.stamp(i), flags: 0 };
    law_envelope_round_trip(env, p);
    lemma_no_flags();
    let wr = s.data_message(i, p);
    assert(wr.bytes.subrange(ENVELOPE_LEN as int, ENVELOPE_LEN + p.len()) =~= p);
}

/// What a receiver finds in a credit return.
pub(crate) proof fn lemma_credit_message(s: StreamState)
    ensures
        ({
            let wr = s.credit_message();
            &&& payload(wr) == Seq::<u8>::empty()
            &&& !spends(wr)
            &&& Envelope::parsed(wr.bytes).credits == s.stamp(0)
            &&& wr.bytes.len() == ENVELOPE_LEN
        }),
{
    let env = Envelope { length: 0, credits: s.stamp(0), flags: flags::CREDIT_ONLY };
    law_envelope_round_trip(env, seq![]);
    lemma_no_flags();
    assert(env.wire() + Seq::<u8>::empty() =~= env.wire());
}

proof fn lemma_push(wrs: Seq<SendView>, wr: SendView)
    ensures
        payloads(wrs.push(wr)) == payloads(wrs) + payload(wr),
        spent(wrs.push(wr)) == spent(wrs) + if spends(wr) {
            1int
        } else {
            0
        },
        granted(wrs.push(wr)) == granted(wrs) + Envelope::parsed(wr.bytes).credits,
{
    assert(wrs.push(wr).drop_last() =~= wrs);
}

pub(crate) proof fn lemma_append(a: Seq<SendView>, b: Seq<SendView>)
    ensures
        payloads(a + b) == payloads(a) + payloads(b),
        spent(a + b) == spent(a) + spent(b),
        granted(a + b) == granted(a) + granted(b),
    decreases b.len(),
{
    if b.len() == 0 {
        assert(a + b =~= a);
        assert(payloads(a) + payloads(b) =~= payloads(a));
    } else {
        lemma_append(a, b.drop_last());
        assert((a + b).drop_last() =~= a + b.drop_last());
        assert(payloads(a + b) =~= payloads(a) + payloads(b));
    }
}

pub(crate) proof fn lemma_split_first(wrs: Seq<SendView>)
    requires
        wrs.len() > 0,
    ensures
        payloads(wrs) == payload(wrs[0]) + payloads(wrs.drop_first()),
        spent(wrs) == spent(wrs.drop_first()) + if spends(wrs[0]) {
            1int
        } else {
            0
        },
        granted(wrs) == granted(wrs.drop_first()) + Envelope::parsed(wrs[0].bytes).credits,
{
    let one = seq![wrs[0]];
    assert(one + wrs.drop_first() =~= wrs);
    lemma_append(one, wrs.drop_first());
    lemma_push(seq![], wrs[0]);
    assert(Seq::<SendView>::empty().push(wrs[0]) =~= one);
    assert(payloads(one) =~= payload(wrs[0]));
}

pub(crate) proof fn lemma_counts_nonnegative(wrs: Seq<SendView>)
    ensures
        spent(wrs) >= 0,
        granted(wrs) >= 0,
    decreases wrs.len(),
{
    if wrs.len() > 0 {
        lemma_counts_nonnegative(wrs.drop_last());
    }
}

/// The first `k` data messages of a write carry the first `k` payloads' worth of
/// the staged bytes and the buffer, and spend one credit each.
proof fn lemma_messages(s: StreamState, buf: Seq<u8>, k: int)
    requires
        s.inv(),
        s.ready(),
        0 <= k <= s.sent(buf),
    ensures
        ({
            let wrs = s.write_messages(buf).take(k);
            &&& 0 <= k * s.payload_cap <= s.with_stage(buf).len()
            &&& payloads(wrs) == s.with_stage(buf).take(k * s.payload_cap)
            &&& spent(wrs) == k
            &&& granted(wrs) == s.grant_pending - s.grant_after(k)
        }),
    decreases k,
{
    let total = s.with_stage(buf);
    let cap = s.payload_cap as int;
    let w = s.whole(buf);
    let len = total.len() as int;
    assert(w * cap <= len && w >= 0) by (nonlinear_arith)
        requires
            w == len / cap,
            cap > 0,
            len >= 0,
    ;
    assert(0 <= k * cap <= w * cap) by (nonlinear_arith)
        requires
            0 <= k <= w,
            cap > 0,
    ;
    let all = s.write_messages(buf);
    if k == 0 {
        assert(all.take(0) =~= seq![]);
        assert(0 * cap == 0) by (nonlinear_arith);
        assert(total.take(0) =~= seq![]);
    } else {
        lemma_messages(s, buf, k - 1);
        assert(all.take(k) =~= all.take(k - 1).push(all[k - 1]));
        lemma_push(all.take(k - 1), all[k - 1]);
        assert((k - 1) * cap + cap == k * cap && (k - 1 + 1) * cap == k * cap) by (nonlinear_arith);
        let chunk = s.chunk(buf, k - 1);
        assert(chunk.len() == cap);
        lemma_data_message(s, k - 1, chunk);
        assert(total.take((k - 1) * cap) + chunk =~= total.take(k * cap));
        lemma_stamp(s, k - 1);
    }
}

/// What the `i`-th message grants is what the debt shrinks by.
proof fn lemma_stamp(s: StreamState, i: int)
    requires
        0 <= i,
    ensures
        s.stamp(i) == s.grant_after(i) - s.grant_after(i + 1),
        0 <= s.grant_after(i) <= s.grant_pending,
{
    assert(MAX_GRANT * (i + 1) == MAX_GRANT * i + MAX_GRANT) by (nonlinear_arith);
    assert(MAX_GRANT * i >= 0) by (nonlinear_arith)
        requires
            i >= 0,
    ;
}

pub(crate) proof fn lemma_credit_posts(s: StreamState, threshold: u32)
    ensures
        payloads(s.credit_posts(threshold)) == Seq::<u8>::empty(),
        spent(s.credit_posts(threshold)) == 0,
        granted(s.credit_posts(threshold)) == s.grant_pending - s.after_credits(
            threshold,
            1,
        ).grant_pending,
{
    if s.returns_credits(threshold) {
        lemma_credit_message(s);
        lemma_push(seq![], s.credit_message());
        assert(Seq::<SendView>::empty().push(s.credit_message()) =~= s.credit_posts(threshold));
        lemma_stamp(s, 0);
        assert(payloads(s.credit_posts(threshold)) =~= seq![]);
    }
}

/// Bytes leave in the order in which they were accepted: what the posted messages
/// carry, followed by what is staged afterwards, is what was staged before,
/// followed by the accepted part of the buffer.
pub proof fn law_write_keeps_order(s: StreamState, buf: Seq<u8>, accepted: int)
    requires
        s.inv(),
        s.ready(),
        buf.len() <= usize::MAX,
        s.write_result(buf, accepted) is Ok,
    ensures
        s.write_result(buf, accepted)->Ok_0 <= buf.len(),
        payloads(s.write_posts(buf)) + s.after_write(buf, accepted).tx_stage == s.tx_stage + buf.take(
            s.write_result(buf, accepted)->Ok_0 as int,
        ),
{
    let k = s.sent(buf);
    let cap = s.payload_cap as int;
    let total = s.with_stage(buf);
    let n = s.write_result(buf, accepted)->Ok_0 as int;
    let w = s.whole(buf);
    let len = total.len() as int;
    assert(w >= 0) by (nonlinear_arith)
        requires
            w == len / cap,
            cap > 0,
            len >= 0,
    ;
    lemma_messages(s, buf, k);
    assert(s.write_messages(buf).take(k) =~= s.write_messages(buf));
    assert(0 * cap == 0) by (nonlinear_arith);
    let after = s.after_write(buf, accepted).tx_stage;
    if k == w {
        assert(buf.take(n) =~= buf);
        assert(total.take(k * cap) + after =~= total);
    } else {
        lemma_credit_posts(s.after_sends(k), 1);
        lemma_append(s.write_messages(buf), s.after_sends(k).credit_posts(1));
        assert(payloads(s.write_posts(buf)) =~= total.take(k * cap));
        if k == 0 {
            assert(total.take(0) + after =~= s.tx_stage + buf.take(0));
        } else {
            assert(k * cap >= cap) by (nonlinear_arith)
                requires
                    k >= 1,
                    cap > 0,
            ;
            assert(total.take(k * cap) + after =~= s.tx_stage + buf.take(n));
        }
    }
}

/// A flush that succeeds sends exactly the staged bytes and leaves none; one that
/// has to wait leaves them all.
pub proof fn law_flush_keeps_order(s: StreamState, accepted: int)
    requires
        s.inv(),
        s.ready(),
        s.flush_result(accepted) is Ok,
    ensures
        payloads(s.flush_posts()) + s.after_flush(accepted).tx_stage == s.tx_stage,
        s.flush_result(accepted)->Ok_0 <==> s.after_flush(accepted).tx_stage.len() == 0,
{
    if s.tx_stage.len() == 0 {
        assert(payloads(s.flush_posts()) + s.tx_stage =~= s.tx_stage);
    } else if s.window() > 0 {
        let wr = s.data_message(0, s.tx_stage);
        lemma_data_message(s, 0, s.tx_stage);
        lemma_push(seq![], wr);
        assert(Seq::<SendView>::empty().push(wr) =~= s.flush_posts());
        assert(payloads(s.flush_posts()) + s.after_flush(accepted).tx_stage =~= s.tx_stage);
    } else {
        lemma_credit_posts(s, 1);
        assert(payloads(s.flush_posts()) + s.tx_stage =~= s.tx_stage);
    }
}

/// A write that fails because a work request was refused closes the stream. What its
/// posted messages carry, followed by what is still staged or was dropped, is what was
/// staged before, followed by the bytes of the buffer that got into a posted message.
pub proof fn law_refused_write_keeps_order(s: StreamState, buf: Seq<u8>, accepted: int)
    requires
        s.inv(),
        s.ready(),
        0 <= accepted < s.write_posts(buf).len(),
    ensures
        s.after_write(buf, accepted).peer_closed,
        s.write_result(buf, accepted) == Err::<usize, StreamError>(StreamError::Post),
        s.write_unreported(buf, accepted).is_prefix_of(buf),
        payloads(s.write_posts(buf).take(accepted)) + s.after_write(buf, accepted).tx_stage
            + s.write_dropped(buf, accepted) == s.tx_stage + s.write_unreported(buf, accepted),
{
    let k = s.sent(buf);
    let cap = s.payload_cap as int;
    let total = s.with_stage(buf);
    let w = s.whole(buf);
    let len = total.len() as int;
    assert(w >= 0) by (nonlinear_arith)
        requires
            w == len / cap,
            cap > 0,
            len >= 0,
    ;
    let posts = s.write_posts(buf);
    let msgs = s.write_messages(buf);
    assert(s.after_sends(0).send_free =~= s.send_free);
    assert(posts.take(accepted) =~= msgs.take(accepted));
    lemma_messages(s, buf, accepted);
    let sent = payloads(posts.take(accepted));
    let staged = s.after_write(buf, accepted).tx_stage;
    if accepted == 0 {
        assert(0 * cap == 0) by (nonlinear_arith);
        assert(sent =~= seq![]);
        assert(sent + staged + s.write_dropped(buf, accepted) =~= s.tx_stage
            + s.write_unreported(buf, accepted));
    } else {
        assert(accepted * cap >= cap) by (nonlinear_arith)
            requires
                accepted >= 1,
                cap > 0,
        ;
        let n = accepted * cap - s.tx_stage.len();
        assert(s.write_unreported(buf, accepted) == buf.take(n));
        assert(sent + staged + s.write_dropped(buf, accepted) =~= s.tx_stage + buf.take(n));
    }
}

/// A flush that fails because its work request was refused closes the stream. It has
/// sent nothing, and what is still staged or was dropped is what was staged before.
pub proof fn law_refused_flush_keeps_order(s: StreamState, accepted: int)
    requires
        0 <= accepted < s.flush_posts().len(),
    ensures
        s.after_flush(accepted).peer_closed,
        s.flush_result(accepted) == Err::<bool, StreamError>(StreamError::Post),
        s.after_flush(accepted).tx_stage + s.flush_dropped(accepted) == s.tx_stage,
{
    assert(s.after_flush(accepted).tx_stage + s.flush_dropped(accepted) =~= s.tx_stage);
}

proof fn lemma_held_push(rx: Seq<Ready>, m: Ready)
    ensures
        held(rx.push(m)) == held(rx) + m.bytes,
    decreases rx.len(),
{
    if rx.len() == 0 {
        assert(rx.push(m).drop_first() =~= seq![]);
        assert(held(rx.push(m).drop_first()) =~= seq![]);
        assert(held(rx.push(m)) =~= held(rx) + m.bytes);
    } else {
        lemma_held_push(rx.drop_first(), m);
        assert(rx.push(m).drop_first() =~= rx.drop_first().push(m));
        assert(held(rx.push(m)) =~= held(rx) + m.bytes);
    }
}

/// A message that arrives adds its payload behind everything that has not been
/// read yet, and nothing else.
pub proof fn law_receive_keeps_order(s: StreamState, slot: usize, msg: Seq<u8>, n: int, reposted: bool)
    requires
        ENVELOPE_LEN <= n <= msg.len(),
    ensures
        held(s.after_message(slot, msg, n, reposted).rx_ready) == held(s.rx_ready)
            + StreamState::payload_of(msg, n),
{
    let p = StreamState::payload_of(msg, n);
    if p.len() > 0 {
        lemma_held_push(s.rx_ready, Ready { slot, bytes: p });
    } else {
        assert(held(s.rx_ready) + p =~= held(s.rx_ready));
    }
}

proof fn lemma_held_drained(rx: Seq<Ready>, n: int)
    requires
        0 <= n <= held(rx).len(),
    ensures
        held(drained(rx, n)) == held(rx).skip(n),
    decreases rx.len(),
{
    if rx.len() == 0 || n <= 0 {
        assert(held(rx).skip(0) =~= held(rx));
    } else if rx[0].bytes.len() <= n {
        let rest = rx.drop_first();
        lemma_held_drained(rest, n - rx[0].bytes.len());
        assert(held(rx).skip(n) =~= held(rest).skip(n - rx[0].bytes.len()));
    } else {
        let rest = rx.drop_first();
        let d = drained(rx, n);
        assert(d.drop_first() =~= rest);
        assert(held(d) =~= held(rx).skip(n));
    }
}

/// A read delivers the oldest unread bytes and leaves exactly the others, also one
/// that fails because a work request was refused. One that succeeds delivers as many
/// as there is room for: none only without room or without unread bytes.
pub proof fn law_read_keeps_order(s: StreamState, room: int, accepted: int)
    requires
        s.inv(),
        room >= 0,
        accepted >= 0,
    ensures
        s.bytes_read(room, accepted) + held(s.after_read(room, accepted).rx_ready) == held(
            s.rx_ready,
        ),
        s.read_result(room, accepted) is Ok ==> s.bytes_read(room, accepted).len() == min_int(
            room,
            held(s.rx_ready).len() as int,
        ),
{
    let rx = s.rx_ready;
    let n = s.read_len(room);
    lemma_drained_len(rx, n);
    if n <= 0 {
        assert(rx.len() == 0 || room <= 0 || held(rx).len() == 0);
        assert(held(rx).take(0) + held(rx) =~= held(rx));
        if rx.len() > 0 {
            assert(rx[0].bytes.len() > 0);
        }
        lemma_finished_zero(rx, n);
    } else if accepted < s.read_finishes(room) {
        let m = held_len(rx, accepted + 1);
        lemma_held_skip(rx, accepted + 1);
        assert(held(rx).take(m) + held(rx).skip(m) =~= held(rx));
    } else {
        lemma_held_drained(rx, n);
        assert(held(rx).take(n) + held(rx).skip(n) =~= held(rx));
        assert(rx.len() > 0);
    }
}

proof fn lemma_finished_zero(rx: Seq<Ready>, n: int)
    requires
        n <= 0,
    ensures
        finished(rx, n) == 0,
{
}

/// The state of a receiver to whom the messages of `wrs` have been delivered, each
/// whole and in order, into the receive slots `slots`, with every re-post taken.
pub open spec fn delivered(s: StreamState, wrs: Seq<SendView>, slots: Seq<usize>) -> StreamState
    decreases wrs.len(),
{
    if wrs.len() == 0 {
        s
    } else {
        let before = delivered(s, wrs.drop_last(), slots.drop_last());
        before.after_message(
            slots.last(),
            wrs.last().bytes,
            wrs.last().bytes.len() as int,
            true,
        )
    }
}

proof fn lemma_delivered(s: StreamState, wrs: Seq<SendView>, slots: Seq<usize>)
    requires
        slots.len() == wrs.len(),
        forall|i: int| 0 <= i < wrs.len() ==> (#[trigger] wrs[i]).bytes.len() >= ENVELOPE_LEN,
    ensures
        held(delivered(s, wrs, slots).rx_ready) == held(s.rx_ready) + payloads(wrs),
    decreases wrs.len(),
{
    if wrs.len() == 0 {
        assert(held(s.rx_ready) + payloads(wrs) =~= held(s.rx_ready));
    } else {
        let init = wrs.drop_last();
        assert forall|i: int| 0 <= i < init.len() implies (#[trigger] init[i]).bytes.len()
            >= ENVELOPE_LEN by {
            assert(init[i] == wrs[i]);
        }
        lemma_delivered(s, init, slots.drop_last());
        let before = delivered(s, init, slots.drop_last());
        let wr = wrs.last();
        assert(wrs[wrs.len() - 1].bytes.len() >= ENVELOPE_LEN);
        law_receive_keeps_order(before, slots.last(), wr.bytes, wr.bytes.len() as int, true);
        assert(held(s.rx_ready) + payloads(wrs) =~= held(s.rx_ready) + payloads(init) + payload(wr));
    }
}

/// The two ends together are an ordered byte stream: once the messages of a write
/// have been delivered, the receiver holds what it held before, followed by what
/// the sender had staged and the accepted bytes, except for what is still staged.
pub proof fn law_stream_end_to_end(
    sender: StreamState,
    receiver: StreamState,
    buf: Seq<u8>,
    accepted: int,
    slots: Seq<usize>,
)
    requires
        sender.inv(),
        sender.ready(),
        buf.len() <= usize::MAX,
        sender.write_result(buf, accepted) is Ok,
        slots.len() == sender.write_posts(buf).len(),
    ensures
        held(delivered(receiver, sender.write_posts(buf), slots).rx_ready) + sender.after_write(
            buf,
            accepted,
        ).tx_stage == held(receiver.rx_ready) + sender.tx_stage + buf.take(
            sender.write_result(buf, accepted)->Ok_0 as int,
        ),
{
    law_write_keeps_order(sender, buf, accepted);
    let wrs = sender.write_posts(buf);
    assert forall|i: int| 0 <= i < wrs.len() implies (#[trigger] wrs[i]).bytes.len()
        >= ENVELOPE_LEN by {
        let msgs = sender.write_messages(buf);
        if i < msgs.len() {
            assert(wrs[i] == msgs[i]);
            lemma_message_len(sender, i, sender.chunk(buf, i));
        } else {
            lemma_credit_message(sender.after_sends(sender.sent(buf)));
        }
    }
    lemma_delivered(receiver, wrs, slots);
    let staged = sender.after_write(buf, accepted).tx_stage;
    let n = sender.write_result(buf, accepted)->Ok_0 as int;
    assert(held(receiver.rx_ready) + payloads(wrs) + staged =~= held(receiver.rx_ready) + (payloads(
        wrs,
    ) + staged));
    assert(held(receiver.rx_ready) + (sender.tx_stage + buf.take(n)) =~= held(receiver.rx_ready)
        + sender.tx_stage + buf.take(n));
}

pub(crate) proof fn lemma_message_len(s: StreamState, i: int, p: Seq<u8>)
    ensures
        s.data_message(i, p).bytes.len() >= ENVELOPE_LEN,
{
    let env = Envelope { length: p.len() as u32, credits: s.stamp(i), flags: 0 };
    law_envelope_round_trip(env, p);
}

/// The data credits of one direction of a connection, wherever they are: with the
/// sender `a`, spent on messages in flight (`ab`) or held by the receiver `b`, owed
/// by `b`, or on their way back (`ba`).
pub open spec fn credits_of(
    a: StreamState,
    b: StreamState,
    ab: Seq<SendView>,
    ba: Seq<SendView>,
) -> int {
    a.send_credits + spent(ab) + b.rx_ready.len() + b.grant_pending + granted(ba)
}

/// A write by `a` keeps the credits of both directions, whether or not the window
/// cuts it short or a work request is refused.
pub proof fn law_write_keeps_credits(
    a: StreamState,
    b: StreamState,
    ab: Seq<SendView>,
    ba: Seq<SendView>,
    buf: Seq<u8>,
    accepted: int,
)
    requires
        a.inv(),
        a.ready(),
        0 <= accepted <= a.write_posts(buf).len(),
    ensures
        ({
            let posts = a.write_posts(buf).take(accepted);
            let after = a.after_write(buf, accepted);
            &&& credits_of(after, b, ab + posts, ba) == credits_of(a, b, ab, ba)
            &&& credits_of(b, after, ba, ab + posts) == credits_of(b, a, ba, ab)
        }),
{
    let posts = a.write_posts(buf).take(accepted);
    lemma_append(ab, posts);
    if a.peer_closed {
        assert(posts =~= seq![]);
    } else {
        let k = a.sent(buf);
        let cap = a.payload_cap as int;
        let w = a.whole(buf);
        let len = a.with_stage(buf).len() as int;
        assert(w >= 0) by (nonlinear_arith)
            requires
                w == len / cap,
                cap > 0,
                len >= 0,
        ;
        let sent = min_int(accepted, k);
        lemma_messages(a, buf, sent);
        lemma_stamp(a, sent);
        assert(a.after_sends(0).send_free =~= a.send_free);
        if accepted <= k {
            assert(posts =~= a.write_messages(buf).take(accepted));
        } else {
            let mid = a.after_sends(k);
            assert(a.write_messages(buf).take(k) =~= a.write_messages(buf));
            assert(posts =~= a.write_messages(buf) + mid.credit_posts(1));
            lemma_credit_posts(mid, 1);
            lemma_append(a.write_messages(buf), mid.credit_posts(1));
            lemma_stamp(mid, 0);
            lemma_stamp(mid, 1);
        }
    }
}

/// A flush by `a` keeps the credits of both directions, taken or refused.
pub proof fn law_flush_keeps_credits(
    a: StreamState,
    b: StreamState,
    ab: Seq<SendView>,
    ba: Seq<SendView>,
    accepted: int,
)
    requires
        a.inv(),
        a.ready(),
        0 <= accepted <= a.flush_posts().len(),
    ensures
        ({
            let posts = a.flush_posts().take(accepted);
            let after = a.after_flush(accepted);
            &&& credits_of(after, b, ab + posts, ba) == credits_of(a, b, ab, ba)
            &&& credits_of(b, after, ba, ab + posts) == credits_of(b, a, ba, ab)
        }),
{
    let posts = a.flush_posts().take(accepted);
    lemma_append(ab, posts);
    if accepted == 0 {
        assert(posts =~= seq![]);
    } else if a.window() > 0 {
        let wr = a.data_message(0, a.tx_stage);
        lemma_data_message(a, 0, a.tx_stage);
        lemma_push(seq![], wr);
        assert(Seq::<SendView>::empty().push(wr) =~= posts);
        lemma_stamp(a, 0);
        lemma_stamp(a, 1);
    } else {
        assert(posts =~= a.credit_posts(1));
        lemma_credit_posts(a, 1);
        lemma_stamp(a, 1);
    }
}

/// A credit return by `a` keeps the credits of both directions, taken or refused.
pub proof fn law_credit_return_keeps_credits(
    a: StreamState,
    b: StreamState,
    ab: Seq<SendView>,
    ba: Seq<SendView>,
    threshold: u32,
    accepted: int,
)
    requires
        0 <= accepted <= a.credit_posts(threshold).len(),
    ensures
        ({
            let posts = a.credit_posts(threshold).take(accepted);
            let after = a.after_credits(threshold, accepted);
            &&& credits_of(after, b, ab + posts, ba) == credits_of(a, b, ab, ba)
            &&& credits_of(b, after, ba, ab + posts) == credits_of(b, a, ba, ab)
        }),
{
    let posts = a.credit_posts(threshold).take(accepted);
    lemma_append(ab, posts);
    if accepted == 0 {
        assert(posts =~= seq![]);
    } else {
        assert(posts =~= a.credit_posts(threshold));
        lemma_credit_posts(a, threshold);
        lemma_stamp(a, 1);
    }
}

pub(crate) proof fn lemma_drained_len(rx: Seq<Ready>, n: int)
    ensures
        drained(rx, n).len() == rx.len() - finished(rx, n),
        0 <= finished(rx, n) <= rx.len(),
    decreases rx.len(),
{
    if rx.len() == 0 || n <= 0 {
    } else if rx[0].bytes.len() <= n {
        lemma_drained_len(rx.drop_first(), n - rx[0].bytes.len());
    }
}

/// A read by `a` keeps the credits of both directions: each message that it reads
/// to its end turns from held into owed. Only the message whose receive could not be
/// re-posted is not owed: its credit is lost, and the stream closed.
pub proof fn law_read_keeps_credits(
    a: StreamState,
    b: StreamState,
    ab: Seq<SendView>,
    ba: Seq<SendView>,
    room: int,
    accepted: int,
)
    requires
        a.inv(),
        a.grant_pending + a.rx_ready.len() <= u32::MAX,
        room >= 0,
        0 <= accepted <= a.read_finishes(room) + a.read_credits(room).len(),
    ensures
        ({
            let posts = a.read_sent(room, accepted);
            let after = a.after_read(room, accepted);
            let lost: int = if accepted < a.read_finishes(room) {
                1
            } else {
                0
            };
            &&& credits_of(after, b, ab + posts, ba) == credits_of(a, b, ab, ba)
            &&& credits_of(b, after, ba, ab + posts) == credits_of(b, a, ba, ab) - lost
            &&& lost > 0 ==> after.peer_closed
        }),
{
    lemma_append(ab, a.read_sent(room, accepted));
    lemma_drained_len(a.rx_ready, a.read_len(room));
    if a.read_len(room) > 0 {
        let mid = a.after_drain(room);
        lemma_credit_posts(mid, a.proactive());
        lemma_stamp(mid, 1);
    }
}

/// The arrival of the oldest message in flight at `b` keeps the credits of both
/// directions: a data message turns from in flight into held, or into owed when it
/// is empty, and the credits it grants reach `b`. A credit-only message spends
/// none. Only an empty data message whose receive could not be re-posted is not
/// owed: its credit is lost, and the stream closed.
pub proof fn law_arrival_keeps_credits(
    a: StreamState,
    b: StreamState,
    ab: Seq<SendView>,
    ba: Seq<SendView>,
    slot: usize,
    reposted: bool,
)
    requires
        ab.len() > 0,
        ab[0].bytes.len() >= ENVELOPE_LEN,
        b.send_credits + Envelope::parsed(ab[0].bytes).credits <= u32::MAX,
        b.grant_pending < u32::MAX,
    ensures
        ({
            let after = b.after_message(slot, ab[0].bytes, ab[0].bytes.len() as int, reposted);
            let lost: int = if !reposted && spends(ab[0]) && payload(ab[0]).len() == 0 {
                1
            } else {
                0
            };
            &&& credits_of(a, after, ab.drop_first(), ba) == credits_of(a, b, ab, ba) - lost
            &&& credits_of(after, a, ba, ab.drop_first()) == credits_of(b, a, ba, ab)
            &&& lost > 0 ==> after.peer_closed
        }),
{
    lemma_split_first(ab);
}

/// When a connection is set up, the credits of each direction are those that the
/// receiver advertised, at most its data pool.
pub proof fn law_credits_at_start(ca: crate::config::HordConfig, cb: crate::config::HordConfig)
    requires
        ca.valid(),
        cb.valid(),
    ensures
        ({
            let a = StreamState::fresh(ca);
            let b = StreamState::fresh(cb);
            let na = a.split_recvs(cb.advertised()).len() as int;
            let nb = b.split_recvs(ca.advertised()).len() as int;
            let sa = a.after_peer(cb.advertised(), na);
            let sb = b.after_peer(ca.advertised(), nb);
            &&& sa.ready() ==> credits_of(sa, sb, seq![], seq![])
                == cb.advertised().max_recv_buffers
            &&& cb.advertised().max_recv_buffers <= cb.recv_pool_size
        }),
{
    let n = cb.recv_pool_size;
    assert(n as u16 <= n) by (bit_vector);
}

/// As long as the credits of a direction are at most the receiver's data pool, the
/// data messages in flight and held never exceed that pool. So the receives beyond
/// the pool stay posted, and a credit return always finds one.
pub proof fn law_control_receives_stay_posted(
    a: StreamState,
    b: StreamState,
    ab: Seq<SendView>,
    ba: Seq<SendView>,
)
    requires
        credits_of(a, b, ab, ba) <= b.recv_pool,
    ensures
        spent(ab) + b.rx_ready.len() <= b.recv_pool,
        b.split_base == b.recv_pool + crate::config::CTRL_RECV_SLACK ==> b.split_base - (spent(ab)
            + b.rx_ready.len()) >= crate::config::CTRL_RECV_SLACK,
{
    lemma_counts_nonnegative(ab);
    lemma_counts_nonnegative(ba);
}

/// A credit return needs neither a data credit nor a data send slot: whatever the
/// two are, it is sent as soon as a credit is owed, the control slot is idle and
/// the stream is open. While one is in flight no other is sent.
pub proof fn law_control_lane_is_independent(s: StreamState, credits: u32, free: Seq<usize>)
    ensures
        s.grant_pending > 0 && !s.ctrl_send_busy && !s.peer_closed ==> (StreamState {
            send_credits: credits,
            send_free: free,
            ..s
        }).credit_posts(1) == seq![s.credit_message()],
        s.returns_credits(1) ==> s.after_credits(1, 1).send_credits == s.send_credits
            && s.after_credits(1, 1).send_free == s.send_free && s.after_credits(1, 1).ctrl_send_busy,
        s.ctrl_send_busy ==> s.credit_posts(1).len() == 0,
{
}

/// Two ends that both ran out of credits cannot wait for each other forever: a
/// write that finds no credit while it owes some returns them.
pub proof fn law_no_credit_standoff(s: StreamState, buf: Seq<u8>)
    requires
        s.inv(),
        s.ready(),
        !s.peer_closed,
        s.send_credits == 0,
        s.grant_pending > 0,
        !s.ctrl_send_busy,
        s.tx_stage.len() + buf.len() >= s.payload_cap,
    ensures
        s.write_posts(buf) == seq![s.credit_message()],
{
    let len = (s.tx_stage.len() + buf.len()) as int;
    let cap = s.payload_cap as int;
    assert(len / cap >= 1) by (nonlinear_arith)
        requires
            len >= cap,
            cap > 0,
    ;
    assert(s.after_sends(0).send_free =~= s.send_free);
    assert(s.after_sends(0) =~= s);
    assert(s.write_messages(buf) =~= seq![]);
    assert(s.write_posts(buf) =~= seq![s.credit_message()]);
}

/// A message in flight has its send slot to itself: the messages of a write use
/// distinct slots, and none of them is free afterwards.
pub proof fn law_slots_in_flight_are_distinct(s: StreamState, buf: Seq<u8>, i: int, j: int)
    requires
        s.inv(),
        s.ready(),
        0 <= i < j < s.sent(buf),
    ensures
        s.slot_for(i) != s.slot_for(j),
        s.slot_for(i) < s.send_pool,
        !s.after_sends(s.sent(buf)).send_free.contains(s.slot_for(i)),
        s.slot_for(i) != s.ctrl_slot(),
{
    let k = s.sent(buf);
    let left = s.after_sends(k).send_free;
    assert forall|m: int| 0 <= m < left.len() implies left[m] != s.slot_for(i) by {
        assert(left[m] == s.send_free[m]);
    }
}

/// A closed stream sends nothing more.
pub proof fn law_closed_stream_is_silent(s: StreamState, buf: Seq<u8>, threshold: u32)
    requires
        s.peer_closed,
    ensures
        s.write_posts(buf).len() == 0,
        s.flush_posts().len() == 0,
        s.credit_posts(threshold).len() == 0,
        s.write_result(buf, 0) == Err::<usize, StreamError>(StreamError::Closed),
{
}

/// A read with room reports the end of the stream exactly when the connection is
/// closed and everything that arrived has been read; that no byte has arrived yet
/// is never mistaken for the end.
pub proof fn law_end_of_stream_is_a_close(s: StreamState, room: usize, accepted: int)
    requires
        s.inv(),
        room > 0,
    ensures
        s.read_result(room as int, accepted) == Ok::<Option<usize>, StreamError>(Some(0)) <==> s.peer_closed
            && s.rx_ready.len() == 0,
        s.read_result(room as int, accepted) == Ok::<Option<usize>, StreamError>(None) <==> !s.peer_closed
            && s.rx_ready.len() == 0,
{
    if s.rx_ready.len() > 0 {
        assert(s.rx_ready[0].bytes.len() > 0);
        assert(held(s.rx_ready).len() >= s.rx_ready[0].bytes.len());
    }
}

/// A write is back-pressured by the window: what it accepts, with what was staged
/// before, is less than one payload more than the messages that can be posted. So
/// without a slot or a credit less than one payload is ever buffered, and no data
/// message is posted.
pub proof fn law_write_is_back_pressured(s: StreamState, buf: Seq<u8>, accepted: int)
    requires
        s.inv(),
        s.ready(),
        buf.len() <= usize::MAX,
    ensures
        s.write_result(buf, accepted) matches Ok(n) ==> s.tx_stage.len() + n < (s.window() + 1)
            * s.payload_cap,
        s.window() == 0 ==> s.write_messages(buf).len() == 0,
        s.window() == 0 ==> (s.write_result(buf, accepted) matches Ok(n) ==> s.tx_stage.len() + n
            < s.payload_cap),
{
    let total = (s.tx_stage.len() + buf.len()) as int;
    let cap = s.payload_cap as int;
    let whole = s.whole(buf);
    let window = s.window();
    assert(whole >= 0 && whole * cap <= total < (whole + 1) * cap) by (nonlinear_arith)
        requires
            whole == total / cap,
            cap > 0,
            total >= 0,
    ;
    let k = s.sent(buf);
    assert((k + 1) * cap <= (window + 1) * cap && k * cap < (k + 1) * cap && cap <= (window + 1)
        * cap && 0 <= k * cap) by (nonlinear_arith)
        requires
            0 <= k <= window,
            cap > 0,
    ;
    if 0 < k < whole {
        assert(k * cap <= whole * cap && k * cap >= cap) by (nonlinear_arith)
            requires
                0 < k < whole,
                cap > 0,
        ;
    }
    assert((0 + 1) * cap == cap) by (nonlinear_arith);
}

/// Nothing reopens a closed stream.
pub proof fn law_closed_stays_closed(
    s: StreamState,
    buf: Seq<u8>,
    room: int,
    wc: Completion,
    msg: Seq<u8>,
    reposted: bool,
    accepted: int,
)
    requires
        s.peer_closed,
    ensures
        s.after_write(buf, accepted).peer_closed,
        s.after_flush(accepted).peer_closed,
        s.after_read(room, accepted).peer_closed,
        s.after_completion(wc, msg, reposted).peer_closed,
{
}

/// The arrival of a split transfer takes no stream credit and returns none, holds
/// no receive slot and leaves the byte stream as it is; it only queues its
/// identifier.
pub proof fn law_transfers_leave_the_stream_alone(s: StreamState, wc: Completion, msg: Seq<u8>)
    requires
        wc.opcode == Opcode::RecvRdmaWithImm,
        wc.success(),
    ensures
        s.after_completion(wc, msg, true) == (StreamState {
            completed_transfers: s.completed_transfers.push(wc.imm_data),
            ..s
        }),
        s.completion_repost(wc, msg) == Some(slot_in(wc.wr_id)),
{
}

/// One-sided writes take no stream credit and no send slot, and an admitted
/// write-with-immediate keeps the transfers in flight within what the peer can
/// receive.
pub proof fn law_writes_keep_to_their_window(s: StreamState, n: int, has_imm: bool, accepted: int)
    requires
        s.inv(),
        n >= 0,
        accepted >= 0,
        s.capacity(n, has_imm) is Ok,
        s.imm_outstanding <= s.peer_split_credits,
    ensures
        ({
            let after = s.after_writes(n, has_imm, accepted);
            &&& after.send_credits == s.send_credits
            &&& after.send_free == s.send_free
            &&& after.grant_pending == s.grant_pending
            &&& after.imm_outstanding <= s.peer_split_credits
            &&& after.writes_outstanding <= s.send_free.len() || n == 0
        }),
{
}

/// A data message can be posted exactly while the stream is open and both a send slot
/// and a credit are left, and as many can be as there are of the scarcer.
pub proof fn law_window_needs_slot_and_credit(s: StreamState)
    ensures
        s.window() > 0 <==> !s.peer_closed && s.send_free.len() > 0 && s.send_credits > 0,
        s.window() <= s.send_free.len() && s.window() <= s.send_credits,
        !s.peer_closed ==> s.window() == s.send_free.len() || s.window() == s.send_credits,
{
}

/// A write takes all it is offered unless the window ends: what it leaves, it leaves
/// because as many messages were posted as could be. Each message is full, and less
/// than one payload stays staged.
pub proof fn law_write_stops_only_at_the_window(s: StreamState, buf: Seq<u8>, accepted: int, i: int)
    requires
        s.inv(),
        s.ready(),
        buf.len() <= usize::MAX,
        s.write_result(buf, accepted) is Ok,
    ensures
        ({
            let n = s.write_result(buf, accepted)->Ok_0;
            let posted = s.write_messages(buf);
            &&& n < buf.len() ==> posted.len() == s.window()
            &&& s.tx_stage.len() + buf.len() >= s.payload_cap && s.window() > 0 ==> posted.len() > 0
                && n > 0
            &&& s.tx_stage.len() + buf.len() < s.payload_cap ==> posted.len() == 0 && n
                == buf.len()
            &&& 0 <= i < posted.len() ==> payload(posted[i]).len() == s.payload_cap
            &&& s.after_write(buf, accepted).tx_stage.len() < s.payload_cap
        }),
{
    let total = (s.tx_stage.len() + buf.len()) as int;
    let cap = s.payload_cap as int;
    let whole = s.whole(buf);
    let k = s.sent(buf);
    assert(whole >= 0 && whole * cap <= total < (whole + 1) * cap) by (nonlinear_arith)
        requires
            whole == total / cap,
            cap > 0,
            total >= 0,
    ;
    assert(total >= cap ==> whole >= 1) by (nonlinear_arith)
        requires
            whole * cap <= total < (whole + 1) * cap,
            cap > 0,
    ;
    assert(total < cap ==> whole < 1) by (nonlinear_arith)
        requires
            whole * cap <= total < (whole + 1) * cap,
            cap > 0,
    ;
    assert(k >= 1 ==> k * cap >= cap) by (nonlinear_arith)
        requires
            cap > 0,
    ;
    let n = s.write_result(buf, accepted)->Ok_0;
    if k == whole {
        assert((k + 1) * cap == k * cap + cap) by (nonlinear_arith);
        assert(k * cap >= 0) by (nonlinear_arith)
            requires
                k >= 0,
                cap > 0,
        ;
        assert(s.with_stage(buf).skip(k * cap).len() == total - k * cap);
        assert(n == buf.len());
    } else {
        assert(k * cap + cap <= whole * cap) by (nonlinear_arith)
            requires
                k + 1 <= whole,
                cap > 0,
        ;
        assert(k == s.window());
        if k >= 1 {
            assert(n == k * cap - s.tx_stage.len());
        }
    }
    assert(s.write_messages(buf).len() == k);
    if 0 <= i < s.write_messages(buf).len() {
        assert((i + 1) * cap <= whole * cap && (i + 1) * cap == i * cap + cap && i * cap >= 0)
            by (nonlinear_arith)
            requires
                0 <= i < whole,
                cap > 0,
        ;
        lemma_data_message(s, i, s.chunk(buf, i));
    }
}

/// A flush sends the staged bytes at once if a message can be posted. If none can, it
/// keeps them, and returns the credits that the peer may be waiting for.
pub proof fn law_flush_sends_when_it_can(s: StreamState)
    requires
        s.inv(),
        s.ready(),
        s.tx_stage.len() > 0,
    ensures
        s.window() > 0 ==> {
            &&& s.flush_posts().len() == 1 && payload(s.flush_posts()[0]) == s.tx_stage
            &&& s.flush_result(1) == Ok::<bool, StreamError>(true)
            &&& s.after_flush(1).tx_stage.len() == 0
            &&& s.after_flush(1).send_credits == s.send_credits - 1
            &&& s.after_flush(1).send_free.len() == s.send_free.len() - 1
        },
        s.window() <= 0 ==> {
            &&& s.flush_posts() == s.credit_posts(1)
            &&& s.flush_result(1) == Ok::<bool, StreamError>(false)
            &&& s.after_flush(1).tx_stage == s.tx_stage
        },
{
    lemma_data_message(s, 0, s.tx_stage);
}

/// Owed credits are returned exactly if as many are owed as are worth a message, one
/// at least, no return is under way and the stream is open.
pub proof fn law_credits_are_returned_when_due(s: StreamState, threshold: u32)
    ensures
        s.credit_posts(threshold).len() == 1 <==> s.grant_pending >= threshold && s.grant_pending > 0
            && !s.ctrl_send_busy && !s.peer_closed,
        s.credit_posts(threshold).len() <= 1,
{
}

/// A message, with data or without, repays everything that is owed, up to what one
/// envelope can carry.
pub proof fn law_message_repays_the_debt(s: StreamState, p: Seq<u8>)
    requires
        p.len() <= u32::MAX,
    ensures
        ({
            let (data, control) = (s.data_message(0, p), s.credit_message());
            let repaid: int = if s.grant_pending <= 65535 {
                s.grant_pending as int
            } else {
                65535
            };
            &&& Envelope::parsed(data.bytes).credits == repaid
            &&& Envelope::parsed(control.bytes).credits == repaid
            &&& s.after_sends(1).grant_pending == s.grant_pending - repaid
            &&& s.returns_credits(1) ==> s.after_credits(1, 1).grant_pending == s.grant_pending
                - repaid
        }),
{
    lemma_data_message(s, 0, p);
    lemma_credit_message(s);
    lemma_stamp(s, 0);
}

/// A reader returns credits on its own account once a quarter of its pool is owed, and
/// never waits for more than that.
pub proof fn law_quarter_of_the_pool_is_due(s: StreamState)
    requires
        s.recv_pool <= u32::MAX,
    ensures
        s.recv_pool >= 4 ==> 4 * s.proactive() <= s.recv_pool < 4 * (s.proactive() + 1),
        s.recv_pool < 4 ==> s.proactive() == 1,
{
}

/// A read that leaves enough owed returns the credits at once; one that reads nothing
/// or leaves less sends nothing.
pub proof fn law_read_returns_credits_in_time(s: StreamState, room: int)
    requires
        s.inv(),
        s.grant_pending + s.rx_ready.len() <= u32::MAX,
        room >= 0,
    ensures
        ({
            let owed = s.grant_pending + s.read_finishes(room);
            let due = s.read_len(room) > 0 && owed >= s.proactive() && !s.ctrl_send_busy
                && !s.peer_closed;
            &&& s.read_credits(room).len() == (if due {
                1int
            } else {
                0
            })
            &&& due ==> Envelope::parsed(s.read_credits(room)[0].bytes).credits == (if owed
                <= 65535 {
                owed
            } else {
                65535
            })
        }),
{
    lemma_drained_len(s.rx_ready, s.read_len(room));
    lemma_credit_message(s.after_drain(room));
    lemma_stamp(s.after_drain(room), 0);
}

proof fn lemma_finished_bounds(rx: Seq<Ready>, n: int)
    requires
        nonempty(rx),
        0 <= n <= held(rx).len(),
    ensures
        0 <= finished(rx, n) <= rx.len(),
        held_len(rx, finished(rx, n)) <= n,
        finished(rx, n) < rx.len() && n > 0 ==> n < held_len(rx, finished(rx, n) + 1),
    decreases rx.len(),
{
    if rx.len() > 0 && n > 0 {
        let rest = rx.drop_first();
        if rx[0].bytes.len() <= n {
            let m = n - rx[0].bytes.len();
            assert forall|i: int| 0 <= i < rest.len() implies (#[trigger] rest[i]).bytes.len()
                > 0 by {
                assert(rest[i] == rx[i + 1]);
            }
            lemma_finished_bounds(rest, m);
            let k = finished(rest, m);
            assert(held_len(rx, k + 1) == rx[0].bytes.len() + held_len(rest, k));
            if k < rest.len() {
                assert(held_len(rx, k + 2) == rx[0].bytes.len() + held_len(rest, k + 1));
                if m == 0 {
                    assert(rest[0].bytes.len() > 0);
                    assert(held_len(rest.drop_first(), 0) == 0);
                    assert(held_len(rest, 1) == rest[0].bytes.len() + held_len(
                        rest.drop_first(),
                        0,
                    ));
                }
            }
        } else {
            assert(held_len(rest, 0) == 0);
            assert(held_len(rx, 1) == rx[0].bytes.len() + held_len(rest, 0));
        }
    }
}

/// A read re-posts the receives of exactly those messages that it has read to their
/// end, oldest first: all of them lie inside what it delivers, and the next one does
/// not.
pub proof fn law_read_reposts_what_it_finishes(s: StreamState, room: int, i: int)
    requires
        s.inv(),
        room >= 0,
    ensures
        ({
            let k = s.read_reposts(room).len() as int;
            let n = s.read_len(room);
            &&& k <= s.rx_ready.len()
            &&& held_len(s.rx_ready, k) <= n
            &&& n > 0 && k < s.rx_ready.len() ==> n < held_len(s.rx_ready, k + 1)
            &&& 0 <= i < k ==> s.read_reposts(room)[i] == s.rx_ready[i].slot
        }),
{
    lemma_finished_bounds(s.rx_ready, s.read_len(room));
}

/// A message that arrives with a payload is held in its receive slot until it is read;
/// any other has its receive re-posted at once. What the envelope announces counts
/// only as far as bytes arrived.
pub proof fn law_arrival_holds_its_slot(s: StreamState, slot: usize, msg: Seq<u8>, n: int)
    requires
        slot < SLOT_LIMIT,
        ENVELOPE_LEN <= n <= msg.len(),
        n <= s.msg_size,
        n <= u32::MAX,
    ensures
        ({
            let wc = Completion {
                wr_id: slot as u64,
                byte_len: n as u32,
                opcode: Opcode::Recv,
                status: 0,
                imm_data: 0,
            };
            let env = Envelope::parsed(msg);
            let after = s.after_completion(wc, msg, true);
            let announced: int = if env.credit_only() {
                0
            } else if env.length <= n - 8 {
                env.length as int
            } else {
                n - 8
            };
            &&& announced > 0 ==> {
                &&& s.completion_repost(wc, msg) is None
                &&& after.rx_ready.len() == s.rx_ready.len() + 1
                &&& after.rx_ready.last().slot == slot
                &&& after.rx_ready.last().bytes == msg.subrange(8, 8 + announced)
                &&& after.grant_pending == s.grant_pending
            }
            &&& announced == 0 ==> {
                &&& s.completion_repost(wc, msg) == Some(slot)
                &&& after.rx_ready == s.rx_ready
            }
            &&& s.completion_result(wc, msg, true) == Ok::<(), StreamError>(())
        }),
{
    law_wr_id_lanes(slot);
}

/// A send that completes gives its slot back, a credit return frees the control slot,
/// and a one-sided write is no longer outstanding; nothing else changes on success,
/// and a failure closes the stream besides.
pub proof fn law_completion_ends_its_work(s: StreamState, slot: usize, wc: Completion, msg: Seq<u8>)
    requires
        slot < SLOT_LIMIT,
        wc.opcode != Opcode::RecvRdmaWithImm,
    ensures
        ({
            let after = s.after_completion(wc, msg, true);
            let closed = s.peer_closed || !wc.success();
            &&& wc.wr_id == SEND_FLAG | slot as u64 ==> after == (StreamState {
                send_free: s.send_free.push(slot),
                peer_closed: closed,
                ..s
            })
            &&& wc.wr_id == SEND_FLAG | CTRL_FLAG | slot as u64 ==> after == (StreamState {
                ctrl_send_busy: false,
                peer_closed: closed,
                ..s
            })
            &&& wc.wr_id == WRITE_FLAG | slot as u64 && s.writes_outstanding > 0 ==> after == (
            StreamState {
                writes_outstanding: (s.writes_outstanding - 1) as u32,
                peer_closed: closed,
                ..s
            })
            &&& wc.wr_id == WRITE_FLAG | IMM_FLAG | slot as u64 && s.imm_outstanding > 0
                && s.writes_outstanding > 0 ==> after == (StreamState {
                writes_outstanding: (s.writes_outstanding - 1) as u32,
                imm_outstanding: (s.imm_outstanding - 1) as u32,
                peer_closed: closed,
                ..s
            })
            &&& wc.wr_id == slot as u64 && !wc.success() ==> after == s.closed()
        }),
{
    law_wr_id_lanes(slot);
}

/// A message that is too short for an envelope is an error and changes nothing; a
/// re-post that is refused is an error and closes the stream.
pub proof fn law_runts_and_lost_receives_are_errors(s: StreamState, slot: usize, wc: Completion, msg: Seq<u8>)
    requires
        slot < SLOT_LIMIT,
        wc.wr_id == slot as u64,
        wc.success(),
        wc.opcode != Opcode::RecvRdmaWithImm,
    ensures
        s.received(wc, msg) < 8 ==> {
            &&& s.completion_result(wc, msg, true) matches Err(StreamError::Runt { len })
            &&& s.after_completion(wc, msg, true) == s
        },
        s.completion_repost(wc, msg) is Some ==> {
            &&& s.completion_result(wc, msg, false) == Err::<(), StreamError>(StreamError::Post)
            &&& s.after_completion(wc, msg, false).peer_closed
        },
        s.received(wc, msg) <= wc.byte_len && s.received(wc, msg) <= msg.len(),
{
    law_wr_id_lanes(slot);
}

/// Posting one-sided writes counts those that were taken, and the transfer only if all
/// were; a refusal closes the stream.
pub proof fn law_posted_writes_are_counted(s: StreamState, n: int, has_imm: bool, accepted: int)
    requires
        s.inv(),
        s.capacity(n, has_imm) is Ok,
        has_imm ==> n > 0,
        0 <= accepted <= n,
    ensures
        ({
            let after = s.after_writes(n, has_imm, accepted);
            &&& after.writes_outstanding == s.writes_outstanding + accepted
            &&& after.imm_outstanding == s.imm_outstanding + (if has_imm && accepted == n {
                1int
            } else {
                0
            })
            &&& after.peer_closed <==> s.peer_closed || accepted < n
        }),
{
}

/// A credit return is an envelope alone, on the control lane: no payload, marked as
/// such, and with all credits that are owed, as far as sixteen bits hold them.
pub proof fn law_credit_return_carries_credits_only(s: StreamState)
    requires
        s.inv(),
    ensures
        ({
            let wr = s.credit_message();
            let env = Envelope::parsed(wr.bytes);
            &&& wr.bytes.len() == 8
            &&& env.length == 0 && env.credit_only()
            &&& s.grant_pending <= 65535 ==> env.credits == s.grant_pending
            &&& s.grant_pending > 65535 ==> env.credits == 65535
            &&& wr.slot == s.send_pool
        }),
{
    let env = Envelope { length: 0, credits: s.stamp(0), flags: flags::CREDIT_ONLY };
    lemma_credit_message(s);
    law_envelope_round_trip(env, seq![]);
    lemma_no_flags();
    assert(env.wire() + Seq::<u8>::empty() =~= env.wire());
}

/// A read with room for bytes that have arrived fails exactly if a receive that it
/// frees, or the credit return that is then due, is refused; otherwise it returns as
/// many bytes as it delivers, which are all that fit.
pub proof fn law_read_reports_what_it_delivers(s: StreamState, room: usize, accepted: int)
    requires
        s.inv(),
        s.rx_ready.len() > 0,
        room > 0,
        accepted >= 0,
    ensures
        ({
            let r = s.read_result(room as int, accepted);
            let posts = s.read_reposts(room as int).len() + s.read_credits(room as int).len();
            let held_bytes = held(s.rx_ready).len();
            &&& r is Err <==> accepted < posts
            &&& r is Err ==> r == Err::<Option<usize>, StreamError>(StreamError::Post)
            &&& r is Ok ==> (r->Ok_0 matches Some(n) && n == s.bytes_read(
                room as int,
                accepted,
            ).len() && n >= 1 && (n == room || n == held_bytes) && n <= room && n <= held_bytes)
        }),
{
    law_read_keeps_order(s, room as int, accepted);
    lemma_finished_bounds(s.rx_ready, s.read_len(room as int));
    assert(s.rx_ready[0].bytes.len() > 0);
    assert(held(s.rx_ready).len() >= s.rx_ready[0].bytes.len());
}

/// A message is what a receive that succeeded brings, unless a write with an immediate
/// consumed it: neither a send nor a write has one.
pub proof fn law_messages_are_receives(s: StreamState, wc: Completion, slot: usize)
    requires
        slot < SLOT_LIMIT,
    ensures
        s.is_message(wc) ==> wc.status == 0 && !(wc.opcode is RecvRdmaWithImm),
        wc.wr_id == slot as u64 && wc.status == 0 && !(wc.opcode is RecvRdmaWithImm) ==> s.is_message(wc),
        wc.wr_id == SEND_FLAG | slot as u64 ==> !s.is_message(wc),
        wc.wr_id == SEND_FLAG | CTRL_FLAG | slot as u64 ==> !s.is_message(wc),
        wc.wr_id == WRITE_FLAG | slot as u64 ==> !s.is_message(wc),
        wc.wr_id == WRITE_FLAG | IMM_FLAG | slot as u64 ==> !s.is_message(wc),
{
    law_wr_id_lanes(slot);
}

/// The identifier of a message names its slot and its lane, and messages of a window
/// are in slots of their own, apart from the slot of credit returns.
pub proof fn law_message_names_its_slot(s: StreamState, i: int, j: int, p: Seq<u8>, q: Seq<u8>)
    requires
        s.inv(),
        0 <= i < j < s.send_free.len(),
    ensures
        ({
            let (a, b, c) = (s.data_message(i, p), s.data_message(j, q), s.credit_message());
            &&& slot_in(a.wr_id) == a.slot && slot_in(b.wr_id) == b.slot && slot_in(c.wr_id)
                == c.slot
            &&& sends(a.wr_id) && !controls(a.wr_id) && sends(c.wr_id) && controls(c.wr_id)
            &&& a.slot != b.slot && a.slot != c.slot && b.slot != c.slot
            &&& s.send_free.contains(a.slot)
            &&& i == 0 ==> a.slot == s.send_free.last()
        }),
{
    law_wr_id_lanes(s.slot_for(i));
    law_wr_id_lanes(s.slot_for(j));
    law_wr_id_lanes(s.ctrl_slot());
    assert(s.slot_for(i) == s.send_free[s.send_free.len() - 1 - i]);
    assert(s.slot_for(j) == s.send_free[s.send_free.len() - 1 - j]);
}

} // verus!
