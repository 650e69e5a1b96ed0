//! Setting a stream up: buffers, the handshake exchange and what follows from the
//! peer's handshake.

use std::collections::VecDeque;
use vstd::prelude::*;
use crate::config::{
    advertises_split, lemma_advertised_bits, negotiate_split, recv_base_count, split_negotiates,
    split_slack, HordConfig, CTRL_SEND_SLOTS,
};
use crate::envelope::ENVELOPE_LEN;
use crate::handshake::{Handshake, HandshakeError, HANDSHAKE_LEN};
use crate::stream::model::{min_int, StreamState};
use crate::stream::{HordStream, PeerAddr, StreamError};
use crate::verbs::Completion;
use crate::wr_id::{recv_wr_id, HS_RECV_WR_ID, HS_SEND_WR_ID};

verus! {

/// Seconds that a peer has to complete the handshake.
pub const HANDSHAKE_TIMEOUT_SECS: u64 = 10;

impl StreamState {
    /// The state of a stream that knows nothing of its peer yet.
    pub open spec fn fresh(config: HordConfig) -> StreamState {
        StreamState {
            msg_size: config.max_message_size,
            payload_cap: 0,
            recv_pool: config.recv_pool_size,
            split_base: config.recv_base() as usize,
            split_headroom: config.split_slack() as usize,
            send_pool: config.send_pool_size,
            send_free: Seq::new(
                config.send_pool_size as nat,
                |i: int| (config.send_pool_size - 1 - i) as usize,
            ),
            send_credits: 0,
            grant_pending: 0,
            ctrl_send_busy: false,
            tx_stage: seq![],
            rx_ready: seq![],
            peer_closed: false,
            cm_watch: false,
            peer_addr: None,
            established_at: 0,
            zero_copy: config.zero_copy,
            writes_outstanding: 0,
            split_mode: config.offers_split(),
            split_posted: false,
            completed_transfers: seq![],
            peer_split_credits: 0,
            imm_outstanding: 0,
        }
    }

    /// Byte offset of a send slot in the send region.
    pub open spec fn send_place(self, slot: usize) -> Option<usize> {
        if slot <= self.send_pool {
            Some((slot * self.msg_size) as usize)
        } else {
            None
        }
    }

    /// Identifiers of the receives to post before the connection carries traffic.
    pub open spec fn first_recvs(self) -> Seq<u64> {
        seq![HS_RECV_WR_ID] + Seq::new(self.split_base as nat, |i: int| i as u64)
    }

    /// The largest message that both ends can use.
    pub open spec fn effective_size(self, peer: Handshake) -> int {
        min_int(self.msg_size as int, peer.max_message_size as int)
    }

    /// Whether splitting negotiates with the peer.
    pub open spec fn splits_with(self, peer: Handshake) -> bool {
        split_negotiates(self.split_mode, self.zero_copy && peer.zero_copy(), peer)
    }

    /// The receive slots to post once the peer's handshake is known: the split
    /// headroom, and only if splitting negotiates.
    pub open spec fn split_recvs(self, peer: Handshake) -> Seq<usize> {
        if self.effective_size(peer) > ENVELOPE_LEN && self.splits_with(peer) {
            Seq::new(self.split_headroom as nat, |i: int| (self.split_base + i) as usize)
        } else {
            seq![]
        }
    }

    /// The state that follows from the peer's handshake, when `accepted` of those
    /// receives were taken.
    pub open spec fn after_peer(self, peer: Handshake, accepted: int) -> StreamState {
        if self.effective_size(peer) <= ENVELOPE_LEN {
            self
        } else {
            let n = self.split_recvs(peer).len();
            StreamState {
                payload_cap: (self.effective_size(peer) - ENVELOPE_LEN) as usize,
                send_credits: peer.max_recv_buffers as u32,
                zero_copy: self.zero_copy && peer.zero_copy(),
                split_mode: self.splits_with(peer),
                peer_split_credits: peer.split_credits as u32,
                split_posted: self.split_posted || n > 0,
                peer_closed: self.peer_closed || accepted < n,
                ..self
            }
        }
    }

    /// What applying the peer's handshake returns.
    pub open spec fn peer_result(self, peer: Handshake, accepted: int) -> Result<(), StreamError> {
        if self.effective_size(peer) <= ENVELOPE_LEN {
            Err(StreamError::MessageSize { effective: self.effective_size(peer) as usize })
        } else if accepted < self.split_recvs(peer).len() {
            Err(StreamError::Post)
        } else {
            Ok(())
        }
    }
}

impl HordStream {
    /// A stream of the given configuration, before the handshake. All its data
    /// send slots are free.
    pub fn new_common(config: &HordConfig) -> (r: HordStream)
        requires
            config.valid(),
        ensures
            r.wf(),
            r@ == StreamState::fresh(*config),
    {
        let send_pool: usize = config.send_pool_size;
        let mut send_free: Vec<usize> = Vec::with_capacity(send_pool);
        let mut next: usize = send_pool;
        while next > 0
            invariant
                next <= send_pool,
                send_free@ == Seq::new((send_pool - next) as nat, |i: int| (send_pool - 1 - i) as usize),
            decreases next,
        {
            next = next - 1;
            send_free.push(next);
            assert(send_free@ =~= Seq::new(
                (send_pool - next) as nat,
                |i: int| (send_pool - 1 - i) as usize,
            ));
        }
        let s = HordStream {
            msg_size: config.max_message_size,
            payload_cap: 0,
            recv_pool: config.recv_pool_size,
            split_base: recv_base_count(config),
            split_headroom: split_slack(config),
            send_pool,
            send_free,
            send_credits: 0,
            grant_pending: 0,
            ctrl_send_busy: false,
            tx_stage: Vec::new(),
            rx_ready: VecDeque::new(),
            peer_closed: false,
            cm_watch: false,
            peer_addr: None,
            established_at: 0,
            zero_copy: config.zero_copy,
            writes_outstanding: 0,
            split_mode: advertises_split(config),
            split_posted: false,
            completed_transfers: VecDeque::new(),
            peer_split_credits: 0,
            imm_outstanding: 0,
        };
        assert(s@ =~= StreamState::fresh(*config));
        s
    }

    /// Identifiers of the receives to post before the connection carries traffic:
    /// the handshake's first, since the peer's handshake is its first message and
    /// receives are consumed in order, then the data pool and the control slack.
    pub fn initial_recvs(&self) -> (r: Vec<u64>)
        ensures
            r@ == self@.first_recvs(),
    {
        let mut ids: Vec<u64> = Vec::new();
        ids.push(HS_RECV_WR_ID);
        let mut slot: usize = 0;
        assert(ids@ =~= seq![HS_RECV_WR_ID] + Seq::new(0, |i: int| i as u64));
        while slot < self.split_base
            invariant
                slot <= self@.split_base,
                ids@ == seq![HS_RECV_WR_ID] + Seq::new(slot as nat, |i: int| i as u64),
            decreases self@.split_base - slot,
        {
            ids.push(recv_wr_id(slot));
            slot = slot + 1;
            assert(ids@ =~= seq![HS_RECV_WR_ID] + Seq::new(slot as nat, |i: int| i as u64));
        }
        ids
    }

    /// Bytes of the receive region that is posted before the handshake.
    pub fn recv_bytes(&self) -> (r: usize)
        requires
            self.wf(),
        ensures
            r == self@.split_base * self@.msg_size,
    {
        self.split_base * self.msg_size
    }

    /// Bytes of the send region: the data pool and the control slot.
    pub fn send_bytes(&self) -> (r: usize)
        requires
            self.wf(),
        ensures
            r == (self@.send_pool + CTRL_SEND_SLOTS) * self@.msg_size,
    {
        (self.send_pool + CTRL_SEND_SLOTS) * self.msg_size
    }

    /// Bytes of the split headroom.
    pub fn split_bytes(&self) -> (r: usize)
        requires
            self.wf(),
        ensures
            r == self@.split_headroom * self@.msg_size,
    {
        self.split_headroom * self.msg_size
    }

    /// Byte offset of a send slot in the send region, or `None` past the control
    /// slot.
    pub fn send_slot(&self, slot: usize) -> (r: Option<usize>)
        requires
            self.wf(),
        ensures
            r == self@.send_place(slot),
    {
        if slot <= self.send_pool {
            proof {
                let (a, p, m) = (slot as int, self@.send_pool as int, self@.msg_size as int);
                assert(0 <= a * m <= (p + 1) * m) by (nonlinear_arith)
                    requires
                        0 <= a <= p,
                        0 <= m,
                ;
            }
            Some(slot * self.msg_size)
        } else {
            None
        }
    }

    fn effective(&self, peer: &Handshake) -> (r: usize)
        ensures
            r == self@.effective_size(*peer),
    {
        if self.msg_size <= peer.max_message_size as usize {
            self.msg_size
        } else {
            peer.max_message_size as usize
        }
    }

    /// The receive slots to post once the peer's handshake is known. Their region
    /// is registered only if there are any, so a connection that does not split
    /// never pins it.
    pub fn plan_split_recvs(&self, peer: &Handshake) -> (r: Vec<usize>)
        requires
            self.wf(),
        ensures
            r@ == self@.split_recvs(*peer),
    {
        let mut slots: Vec<usize> = Vec::new();
        if self.effective(peer) <= ENVELOPE_LEN || !negotiate_split(
            self.split_mode,
            self.zero_copy && peer.zero_copy_capable(),
            peer,
        ) {
            assert(slots@ =~= self@.split_recvs(*peer));
            return slots;
        }
        let mut i: usize = 0;
        while i < self.split_headroom
            invariant
                i <= self@.split_headroom,
                self@.split_base + self@.split_headroom <= usize::MAX,
                slots@ == Seq::new(i as nat, |j: int| (self@.split_base + j) as usize),
            decreases self@.split_headroom - i,
        {
            slots.push(self.split_base + i);
            i = i + 1;
            assert(slots@ =~= Seq::new(i as nat, |j: int| (self@.split_base + j) as usize));
        }
        assert(slots@ =~= self@.split_recvs(*peer));
        slots
    }

    /// Takes over what the peer's handshake says: the payload size both ends can
    /// use, the credits it grants and the capabilities both have. `accepted` is how
    /// many of the receives of [`plan_split_recvs`](Self::plan_split_recvs) the
    /// queue pair took.
    pub fn apply_peer(&mut self, peer: &Handshake, accepted: usize) -> (r: Result<(), StreamError>)
        requires
            old(self).wf(),
            !old(self)@.ready(),
        ensures
            final(self).wf(),
            final(self)@ == old(self)@.after_peer(*peer, accepted as int),
            r == old(self)@.peer_result(*peer, accepted as int),
    {
        let effective: usize = self.effective(peer);
        if effective <= ENVELOPE_LEN {
            return Err(StreamError::MessageSize { effective });
        }
        self.payload_cap = effective - ENVELOPE_LEN;
        self.send_credits = peer.max_recv_buffers as u32;
        self.zero_copy = self.zero_copy && peer.zero_copy_capable();
        self.split_mode = negotiate_split(self.split_mode, self.zero_copy, peer);
        self.peer_split_credits = peer.split_credits as u32;
        if self.split_mode && self.split_headroom > 0 {
            self.split_posted = true;
            if accepted < self.split_headroom {
                self.peer_closed = true;
                return Err(StreamError::Post);
            }
        }
        Ok(())
    }

    /// Records that setup is over: whether the connection manager's channel is
    /// watched for a half-close, the peer's address and the time.
    pub fn established(&mut self, cm_watch: bool, peer_addr: Option<PeerAddr>, at: u64)
        ensures
            final(self)@ == (StreamState { cm_watch, peer_addr, established_at: at, ..old(self)@ }),
            old(self).wf() ==> final(self).wf(),
    {
        self.cm_watch = cm_watch;
        self.peer_addr = peer_addr;
        self.established_at = at;
    }
}

/// Two ends always agree on what negotiated between them: each finds zero-copy
/// negotiated exactly if both advertised it, and splitting exactly if both
/// advertised that. Splitting never negotiates without zero-copy.
pub proof fn law_ends_agree(a: HordConfig, b: HordConfig)
    ensures
        ({
            let (at_a, at_b) = (StreamState::fresh(a), StreamState::fresh(b));
            let (to_a, to_b) = (b.advertised(), a.advertised());
            &&& (at_a.zero_copy && to_a.zero_copy()) == (to_a.zero_copy() && to_b.zero_copy())
            &&& (at_b.zero_copy && to_b.zero_copy()) == (to_a.zero_copy() && to_b.zero_copy())
            &&& at_a.splits_with(to_a) == (to_a.split_mode() && to_b.split_mode())
            &&& at_b.splits_with(to_b) == (to_a.split_mode() && to_b.split_mode())
            &&& at_a.splits_with(to_a) ==> at_a.zero_copy && to_a.zero_copy()
        }),
{
    lemma_advertised_bits(a);
    lemma_advertised_bits(b);
}

/// Why the handshake exchange failed.
#[derive(Debug, Clone, Copy, PartialEq, Eq, Structural)]
pub enum ExchangeError {
    /// A completion reported a failure.
    Failed {
        /// Its identifier.
        wr_id: u64,
        /// Its status.
        status: u32,
    },
    /// A completion that is none of the two expected.
    Unexpected {
        /// Its identifier.
        wr_id: u64,
    },
    /// The peer did not complete the handshake in time.
    TimedOut,
    /// The peer's handshake is refused.
    Refused(HandshakeError),
}

/// The exchange of handshakes as the first messages of a connection: it is over
/// once this end's send and the peer's message have both completed.
#[derive(Debug, Clone, Copy, PartialEq, Eq, Structural)]
pub struct HandshakeExchange {
    /// The peer's handshake arrived.
    pub got_recv: bool,
    /// This end's handshake was acknowledged.
    pub got_send: bool,
    /// Bytes of the peer's handshake.
    pub recv_len: usize,
}

impl HandshakeExchange {
    /// Nothing has completed.
    pub open spec fn start() -> HandshakeExchange {
        HandshakeExchange { got_recv: false, got_send: false, recv_len: 0 }
    }

    /// The state after a completion that is accepted.
    pub open spec fn step(self, wc: Completion) -> HandshakeExchange {
        if wc.wr_id == HS_RECV_WR_ID {
            HandshakeExchange { got_recv: true, recv_len: wc.byte_len as usize, ..self }
        } else {
            HandshakeExchange { got_send: true, ..self }
        }
    }

    /// What a completion is taken for.
    pub open spec fn verdict(wc: Completion) -> Result<(), ExchangeError> {
        if !wc.success() {
            Err(ExchangeError::Failed { wr_id: wc.wr_id, status: wc.status })
        } else if wc.wr_id != HS_RECV_WR_ID && wc.wr_id != HS_SEND_WR_ID {
            Err(ExchangeError::Unexpected { wr_id: wc.wr_id })
        } else {
            Ok(())
        }
    }

    /// Whether both handshakes have gone through.
    pub open spec fn complete(self) -> bool {
        self.got_recv && self.got_send
    }

    /// The bytes of the peer's handshake in the receive buffer `buf`: those that
    /// arrived and no stale ones behind them.
    pub open spec fn arrived(self, buf: Seq<u8>) -> Seq<u8> {
        buf.take(min_int(min_int(self.recv_len as int, HANDSHAKE_LEN as int), buf.len() as int))
    }

    /// An exchange in which nothing has completed.
    pub fn new() -> (r: Self)
        ensures
            r == HandshakeExchange::start(),
    {
        HandshakeExchange { got_recv: false, got_send: false, recv_len: 0 }
    }

    /// Whether the exchange is over.
    pub fn is_complete(&self) -> (r: bool)
        ensures
            r == self.complete(),
    {
        self.got_recv && self.got_send
    }

    /// Takes a completion.
    pub fn on_completion(&mut self, wc: &Completion) -> (r: Result<(), ExchangeError>)
        ensures
            r == HandshakeExchange::verdict(*wc),
            r is Ok ==> *final(self) == old(self).step(*wc),
            r is Err ==> *final(self) == *old(self),
    {
        if !wc.is_success() {
            return Err(ExchangeError::Failed { wr_id: wc.wr_id, status: wc.status });
        }
        if wc.wr_id == HS_RECV_WR_ID {
            self.got_recv = true;
            self.recv_len = wc.byte_len as usize;
            Ok(())
        } else if wc.wr_id == HS_SEND_WR_ID {
            self.got_send = true;
            Ok(())
        } else {
            Err(ExchangeError::Unexpected { wr_id: wc.wr_id })
        }
    }

    /// Nothing completed; gives up once the deadline has passed.
    pub fn on_idle(&self, expired: bool) -> (r: Result<(), ExchangeError>)
        ensures
            r == (if expired {
                Err::<(), ExchangeError>(ExchangeError::TimedOut)
            } else {
                Ok(())
            }),
    {
        if expired {
            Err(ExchangeError::TimedOut)
        } else {
            Ok(())
        }
    }

    /// Decodes the peer's handshake from the receive buffer.
    pub fn finish(&self, buf: &[u8]) -> (r: Result<Handshake, ExchangeError>)
        ensures
            r == (match Handshake::parsed(self.arrived(buf@)) {
                Ok(h) => Ok::<Handshake, ExchangeError>(h),
                Err(e) => Err(ExchangeError::Refused(e)),
            }),
    {
        let mut n: usize = self.recv_len;
        if n > HANDSHAKE_LEN {
            n = HANDSHAKE_LEN;
        }
        if n > buf.len() {
            n = buf.len();
        }
        let got: &[u8] = vstd::slice::slice_subrange(buf, 0, n);
        assert(got@ =~= self.arrived(buf@));
        match Handshake::decode(got) {
            Ok(h) => Ok(h),
            Err(e) => Err(ExchangeError::Refused(e)),
        }
    }
}

/// The exchange is over exactly when both completions have come, in either order,
/// and then gives back the handshake that the peer encoded.
pub proof fn law_handshake_exchange(peer: Handshake, recv: Completion, send: Completion, tail: Seq<u8>)
    requires
        peer.version == crate::handshake::VERSION,
        recv.wr_id == HS_RECV_WR_ID,
        recv.byte_len == HANDSHAKE_LEN,
        send.wr_id == HS_SEND_WR_ID,
    ensures
        ({
            let start = HandshakeExchange::start();
            let a = start.step(recv).step(send);
            let b = start.step(send).step(recv);
            &&& !start.complete() && !start.step(recv).complete() && !start.step(send).complete()
            &&& a == b && a.complete()
            &&& Handshake::parsed(a.arrived(peer.wire() + tail)) == Ok::<Handshake, HandshakeError>(
                peer,
            )
        }),
{
    crate::handshake::law_handshake_round_trip(peer);
    let a = HandshakeExchange::start().step(recv).step(send);
    assert(a.arrived(peer.wire() + tail) =~= peer.wire());
}

/// What two ends settle on: the smaller message size, less the envelope, as the
/// payload of either; as many credits as the peer has data receives; zero-copy if both
/// wish it; splitting if both offer it; and the transfers that the peer can receive.
/// Nothing is staged, held, owed or under way, every send slot is free, and the stream
/// is open.
pub proof fn law_setup_settles_what_both_offer(a: HordConfig, b: HordConfig)
    requires
        a.valid(),
        b.valid(),
        a.max_message_size <= u32::MAX,
        b.max_message_size <= u32::MAX,
        b.recv_pool_size <= 65535,
        b.split_credits <= 65535,
    ensures
        ({
            let s = StreamState::fresh(a);
            let peer = b.advertised();
            let t = s.after_peer(peer, s.split_recvs(peer).len() as int);
            let smaller = if a.max_message_size <= b.max_message_size {
                a.max_message_size
            } else {
                b.max_message_size
            };
            &&& s.peer_result(peer, s.split_recvs(peer).len() as int) matches Ok(_)
            &&& t.payload_cap + 8 == smaller
            &&& t.send_credits == b.recv_pool_size
            &&& t.zero_copy == (a.zero_copy && b.zero_copy)
            &&& t.split_mode == (a.offers_split() && b.offers_split())
            &&& b.offers_split() ==> t.peer_split_credits == b.split_credits
            &&& !b.offers_split() ==> t.peer_split_credits == 0
            &&& t.tx_stage.len() == 0 && t.rx_ready.len() == 0 && t.completed_transfers.len() == 0
            &&& t.grant_pending == 0 && t.writes_outstanding == 0 && t.imm_outstanding == 0
            &&& t.send_pool == a.send_pool_size && t.send_free.len() == t.send_pool
            &&& t.recv_pool == a.recv_pool_size && t.msg_size == a.max_message_size
            &&& !t.peer_closed && !t.ctrl_send_busy
        }),
{
    lemma_advertised_bits(a);
    lemma_advertised_bits(b);
}

/// A peer whose messages could not hold a payload is refused, and a refusal of a
/// receive is an error that closes the stream; in no other case does setup fail.
pub proof fn law_setup_refuses_unusable_peers(s: StreamState, peer: Handshake, accepted: int)
    requires
        0 <= accepted <= s.split_recvs(peer).len(),
    ensures
        ({
            let usable = s.msg_size > 8 && peer.max_message_size > 8;
            let r = s.peer_result(peer, accepted);
            &&& !usable ==> (r matches Err(StreamError::MessageSize { effective }) && effective
                <= 8) && s.after_peer(peer, accepted) == s
            &&& usable && accepted < s.split_recvs(peer).len() ==> r == Err::<(), StreamError>(
                StreamError::Post,
            ) && s.after_peer(peer, accepted).peer_closed
            &&& usable && accepted == s.split_recvs(peer).len() ==> r matches Ok(_)
        }),
{
}

/// The receives for split transfers are posted exactly if splitting negotiates: as
/// many as the transfers that were offered, in the slots behind those for messages.
pub proof fn law_split_receives_match_the_offer(a: HordConfig, b: HordConfig, i: int)
    requires
        a.valid(),
        b.valid(),
        b.max_message_size <= u32::MAX,
    ensures
        ({
            let slots = StreamState::fresh(a).split_recvs(b.advertised());
            &&& a.offers_split() && b.offers_split() ==> slots.len() == a.split_credits
            &&& !(a.offers_split() && b.offers_split()) ==> slots.len() == 0
            &&& 0 <= i < slots.len() ==> slots[i] == a.recv_pool_size + 2 + i
        }),
{
    lemma_advertised_bits(a);
    lemma_advertised_bits(b);
}

/// The peer's handshake is read from the bytes that arrived and no others: stale bytes
/// behind a shorter one do not count.
pub proof fn law_exchange_ignores_stale_bytes(got: Seq<u8>, stale: Seq<u8>)
    requires
        got.len() <= HANDSHAKE_LEN,
    ensures
        (HandshakeExchange { got_recv: true, got_send: true, recv_len: got.len() as usize }).arrived(
            got + stale,
        ) == got,
{
    let x = HandshakeExchange { got_recv: true, got_send: true, recv_len: got.len() as usize };
    assert(x.arrived(got + stale) =~= got);
}

/// During the exchange only the two handshakes may complete, and only with success; a
/// failure is reported as such, whichever work request it is.
pub proof fn law_exchange_takes_handshakes_only(wc: Completion)
    ensures
        HandshakeExchange::verdict(wc) is Ok <==> wc.status == 0 && (wc.wr_id
            == 0xFFFF_FFFF_FFFF_FFFF || wc.wr_id == 0xFFFF_FFFF_FFFF_FFFE),
        wc.status != 0 ==> HandshakeExchange::verdict(wc) == Err::<(), ExchangeError>(
            ExchangeError::Failed { wr_id: wc.wr_id, status: wc.status },
        ),
        HandshakeExchange::verdict(wc) is Err && wc.status == 0 ==> HandshakeExchange::verdict(wc)
            == Err::<(), ExchangeError>(ExchangeError::Unexpected { wr_id: wc.wr_id }),
{
}

/// Before traffic, a receive is posted for the handshake, first of all, and then one
/// for every data message that is advertised and two for credit returns, each in a
/// slot of its own.
pub proof fn law_first_receives(config: HordConfig, i: int, j: int)
    requires
        config.valid(),
    ensures
        ({
            let ids = StreamState::fresh(config).first_recvs();
            &&& ids.len() == 1 + config.recv_pool_size + 2
            &&& ids[0] == HS_RECV_WR_ID
            &&& 1 <= i < ids.len() ==> ids[i] == i - 1
            &&& 1 <= i < j < ids.len() ==> ids[i] != ids[j]
        }),
{
}

/// Send slots lie inside the send region and apart from each other: there is one for
/// every data message and one behind them for credit returns.
pub proof fn law_send_slots_do_not_overlap(s: StreamState, a: usize, b: usize)
    requires
        s.inv(),
        a < b,
    ensures
        s.send_place(a) is Some <==> a <= s.send_pool,
        s.send_place(a) matches Some(offset) ==> offset + s.msg_size <= (s.send_pool + 1)
            * s.msg_size,
        s.send_place(a) matches Some(x) ==> (s.send_place(b) matches Some(y) ==> x + s.msg_size
            <= y),
{
    crate::stream::completion::lemma_slot_offsets(
        a as int,
        b as int,
        s.send_pool + 1,
        s.msg_size as int,
    );
}

/// Splitting negotiates exactly if this end offers it, zero-copy is wished at both
/// ends, and the peer offers splitting with room for a transfer.
pub proof fn law_splitting_needs_both_ends(s: StreamState, peer: Handshake)
    ensures
        s.splits_with(peer) <==> s.split_mode && s.zero_copy && peer.zero_copy() && peer.split_mode()
            && peer.split_credits >= 1,
{
}

/// A new stream has every data slot to send from free, once, and uses them in order.
pub proof fn law_send_slots_start_free(config: HordConfig, slot: int)
    requires
        0 <= slot < config.send_pool_size,
    ensures
        ({
            let s = StreamState::fresh(config);
            &&& s.send_free.len() == config.send_pool_size
            &&& s.slot_for(slot) == slot
            &&& s.send_free.last() == 0
        }),
{
}

} // verus!
