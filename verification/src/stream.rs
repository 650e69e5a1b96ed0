//! [`HordStream`]: a reliable, ordered byte stream over two-sided RDMA messages,
//! with credit-based flow control and one-sided writes beside it.
//!
//! Posting a *data* message costs one of the credits that the peer granted. As
//! received messages are read and their buffers re-posted, a *grant debt* to the
//! peer accrues; it is repaid in the envelope of outgoing messages or, when there
//! is no data to send, by a credit-only message on a reserved control slot. That
//! message needs no credit and at most one is in flight, so two ends that both
//! ran out of credits can still unblock each other.
//!
//! An operation that posts work requests comes as a pair: `plan_*` says which
//! work requests to post, in order, and leaves the stream as it is; the operation
//! itself takes how many of them the queue pair accepted, counted from the first,
//! and applies what follows from that. A queue pair refuses a work request only
//! when it is dead, so a refusal closes the stream.

use std::collections::VecDeque;
use vstd::prelude::*;

pub mod completion;
pub mod facade;
pub mod laws;
pub mod link;
pub mod model;
pub mod rdma_write;
pub mod read;
pub mod send;
pub mod setup;

pub use self::model::{Ready, SendView, StreamState};

verus! {

/// Why a stream operation failed.
#[derive(Debug, Clone, Copy, PartialEq, Eq, Structural)]
pub enum StreamError {
    /// The stream is closed for writing.
    Closed,
    /// The queue pair refused a work request.
    Post,
    /// A message shorter than an envelope arrived.
    Runt {
        /// Bytes received.
        len: usize,
    },
    /// The message size both ends can use leaves no room for a payload.
    MessageSize {
        /// That size.
        effective: usize,
    },
    /// A one-sided write needs more work requests than the send pool has.
    TooManyWrs {
        /// Work requests needed.
        needed: usize,
        /// Size of the send pool.
        pool: usize,
    },
    /// A write-with-immediate without any segment to refer to.
    NoSegment,
    /// Send slots or transfer credits are momentarily used up; nothing was posted.
    WouldBlock,
    /// A write is back-pressured while nothing is in flight that could unblock it.
    Stalled,
    /// The connection closed before all sends were acknowledged.
    Unacknowledged,
    /// The connection closed before the RDMA write completed.
    WriteAborted,
    /// The transport failed, so that completions can no longer be had.
    Transport,
}

/// The peer's address as the connection manager resolved it.
#[derive(Debug, Clone, Copy, PartialEq, Eq, Structural)]
pub enum PeerAddr {
    /// IPv4 address bits and port.
    V4 {
        /// Address bits.
        ip: u32,
        /// Port.
        port: u16,
    },
    /// IPv6 address bits and port.
    V6 {
        /// Address bits.
        ip6: u128,
        /// Port.
        port: u16,
    },
}

/// A snapshot of a connection for logging and tenancy.
#[derive(Debug, Clone, Copy, PartialEq, Eq, Structural)]
pub struct ConnMeta {
    /// The peer's address, if the connection manager reports one.
    pub peer_addr: Option<PeerAddr>,
    /// When the handshake completed, in nanoseconds since the Unix epoch.
    pub established_at: u64,
    /// Whether zero-copy negotiated.
    pub zero_copy_negotiated: bool,
    /// Whether protocol splitting negotiated.
    pub split_mode_negotiated: bool,
}

/// A received payload that has not been read to its end. Its receive slot stays
/// taken, and its credit unreturned, until then.
#[derive(Debug)]
struct ReadyMsg {
    slot: usize,
    data: Vec<u8>,
    start: usize,
}

impl View for ReadyMsg {
    type V = Ready;

    closed spec fn view(&self) -> Ready {
        Ready { slot: self.slot, bytes: self.data@.skip(self.start as int) }
    }
}

impl ReadyMsg {
    spec fn in_bounds(self) -> bool {
        self.start <= self.data@.len()
    }
}

/// One end of a connection.
#[derive(Debug)]
pub struct HordStream {
    msg_size: usize,
    payload_cap: usize,
    recv_pool: usize,
    split_base: usize,
    split_headroom: usize,
    send_pool: usize,
    send_free: Vec<usize>,
    send_credits: u32,
    grant_pending: u32,
    ctrl_send_busy: bool,
    tx_stage: Vec<u8>,
    rx_ready: VecDeque<ReadyMsg>,
    peer_closed: bool,
    cm_watch: bool,
    peer_addr: Option<PeerAddr>,
    established_at: u64,
    zero_copy: bool,
    writes_outstanding: u32,
    split_mode: bool,
    split_posted: bool,
    completed_transfers: VecDeque<u32>,
    peer_split_credits: u32,
    imm_outstanding: u32,
}

impl View for HordStream {
    type V = StreamState;

    closed spec fn view(&self) -> StreamState {
        StreamState {
            msg_size: self.msg_size,
            payload_cap: self.payload_cap,
            recv_pool: self.recv_pool,
            split_base: self.split_base,
            split_headroom: self.split_headroom,
            send_pool: self.send_pool,
            send_free: self.send_free@,
            send_credits: self.send_credits,
            grant_pending: self.grant_pending,
            ctrl_send_busy: self.ctrl_send_busy,
            tx_stage: self.tx_stage@,
            rx_ready: self.rx_ready@.map_values(|m: ReadyMsg| m@),
            peer_closed: self.peer_closed,
            cm_watch: self.cm_watch,
            peer_addr: self.peer_addr,
            established_at: self.established_at,
            zero_copy: self.zero_copy,
            writes_outstanding: self.writes_outstanding,
            split_mode: self.split_mode,
            split_posted: self.split_posted,
            completed_transfers: self.completed_transfers@,
            peer_split_credits: self.peer_split_credits,
            imm_outstanding: self.imm_outstanding,
        }
    }
}

impl HordStream {
    /// The invariant that every operation keeps.
    pub closed spec fn wf(&self) -> bool {
        &&& self@.inv()
        &&& forall|i: int|
            0 <= i < self.rx_ready@.len() ==> (#[trigger] self.rx_ready@[i]).in_bounds()
    }

    /// What the invariant says of the state.
    pub proof fn lemma_wf(&self)
        requires
            self.wf(),
        ensures
            self@.inv(),
    {
    }

    /// Largest payload of one message after negotiation.
    pub fn payload_capacity(&self) -> (r: usize)
        ensures
            r == self@.payload_cap,
    {
        self.payload_cap
    }

    /// The peer's address, if the connection manager reported one.
    pub fn peer_addr(&self) -> (r: Option<PeerAddr>)
        ensures
            r == self@.peer_addr,
    {
        self.peer_addr
    }

    /// When the handshake completed, in nanoseconds since the Unix epoch.
    pub fn established_at(&self) -> (r: u64)
        ensures
            r == self@.established_at,
    {
        self.established_at
    }

    /// A snapshot of the connection.
    pub fn conn_meta(&self) -> (r: ConnMeta)
        ensures
            r == (ConnMeta {
                peer_addr: self@.peer_addr,
                established_at: self@.established_at,
                zero_copy_negotiated: self@.zero_copy,
                split_mode_negotiated: self@.split_mode,
            }),
    {
        ConnMeta {
            peer_addr: self.peer_addr,
            established_at: self.established_at,
            zero_copy_negotiated: self.zero_copy,
            split_mode_negotiated: self.split_mode,
        }
    }

    /// Whether both ends advertised zero-copy.
    pub fn zero_copy_negotiated(&self) -> (r: bool)
        ensures
            r == self@.zero_copy,
    {
        self.zero_copy
    }

    /// Whether protocol splitting negotiated.
    pub fn split_mode_negotiated(&self) -> (r: bool)
        ensures
            r == self@.split_mode,
    {
        self.split_mode
    }

    /// Takes the identifier of the next split transfer that arrived, in order of
    /// arrival.
    pub fn next_completed_transfer(&mut self) -> (r: Option<u32>)
        ensures
            old(self)@.completed_transfers.len() == 0 ==> r is None && final(self)@ == old(self)@,
            old(self)@.completed_transfers.len() > 0 ==> r == Some(
                old(self)@.completed_transfers[0],
            ) && final(self)@ == (StreamState {
                completed_transfers: old(self)@.completed_transfers.drop_first(),
                ..old(self)@
            }),
            old(self).wf() ==> final(self).wf(),
    {
        let r = self.completed_transfers.pop_front();
        proof {
            if old(self)@.completed_transfers.len() > 0 {
                assert(self.completed_transfers@ =~= old(self)@.completed_transfers.drop_first());
            }
        }
        r
    }

    /// Whether a split transfer arrived and was not taken yet.
    pub fn has_completed_transfers(&self) -> (r: bool)
        ensures
            r == (self@.completed_transfers.len() > 0),
    {
        self.completed_transfers.len() > 0
    }

    /// Whether a data send is unacknowledged.
    pub fn sends_outstanding(&self) -> (r: bool)
        ensures
            r == self@.sends_pending(),
    {
        self.send_free.len() < self.send_pool
    }

    /// Whether a one-sided write is unacknowledged.
    pub fn writes_pending(&self) -> (r: bool)
        ensures
            r == (self@.writes_outstanding > 0),
    {
        self.writes_outstanding > 0
    }

    /// Whether the peer or the transport closed the connection.
    pub fn is_closed(&self) -> (r: bool)
        ensures
            r == self@.peer_closed,
    {
        self.peer_closed
    }

    /// Whether the connection manager's channel is watched for a half-close.
    pub fn watches_cm(&self) -> (r: bool)
        ensures
            r == self@.cm_watch,
    {
        self.cm_watch
    }

    /// Closes the stream, as when the peer's half-close is observed.
    pub fn mark_closed(&mut self)
        ensures
            final(self)@ == (StreamState { peer_closed: true, ..old(self)@ }),
            old(self).wf() ==> final(self).wf(),
    {
        self.peer_closed = true;
    }

    /// Whether a data message can be posted: the stream is open and there are a
    /// free send slot and a credit.
    pub fn can_send_data(&self) -> (r: bool)
        ensures
            r == (self@.window() > 0),
    {
        !self.peer_closed && self.send_free.len() > 0 && self.send_credits > 0
    }

    /// Whether the debt to the peer can still be counted when one more message
    /// arrives and everything is read.
    pub fn debt_is_countable(&self) -> (r: bool)
        ensures
            r == (self@.grant_pending + self@.rx_ready.len() < u32::MAX),
    {
        let held: usize = self.rx_ready.len();
        assert(held == self@.rx_ready.len());
        held < (u32::MAX - self.grant_pending) as usize
    }

    /// Grants owed before an unprompted credit return is worth a message: a
    /// quarter of the data pool.
    pub fn proactive_threshold(&self) -> (r: u32)
        ensures
            r == self@.proactive(),
    {
        let q: u32 = self.recv_pool as u32 / 4;
        if q < 1 {
            1
        } else {
            q
        }
    }
}

} // verus!
