//! The decisions behind the blocking and the asynchronous faces of a stream.

use vstd::prelude::*;
use crate::stream::model::StreamState;
use crate::stream::{HordStream, StreamError};

verus! {

/// Empty polls of the completion queue between two looks at the connection
/// manager's channel.
pub const CM_DISCONNECT_POLL_SPINS: u32 = 4096;

/// What a pump does when the completion queue is empty.
#[derive(Debug, Clone, Copy, PartialEq, Eq, Structural)]
pub enum IdleStep {
    /// Return without having processed a completion.
    Return,
    /// Ask the connection manager for a half-close, then go on.
    CheckDisconnect,
    /// Poll again.
    Spin,
}

/// A loop that polls the completion queue until a completion has been processed.
#[derive(Debug, Clone, Copy, PartialEq, Eq, Structural)]
pub struct Pump {
    /// Empty polls since the last look at the connection manager's channel.
    pub spins: u32,
}

impl Pump {
    /// A pump that has not polled yet.
    pub fn new() -> (r: Pump)
        ensures
            r.spins == 0,
    {
        Pump { spins: 0 }
    }

    /// The completion queue was empty. A pump that does not block returns; one that
    /// does asks for a half-close after every [`CM_DISCONNECT_POLL_SPINS`] empty
    /// polls.
    pub fn on_empty(&mut self, block: bool) -> (r: IdleStep)
        requires
            old(self).spins < CM_DISCONNECT_POLL_SPINS,
        ensures
            final(self).spins < CM_DISCONNECT_POLL_SPINS,
            !block ==> r == IdleStep::Return && *final(self) == *old(self),
            block && old(self).spins + 1 == CM_DISCONNECT_POLL_SPINS ==> r
                == IdleStep::CheckDisconnect && final(self).spins == 0,
            block && old(self).spins + 1 < CM_DISCONNECT_POLL_SPINS ==> r == IdleStep::Spin
                && final(self).spins == old(self).spins + 1,
    {
        if !block {
            return IdleStep::Return;
        }
        self.spins = self.spins + 1;
        if self.spins >= CM_DISCONNECT_POLL_SPINS {
            self.spins = 0;
            IdleStep::CheckDisconnect
        } else {
            IdleStep::Spin
        }
    }
}

impl StreamState {
    /// Whether a flush has nothing left to wait for.
    pub open spec fn flushed(self) -> bool {
        self.tx_stage.len() == 0 && !self.sends_pending() && self.writes_outstanding == 0
    }

    /// What the delivery barrier reports when `accepted` of the work requests of its
    /// flush were taken.
    pub open spec fn barrier(self, accepted: int) -> Result<bool, StreamError> {
        let after = self.after_flush(accepted);
        if self.flush_result(accepted) is Err {
            self.flush_result(accepted)
        } else if after.flushed() {
            Ok(true)
        } else if after.peer_closed {
            Err(StreamError::Unacknowledged)
        } else {
            Ok(false)
        }
    }
}

impl HordStream {
    /// Takes the connection manager's answer to whether the peer disconnected.
    /// Returns whether the stream is now closed on that account; an answer on a
    /// channel that is not watched is ignored.
    pub fn poll_cm_disconnect(&mut self, disconnected: bool) -> (r: bool)
        ensures
            r == (old(self)@.cm_watch && disconnected),
            final(self)@ == (if r {
                old(self)@.closed()
            } else {
                old(self)@
            }),
            old(self).wf() ==> final(self).wf(),
    {
        if !self.cm_watch {
            return false;
        }
        if disconnected {
            self.peer_closed = true;
            return true;
        }
        false
    }

    /// Accepts bytes of `buf`, or `None` when no slot or credit is free and the
    /// caller must wait. `accepted` is as in [`try_write`](Self::try_write).
    pub fn try_write_from(&mut self, buf: &[u8], accepted: usize) -> (r: Result<
        Option<usize>,
        StreamError,
    >)
        requires
            old(self).wf(),
            old(self)@.ready(),
        ensures
            final(self).wf(),
            final(self)@ == old(self)@.after_write(buf@, accepted as int),
            r == (match old(self)@.write_result(buf@, accepted as int) {
                Err(e) => Err::<Option<usize>, StreamError>(e),
                Ok(n) => Ok(
                    if n > 0 {
                        Some(n)
                    } else {
                        None
                    },
                ),
            }),
    {
        match self.try_write(buf, accepted) {
            Err(e) => Err(e),
            Ok(n) => Ok(
                if n > 0 {
                    Some(n)
                } else {
                    None
                },
            ),
        }
    }

    /// The delivery barrier: `Ok(true)` once nothing is staged and every send and
    /// write has been acknowledged; an error when the connection closed before
    /// that; `Ok(false)` to wait. `accepted` is as in
    /// [`try_flush_stage`](Self::try_flush_stage).
    pub fn poll_flush_ready(&mut self, accepted: usize) -> (r: Result<bool, StreamError>)
        requires
            old(self).wf(),
            old(self)@.ready(),
        ensures
            final(self).wf(),
            final(self)@ == old(self)@.after_flush(accepted as int),
            r == old(self)@.barrier(accepted as int),
    {
        let stage_clear: bool = match self.try_flush_stage(accepted) {
            Ok(clear) => clear,
            Err(e) => {
                return Err(e);
            },
        };
        if stage_clear && !self.sends_outstanding() && !self.writes_pending() {
            return Ok(true);
        }
        if self.peer_closed {
            return Err(StreamError::Unacknowledged);
        }
        Ok(false)
    }

    /// The next split transfer: `Some(Some(id))` for one that arrived,
    /// `Some(None)` at the end of a closed connection, `None` to wait. Transfers
    /// that arrived are delivered even after the peer has gone.
    pub fn next_transfer(&mut self) -> (r: Option<Option<u32>>)
        ensures
            old(self)@.completed_transfers.len() > 0 ==> r == Some(
                Some(old(self)@.completed_transfers[0]),
            ) && final(self)@ == (StreamState {
                completed_transfers: old(self)@.completed_transfers.drop_first(),
                ..old(self)@
            }),
            old(self)@.completed_transfers.len() == 0 ==> final(self)@ == old(self)@ && r == (
            if old(self)@.peer_closed {
                Some(None::<u32>)
            } else {
                None
            }),
            old(self).wf() ==> final(self).wf(),
    {
        match self.next_completed_transfer() {
            Some(id) => Some(Some(id)),
            None => if self.peer_closed {
                Some(None)
            } else {
                None
            },
        }
    }
}

/// Once the delivery barrier reports success, every byte that was accepted before
/// has been acknowledged by the peer: nothing is staged, no send slot is in use and
/// no write is outstanding.
pub proof fn law_flush_is_a_barrier(s: StreamState, accepted: int)
    requires
        s.inv(),
        s.ready(),
        s.flush_result(accepted) is Ok,
        s.after_flush(accepted).flushed(),
    ensures
        s.after_flush(accepted).tx_stage.len() == 0,
        s.after_flush(accepted).send_free.len() >= s.after_flush(accepted).send_pool,
        s.after_flush(accepted).writes_outstanding == 0,
        s.tx_stage.len() == 0,
{
}

/// A flush waits for nothing but what is under way: with nothing staged, no send slot
/// in use and no write outstanding it is done, whatever has been received meanwhile.
pub proof fn law_flush_waits_for_nothing_else(s: StreamState)
    ensures
        s.flushed() <==> s.tx_stage.len() == 0 && s.send_free.len() >= s.send_pool
            && s.writes_outstanding == 0,
{
}

/// The delivery barrier succeeds exactly if afterwards nothing is staged and every
/// send and write has been acknowledged. It asks to wait only on an open connection
/// with something under way; on a closed one, what was not acknowledged is an error.
pub proof fn law_barrier_is_exact(s: StreamState, accepted: int)
    requires
        s.inv(),
        s.ready(),
        0 <= accepted <= s.flush_posts().len(),
    ensures
        ({
            let after = s.after_flush(accepted);
            let refused = accepted < s.flush_posts().len();
            let quiet = after.tx_stage.len() == 0 && after.send_free.len() >= after.send_pool
                && after.writes_outstanding == 0;
            let r = s.barrier(accepted);
            &&& r == Ok::<bool, StreamError>(true) <==> !refused && quiet
            &&& r == Ok::<bool, StreamError>(false) <==> !refused && !quiet && !after.peer_closed
            &&& r == Err::<bool, StreamError>(StreamError::Unacknowledged) <==> !refused && !quiet
                && after.peer_closed
            &&& r == Err::<bool, StreamError>(StreamError::Post) <==> refused
        }),
{
}

} // verus!
