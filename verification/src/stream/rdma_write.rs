//! One-sided writes: admission, work requests and the post-then-drain discipline.

use vstd::prelude::*;
use crate::gather::{
    gather_plan, law_gather_caps, law_gather_empty, law_gather_keeps_positions,
    law_gather_stays_in_span, lays_down, plan_batches, plan_gather, plan_offset, plannable,
    segments_len, sge_limit, sges_bytes, sges_len, source_bytes, splits, GatherWr, WriteBatch,
    WriteSegment, WRITE_WR_MAX,
};
use crate::stream::model::StreamState;
use crate::stream::{HordStream, StreamError};
use crate::verbs::{RegisteredBuffer, Sge};
use crate::wr_id::{
    immediates, imm_write_wr_id, law_wr_id_lanes, sends, slot_in, write_wr_id, writes, IMM_FLAG,
    SLOT_LIMIT, WRITE_FLAG,
};

verus! {

/// A one-sided write to post: the spans `sges` go to `remote_addr` of the peer,
/// authorised by `rkey`; with an immediate the peer is told.
#[derive(Debug, PartialEq, Eq)]
pub struct WriteWr {
    /// Work-request identifier.
    pub wr_id: u64,
    /// Source spans, in order.
    pub sges: Vec<Sge>,
    /// Destination in the peer's memory.
    pub remote_addr: u64,
    /// The peer's key for it.
    pub rkey: u32,
    /// The transfer identifier to deliver.
    pub imm: Option<u32>,
}

/// [`WriteWr`] as a mathematical value.
#[verifier::ext_equal]
pub struct WriteView {
    /// Work-request identifier.
    pub wr_id: u64,
    /// Source spans, in order.
    pub sges: Seq<Sge>,
    /// Destination in the peer's memory.
    pub remote_addr: u64,
    /// The peer's key for it.
    pub rkey: u32,
    /// The transfer identifier to deliver.
    pub imm: Option<u32>,
}

impl View for WriteWr {
    type V = WriteView;

    open spec fn view(&self) -> WriteView {
        WriteView {
            wr_id: self.wr_id,
            sges: self.sges@,
            remote_addr: self.remote_addr,
            rkey: self.rkey,
            imm: self.imm,
        }
    }
}

/// The writes of a plan as mathematical values.
pub open spec fn write_views(wrs: Seq<WriteWr>) -> Seq<WriteView> {
    wrs.map_values(|w: WriteWr| w@)
}

/// The work requests of a gather write, when the stream is open and they are
/// admitted: those of the plan at consecutive addresses, the immediate on the
/// last; or, when there are no bytes but there is an immediate, one empty write
/// that refers to the first segment.
pub open spec fn write_wrs(
    segs: Seq<WriteSegment>,
    max_sge: usize,
    peer_addr: u64,
    rkey: u32,
    imm: Option<u32>,
) -> Seq<WriteView> {
    let plan = gather_plan(segs, max_sge);
    if plan.len() == 0 {
        if imm is Some {
            seq![
                WriteView {
                    wr_id: WRITE_FLAG | IMM_FLAG | 0,
                    sges: seq![Sge { addr: segs[0].local_addr, length: 0, lkey: segs[0].lkey }],
                    remote_addr: peer_addr,
                    rkey,
                    imm,
                },
            ]
        } else {
            seq![]
        }
    } else {
        Seq::new(
            plan.len(),
            |k: int|
                {
                    let imm_here = if k == plan.len() - 1 {
                        imm
                    } else {
                        None
                    };
                    WriteView {
                        wr_id: if imm_here is Some {
                            WRITE_FLAG | IMM_FLAG | (k as u64)
                        } else {
                            WRITE_FLAG | (k as u64)
                        },
                        sges: plan[k],
                        remote_addr: (peer_addr + plan_offset(plan, k)) as u64,
                        rkey,
                        imm: imm_here,
                    }
                },
        )
    }
}

/// Work requests that a gather write needs.
pub open spec fn write_count(segs: Seq<WriteSegment>, max_sge: usize, imm: Option<u32>) -> int {
    let n = gather_plan(segs, max_sge).len() as int;
    if n == 0 && imm is Some {
        1
    } else {
        n
    }
}

/// What beginning a gather write returns.
pub open spec fn begin_result(
    s: StreamState,
    segs: Seq<WriteSegment>,
    max_sge: usize,
    peer_addr: u64,
    rkey: u32,
    imm: Option<u32>,
) -> Result<Seq<WriteView>, StreamError> {
    let n = write_count(segs, max_sge, imm);
    if s.peer_closed {
        Err(StreamError::Closed)
    } else if n == 0 {
        Ok(seq![])
    } else {
        match s.capacity(n, imm is Some) {
            Err(e) => Err(e),
            Ok(()) => if gather_plan(segs, max_sge).len() == 0 && segs.len() == 0 {
                Err(StreamError::NoSegment)
            } else {
                Ok(write_wrs(segs, max_sge, peer_addr, rkey, imm))
            },
        }
    }
}

/// Every planned work request starts inside the peer's address space.
pub open spec fn addressable(segs: Seq<WriteSegment>, max_sge: usize, peer_addr: u64) -> bool {
    let plan = gather_plan(segs, max_sge);
    forall|k: int| 0 <= k < plan.len() ==> peer_addr + #[trigger] plan_offset(plan, k) <= u64::MAX
}

/// The segment `src[off .. off + len]`.
pub open spec fn span_of(src: RegisteredBuffer, off: usize, len: usize) -> WriteSegment {
    WriteSegment { local_addr: (src.addr + off) as u64, lkey: src.local_key, length: len }
}

/// Whether a result agrees with its mathematical counterpart.
pub open spec fn begins(
    r: Result<Vec<WriteWr>, StreamError>,
    expected: Result<Seq<WriteView>, StreamError>,
) -> bool {
    match (r, expected) {
        (Ok(wrs), Ok(views)) => write_views(wrs@) == views,
        (Err(e), Err(f)) => e == f,
        _ => false,
    }
}

impl HordStream {
    /// Whether a batch of `n_wrs` one-sided writes may be posted, with an
    /// immediate on the last if `has_imm`.
    pub fn check_write_capacity(&self, n_wrs: usize, has_imm: bool) -> (r: Result<(), StreamError>)
        ensures
            r == self@.capacity(n_wrs as int, has_imm),
    {
        let free_slots: usize = self.send_free.len().saturating_sub(
            self.writes_outstanding as usize,
        );
        if n_wrs > self.send_pool {
            return Err(StreamError::TooManyWrs { needed: n_wrs, pool: self.send_pool });
        }
        if n_wrs > free_slots {
            return Err(StreamError::WouldBlock);
        }
        if has_imm && self.imm_outstanding >= self.peer_split_credits {
            return Err(StreamError::WouldBlock);
        }
        Ok(())
    }

    fn begin_rdma_write_gather_inner(
        &self,
        segments: &[WriteSegment],
        max_sge: usize,
        peer_addr: u64,
        peer_rkey: u32,
        imm: Option<u32>,
    ) -> (r: Result<Vec<WriteWr>, StreamError>)
        requires
            plannable(segments@),
            addressable(segments@, max_sge, peer_addr),
        ensures
            begins(
                r,
                begin_result(self@, segments@, max_sge, peer_addr, peer_rkey, imm),
            ),
    {
        if self.peer_closed {
            return Err(StreamError::Closed);
        }
        let plan: Vec<GatherWr> = plan_gather(segments, max_sge);
        let ghost packed = gather_plan(segments@, max_sge);
        let n_data: usize = plan.len();
        let n_wrs: usize = if n_data == 0 && imm.is_some() {
            1
        } else {
            n_data
        };
        let mut wrs: Vec<WriteWr> = Vec::new();
        if n_wrs == 0 {
            assert(write_views(wrs@) =~= seq![]);
            return Ok(wrs);
        }
        match self.check_write_capacity(n_wrs, imm.is_some()) {
            Ok(()) => {},
            Err(e) => {
                return Err(e);
            },
        }
        let ghost expected = write_wrs(segments@, max_sge, peer_addr, peer_rkey, imm);
        if n_data == 0 {
            if segments.len() == 0 {
                return Err(StreamError::NoSegment);
            }
            let seg: WriteSegment = segments[0];
            let mut sges: Vec<Sge> = Vec::new();
            sges.push(Sge { addr: seg.local_addr, length: 0, lkey: seg.lkey });
            assert(sges@ =~= seq![Sge { addr: seg.local_addr, length: 0, lkey: seg.lkey }]);
            wrs.push(
                WriteWr {
                    wr_id: imm_write_wr_id(0),
                    sges,
                    remote_addr: peer_addr,
                    rkey: peer_rkey,
                    imm,
                },
            );
            assert(write_views(wrs@) =~= expected);
            return Ok(wrs);
        }
        let mut idx: usize = 0;
        while idx < n_data
            invariant
                idx <= n_data,
                n_data == packed.len(),
                n_data == plan@.len(),
                n_data > 0,
                lays_down(plan@, packed),
                packed == gather_plan(segments@, max_sge),
                addressable(segments@, max_sge, peer_addr),
                expected == write_wrs(segments@, max_sge, peer_addr, peer_rkey, imm),
                write_views(wrs@) == expected.take(idx as int),
            decreases n_data - idx,
        {
            let ghost before = wrs@;
            let imm_here: Option<u32> = if idx == n_data - 1 {
                imm
            } else {
                None
            };
            let wr_id: u64 = if imm_here.is_some() {
                imm_write_wr_id(idx as u64)
            } else {
                write_wr_id(idx as u64)
            };
            let wr: &GatherWr = &plan[idx];
            assert(peer_addr + plan_offset(packed, idx as int) <= u64::MAX);
            let sges: Vec<Sge> = wr.sges.clone();
            assert(sges@ =~= wr.sges@);
            let w = WriteWr {
                wr_id,
                sges,
                remote_addr: peer_addr + wr.remote_off,
                rkey: peer_rkey,
                imm: imm_here,
            };
            assert(w@ =~= expected[idx as int]);
            wrs.push(w);
            idx = idx + 1;
            assert(write_views(wrs@) =~= write_views(before).push(w@));
            assert(write_views(wrs@) =~= expected.take(idx as int));
        }
        assert(write_views(wrs@) =~= expected);
        Ok(wrs)
    }

    /// Begins a gather write: admits it and gives the work requests to post, which
    /// lay the segments down contiguously from `peer_addr` on. On an error nothing
    /// is to be posted. The outcome of posting goes to
    /// [`writes_posted`](Self::writes_posted).
    pub fn begin_rdma_write_gather(
        &self,
        segments: &[WriteSegment],
        max_sge: usize,
        peer_addr: u64,
        peer_rkey: u32,
    ) -> (r: Result<Vec<WriteWr>, StreamError>)
        requires
            plannable(segments@),
            addressable(segments@, max_sge, peer_addr),
        ensures
            begins(r, begin_result(self@, segments@, max_sge, peer_addr, peer_rkey, None)),
    {
        self.begin_rdma_write_gather_inner(segments, max_sge, peer_addr, peer_rkey, None)
    }

    /// Like [`begin_rdma_write_gather`](Self::begin_rdma_write_gather), with
    /// `transfer_id` delivered to the peer by the last work request. A write
    /// without bytes still delivers it.
    pub fn begin_rdma_write_gather_with_imm(
        &self,
        segments: &[WriteSegment],
        max_sge: usize,
        peer_addr: u64,
        peer_rkey: u32,
        transfer_id: u32,
    ) -> (r: Result<Vec<WriteWr>, StreamError>)
        requires
            plannable(segments@),
            addressable(segments@, max_sge, peer_addr),
        ensures
            begins(
                r,
                begin_result(
                    self@,
                    segments@,
                    max_sge,
                    peer_addr,
                    peer_rkey,
                    Some(transfer_id),
                ),
            ),
    {
        self.begin_rdma_write_gather_inner(
            segments,
            max_sge,
            peer_addr,
            peer_rkey,
            Some(transfer_id),
        )
    }

    /// Begins a write of `src[src_off .. src_off + len]`: a gather write of one
    /// segment.
    pub fn begin_rdma_write(
        &self,
        src: &RegisteredBuffer,
        src_off: usize,
        max_sge: usize,
        peer_addr: u64,
        peer_rkey: u32,
        len: usize,
    ) -> (r: Result<Vec<WriteWr>, StreamError>)
        requires
            src.well_formed(),
            src.covers(src_off as int, len as int),
            addressable(seq![span_of(*src, src_off, len)], max_sge, peer_addr),
        ensures
            begins(
                r,
                begin_result(
                    self@,
                    seq![span_of(*src, src_off, len)],
                    max_sge,
                    peer_addr,
                    peer_rkey,
                    None,
                ),
            ),
    {
        self.begin_rdma_write_inner(src, src_off, max_sge, peer_addr, peer_rkey, len, None)
    }

    /// Like [`begin_rdma_write`](Self::begin_rdma_write), with `transfer_id`
    /// delivered to the peer by the last work request.
    pub fn begin_rdma_write_with_imm(
        &self,
        src: &RegisteredBuffer,
        src_off: usize,
        max_sge: usize,
        peer_addr: u64,
        peer_rkey: u32,
        len: usize,
        transfer_id: u32,
    ) -> (r: Result<Vec<WriteWr>, StreamError>)
        requires
            src.well_formed(),
            src.covers(src_off as int, len as int),
            addressable(seq![span_of(*src, src_off, len)], max_sge, peer_addr),
        ensures
            begins(
                r,
                begin_result(
                    self@,
                    seq![span_of(*src, src_off, len)],
                    max_sge,
                    peer_addr,
                    peer_rkey,
                    Some(transfer_id),
                ),
            ),
    {
        self.begin_rdma_write_inner(
            src,
            src_off,
            max_sge,
            peer_addr,
            peer_rkey,
            len,
            Some(transfer_id),
        )
    }

    fn begin_rdma_write_inner(
        &self,
        src: &RegisteredBuffer,
        src_off: usize,
        max_sge: usize,
        peer_addr: u64,
        peer_rkey: u32,
        len: usize,
        imm: Option<u32>,
    ) -> (r: Result<Vec<WriteWr>, StreamError>)
        requires
            src.well_formed(),
            src.covers(src_off as int, len as int),
            addressable(seq![span_of(*src, src_off, len)], max_sge, peer_addr),
        ensures
            begins(
                r,
                begin_result(
                    self@,
                    seq![span_of(*src, src_off, len)],
                    max_sge,
                    peer_addr,
                    peer_rkey,
                    imm,
                ),
            ),
    {
        let seg: WriteSegment = WriteSegment::from_registered(src, src_off, len);
        let segs: [WriteSegment; 1] = [seg];
        proof {
            assert(segs@ =~= seq![seg]);
            assert(segs@.drop_last() =~= seq![]);
            assert(crate::gather::segments_len(segs@.drop_last()) == 0);
        }
        self.begin_rdma_write_gather_inner(&segs, max_sge, peer_addr, peer_rkey, imm)
    }

    /// Applies the outcome of posting the `n` work requests of a begun write, of
    /// which `accepted` were taken. A refusal closes the stream; what was taken
    /// before it stays outstanding and must still be drained.
    pub fn writes_posted(&mut self, n: usize, has_imm: bool, accepted: usize) -> (r: Result<
        (),
        StreamError,
    >)
        requires
            old(self).wf(),
            has_imm ==> n > 0,
            old(self)@.capacity(n as int, has_imm) is Ok,
        ensures
            final(self).wf(),
            final(self)@ == old(self)@.after_writes(n as int, has_imm, accepted as int),
            r == (if accepted < n {
                Err::<(), StreamError>(StreamError::Post)
            } else {
                Ok(())
            }),
    {
        let taken: usize = if accepted < n {
            accepted
        } else {
            n
        };
        self.writes_outstanding = self.writes_outstanding + taken as u32;
        if accepted < n {
            self.peer_closed = true;
            return Err(StreamError::Post);
        }
        if has_imm {
            self.imm_outstanding = self.imm_outstanding + 1;
        }
        Ok(())
    }

    /// Whether the queue pair has to be torn down before the sources of a write are
    /// released, when its driver leaves now, for whatever reason: work requests are
    /// outstanding that still read them.
    pub fn must_quiesce(&self) -> (r: bool)
        ensures
            r == (self@.writes_outstanding > 0),
    {
        self.writes_pending()
    }

    /// Takes note that the queue pair was torn down: none of its work requests
    /// touches memory any more, and the stream is closed.
    pub fn quiesced(&mut self)
        ensures
            final(self)@ == old(self)@.after_teardown(),
            old(self).wf() ==> final(self).wf(),
    {
        self.writes_outstanding = 0;
        self.imm_outstanding = 0;
        self.peer_closed = true;
    }

    /// Splits a gather write into batches that each fit the send queue. Each is
    /// drained before the next is begun.
    pub fn plan_write_batches(
        &self,
        segments: &[WriteSegment],
        max_sge: usize,
        peer_addr: u64,
        imm: Option<u32>,
    ) -> (r: Vec<WriteBatch>)
        requires
            plannable(segments@),
            peer_addr + crate::gather::segments_len(segments@) <= u64::MAX,
        ensures
            splits(r@, segments@, peer_addr, imm, max_sge, self@.send_pool),
    {
        plan_batches(segments, peer_addr, imm, max_sge, self.send_pool)
    }
}

/// How far a driven write has got.
#[derive(Debug, Clone, Copy, PartialEq, Eq)]
pub enum WriteDrive {
    /// Nothing has been posted.
    Posting,
    /// Posting ended with this outcome; posted work requests are being drained.
    Draining(Result<(), StreamError>),
}

/// What to do next for a driven write.
#[derive(Debug, Clone, Copy, PartialEq, Eq)]
pub enum DriveAction {
    /// Begin the write, post what it gives, and hand the outcome to
    /// [`WriteDrive::begun`].
    Begin,
    /// Process at least one completion, and hand the outcome to
    /// [`WriteDrive::pumped`].
    Pump,
    /// Tear the queue pair down, note it with [`HordStream::quiesced`], and ask
    /// [`WriteDrive::next`].
    Teardown,
    /// The write is over.
    Done(Result<(), StreamError>),
}

impl WriteDrive {
    /// The state once beginning and posting the write ended with `outcome`, and
    /// what to do then. Back-pressure is waited out as long as something is in
    /// flight that can clear it.
    pub open spec fn after_begin(s: StreamState, outcome: Result<(), StreamError>) -> WriteDrive {
        if outcome == Err::<(), StreamError>(StreamError::WouldBlock) {
            if !s.sends_pending() && s.writes_outstanding == 0 {
                WriteDrive::Draining(Err(StreamError::Stalled))
            } else {
                WriteDrive::Posting
            }
        } else {
            WriteDrive::Draining(outcome)
        }
    }

    /// The state once processing completions ended with `outcome`: the first error
    /// is kept, and after one nothing more is posted.
    pub open spec fn after_pump(self, outcome: Result<(), StreamError>) -> WriteDrive {
        match (self, outcome) {
            (WriteDrive::Posting, Err(e)) => WriteDrive::Draining(Err(e)),
            (WriteDrive::Draining(Ok(())), Err(e)) => WriteDrive::Draining(Err(e)),
            _ => self,
        }
    }

    /// What to do in a draining state: drain every posted work request first, then
    /// report the first error, then a connection that closed meanwhile.
    pub open spec fn draining(s: StreamState, outcome: Result<(), StreamError>) -> DriveAction {
        if s.writes_outstanding > 0 {
            DriveAction::Pump
        } else if outcome is Err {
            DriveAction::Done(outcome)
        } else if s.peer_closed {
            DriveAction::Done(Err(StreamError::WriteAborted))
        } else {
            DriveAction::Done(Ok(()))
        }
    }

    /// What to do in this state.
    pub open spec fn action(self, s: StreamState) -> DriveAction {
        match self {
            WriteDrive::Posting => DriveAction::Begin,
            WriteDrive::Draining(o) => WriteDrive::draining(s, o),
        }
    }

    /// What to do once processing completions ended with `outcome`. After a failure
    /// draining goes on, except that a transport that gives no more completions is
    /// torn down instead.
    pub open spec fn action_after_pump(
        self,
        s: StreamState,
        outcome: Result<(), StreamError>,
    ) -> DriveAction {
        if outcome == Err::<(), StreamError>(StreamError::Transport) && s.writes_outstanding > 0 {
            DriveAction::Teardown
        } else {
            self.after_pump(outcome).action(s)
        }
    }

    /// A write of which nothing has been posted.
    pub fn new() -> (r: WriteDrive)
        ensures
            r == WriteDrive::Posting,
    {
        WriteDrive::Posting
    }

    /// Takes the outcome of beginning and posting the write. Back-pressure asks
    /// for a completion to be processed before the next attempt.
    pub fn begun(&mut self, stream: &HordStream, outcome: Result<(), StreamError>) -> (r: DriveAction)
        ensures
            *final(self) == WriteDrive::after_begin(stream@, outcome),
            r == (match *final(self) {
                WriteDrive::Posting => DriveAction::Pump,
                WriteDrive::Draining(o) => WriteDrive::draining(stream@, o),
            }),
            r is Done ==> stream@.writes_outstanding == 0,
    {
        match outcome {
            Err(StreamError::WouldBlock) => {
                if !stream.sends_outstanding() && !stream.writes_pending() {
                    *self = WriteDrive::Draining(Err(StreamError::Stalled));
                } else {
                    *self = WriteDrive::Posting;
                    return DriveAction::Pump;
                }
            },
            other => {
                *self = WriteDrive::Draining(other);
            },
        }
        self.next(stream)
    }

    /// Takes the outcome of processing completions. A failure does not end the
    /// write while work requests are outstanding: the first error is kept, and they
    /// are drained, or torn down with the queue pair, before it is reported.
    pub fn pumped(&mut self, stream: &HordStream, outcome: Result<(), StreamError>) -> (r:
        DriveAction)
        ensures
            *final(self) == old(self).after_pump(outcome),
            r == old(self).action_after_pump(stream@, outcome),
            r is Done ==> stream@.writes_outstanding == 0,
    {
        if let Err(e) = outcome {
            let first: bool = match self {
                WriteDrive::Draining(Err(_)) => false,
                _ => true,
            };
            if first {
                *self = WriteDrive::Draining(Err(e));
            }
            if matches!(e, StreamError::Transport) && stream.writes_pending() {
                return DriveAction::Teardown;
            }
        }
        self.next(stream)
    }

    /// What to do next.
    pub fn next(&self, stream: &HordStream) -> (r: DriveAction)
        ensures
            r == self.action(stream@),
            r is Done ==> stream@.writes_outstanding == 0,
    {
        match self {
            WriteDrive::Posting => DriveAction::Begin,
            WriteDrive::Draining(outcome) => {
                if stream.writes_pending() {
                    return DriveAction::Pump;
                }
                match outcome {
                    Err(e) => DriveAction::Done(Err(*e)),
                    Ok(()) => if stream.is_closed() {
                        DriveAction::Done(Err(StreamError::WriteAborted))
                    } else {
                        DriveAction::Done(Ok(()))
                    },
                }
            },
        }
    }
}

/// A driven write ends only when nothing that was posted is outstanding, whether
/// it succeeds or fails and whatever failed, so its sources may be released then.
/// It succeeds only if no step of it failed and the connection is open, and once a
/// step has failed, that error is what it ends with.
pub proof fn law_a_write_ends_drained(
    drive: WriteDrive,
    s: StreamState,
    outcome: Result<(), StreamError>,
)
    ensures
        drive.action(s) is Done ==> s.writes_outstanding == 0,
        WriteDrive::after_begin(s, outcome).action(s) is Done ==> s.writes_outstanding == 0,
        drive.action_after_pump(s, outcome) is Done ==> s.writes_outstanding == 0,
        drive.action(s) matches DriveAction::Done(Ok(_)) ==> !s.peer_closed
            && drive matches WriteDrive::Draining(Ok(_)),
        drive matches WriteDrive::Draining(Err(e)) ==> {
            &&& drive.after_pump(outcome) == drive
            &&& drive.action(s) is Done ==> drive.action(s) == DriveAction::Done(Err(e))
        },
        outcome is Err ==> drive.after_pump(outcome) matches WriteDrive::Draining(Err(_)),
{
}

/// A torn-down queue pair leaves nothing outstanding, so a driven write ends then
/// and does not report success.
pub proof fn law_a_torn_down_write_ends(s: StreamState, outcome: Result<(), StreamError>)
    ensures
        s.inv() ==> s.after_teardown().inv(),
        s.after_teardown().peer_closed && s.after_teardown().writes_outstanding == 0,
        WriteDrive::Draining(outcome).action(s.after_teardown()) matches DriveAction::Done(Err(_)),
{
}

/// The work requests of a gather write land contiguously: the first at the start of
/// the destination, each further one where the one before it ends, and the last ends
/// as many bytes behind the start as the segments hold.
pub proof fn law_write_lands_contiguously(
    s: StreamState,
    segs: Seq<WriteSegment>,
    max_sge: usize,
    peer_addr: u64,
    rkey: u32,
    imm: Option<u32>,
    k: int,
)
    requires
        plannable(segs),
        addressable(segs, max_sge, peer_addr),
        begin_result(s, segs, max_sge, peer_addr, rkey, imm) is Ok,
        0 <= k < begin_result(s, segs, max_sge, peer_addr, rkey, imm)->Ok_0.len(),
    ensures
        ({
            let wrs = begin_result(s, segs, max_sge, peer_addr, rkey, imm)->Ok_0;
            let last = wrs[wrs.len() - 1];
            &&& wrs[0].remote_addr == peer_addr
            &&& k > 0 ==> wrs[k].remote_addr == wrs[k - 1].remote_addr + sges_len(wrs[k - 1].sges)
            &&& last.remote_addr + sges_len(last.sges) == peer_addr + segments_len(segs)
        }),
{
    let wrs = begin_result(s, segs, max_sge, peer_addr, rkey, imm)->Ok_0;
    let plan = gather_plan(segs, max_sge);
    law_gather_empty(segs, max_sge);
    if plan.len() > 0 {
        let n = plan.len() as int;
        law_gather_stays_in_span(segs, max_sge, n - 1);
        assert(peer_addr + plan_offset(plan, 0) <= u64::MAX);
        assert(peer_addr + plan_offset(plan, n - 1) <= u64::MAX);
        assert(peer_addr + plan_offset(plan, k) <= u64::MAX);
        if k > 0 {
            assert(peer_addr + plan_offset(plan, k - 1) <= u64::MAX);
        }
    } else {
        assert(wrs[0].sges.drop_last() =~= seq![]);
        assert(sges_len(wrs[0].sges.drop_last()) == 0);
    }
}

/// A gather write puts byte `i` of its segments, one after the other, at byte `i` of
/// the destination: byte `j` of a work request is the source byte that stands as far
/// from the start of the source as its address from the start of the destination.
pub proof fn law_write_puts_each_byte_in_its_place(
    s: StreamState,
    segs: Seq<WriteSegment>,
    max_sge: usize,
    peer_addr: u64,
    rkey: u32,
    imm: Option<u32>,
    k: int,
    j: int,
)
    requires
        plannable(segs),
        addressable(segs, max_sge, peer_addr),
        begin_result(s, segs, max_sge, peer_addr, rkey, imm) is Ok,
        0 <= k < begin_result(s, segs, max_sge, peer_addr, rkey, imm)->Ok_0.len(),
        0 <= j < sges_len(begin_result(s, segs, max_sge, peer_addr, rkey, imm)->Ok_0[k].sges),
    ensures
        ({
            let wr = begin_result(s, segs, max_sge, peer_addr, rkey, imm)->Ok_0[k];
            let i = wr.remote_addr + j - peer_addr;
            &&& 0 <= i < segments_len(segs)
            &&& sges_bytes(wr.sges)[j] == source_bytes(segs, 0, 0)[i]
        }),
{
    let wrs = begin_result(s, segs, max_sge, peer_addr, rkey, imm)->Ok_0;
    let plan = gather_plan(segs, max_sge);
    if plan.len() > 0 {
        assert(peer_addr + plan_offset(plan, k) <= u64::MAX);
        law_gather_keeps_positions(segs, max_sge, k, j);
    } else {
        assert(wrs[0].sges.drop_last() =~= seq![]);
        assert(sges_len(wrs[0].sges.drop_last()) == 0);
    }
}

/// Every work request of a gather write is authorised by the peer's key, marked as a
/// one-sided write with its position, and holds at least one element and no more than
/// the limits allow. The immediate is on the last one only, which is marked for it. A
/// write without bytes posts nothing, or a single empty request if it has an
/// immediate to deliver.
pub proof fn law_write_marks_its_requests(
    s: StreamState,
    segs: Seq<WriteSegment>,
    max_sge: usize,
    peer_addr: u64,
    rkey: u32,
    imm: Option<u32>,
    k: int,
)
    requires
        plannable(segs),
        begin_result(s, segs, max_sge, peer_addr, rkey, imm) is Ok,
        0 <= k < begin_result(s, segs, max_sge, peer_addr, rkey, imm)->Ok_0.len(),
        begin_result(s, segs, max_sge, peer_addr, rkey, imm)->Ok_0.len() <= SLOT_LIMIT,
        k <= usize::MAX,
    ensures
        ({
            let wrs = begin_result(s, segs, max_sge, peer_addr, rkey, imm)->Ok_0;
            let wr = wrs[k];
            &&& wr.rkey == rkey
            &&& wr.imm == (if k == wrs.len() - 1 {
                imm
            } else {
                None
            })
            &&& writes(wr.wr_id) && !sends(wr.wr_id) && slot_in(wr.wr_id) == k
            &&& immediates(wr.wr_id) <==> wr.imm is Some
            &&& 1 <= wr.sges.len() <= sge_limit(max_sge)
            &&& sges_len(wr.sges) <= WRITE_WR_MAX
            &&& segments_len(segs) == 0 ==> wrs.len() == 1 && imm is Some
        }),
{
    let wrs = begin_result(s, segs, max_sge, peer_addr, rkey, imm)->Ok_0;
    let plan = gather_plan(segs, max_sge);
    law_wr_id_lanes(k as usize);
    law_gather_empty(segs, max_sge);
    if plan.len() > 0 {
        law_gather_caps(segs, max_sge, k);
    } else {
        assert(wrs[0].sges.drop_last() =~= seq![]);
        assert(sges_len(wrs[0].sges.drop_last()) == 0);
    }
}

/// A gather write is begun exactly if the stream is open, the send queue has room for
/// its work requests and, with an immediate, the peer can receive one more transfer
/// and there is a segment to refer to. A write without bytes or immediate always is,
/// on an open stream.
pub proof fn law_write_is_admitted(
    s: StreamState,
    segs: Seq<WriteSegment>,
    max_sge: usize,
    peer_addr: u64,
    rkey: u32,
    imm: Option<u32>,
)
    requires
        s.inv(),
        plannable(segs),
    ensures
        ({
            let r = begin_result(s, segs, max_sge, peer_addr, rkey, imm);
            let plan = gather_plan(segs, max_sge).len();
            let needed: int = if plan == 0 && imm is Some {
                1
            } else {
                plan as int
            };
            let fits = s.writes_outstanding + needed <= s.send_free.len();
            let window = imm is None || s.imm_outstanding < s.peer_split_credits;
            &&& r is Ok <==> !s.peer_closed && (needed == 0 || (fits && window && segs.len() > 0))
            &&& r matches Ok(wrs) ==> wrs.len() == needed
            &&& r matches Err(e) ==> (e == (if s.peer_closed {
                StreamError::Closed
            } else if needed > s.send_pool {
                StreamError::TooManyWrs { needed: needed as usize, pool: s.send_pool }
            } else if !fits || !window {
                StreamError::WouldBlock
            } else {
                StreamError::NoSegment
            }))
        }),
{
    law_gather_empty(segs, max_sge);
    if segs.len() == 0 {
        assert(segments_len(segs) == 0);
    }
}

/// A driven write waits out back-pressure as long as something is under way that can
/// clear it, and gives up if nothing is. Any other outcome of posting is kept until
/// everything posted is drained, and completions that go well change nothing.
pub proof fn law_back_pressure_is_waited_out(
    drive: WriteDrive,
    s: StreamState,
    outcome: Result<(), StreamError>,
)
    ensures
        ({
            let blocked = outcome == Err::<(), StreamError>(StreamError::WouldBlock);
            let under_way = s.send_free.len() < s.send_pool || s.writes_outstanding > 0;
            let after = WriteDrive::after_begin(s, outcome);
            &&& blocked && under_way ==> after == WriteDrive::Posting
            &&& blocked && !under_way ==> after == WriteDrive::Draining(
                Err::<(), StreamError>(StreamError::Stalled),
            )
            &&& !blocked ==> after == WriteDrive::Draining(outcome)
        }),
        outcome is Ok ==> drive.after_pump(outcome) == drive,
        drive == WriteDrive::Posting ==> drive.action(s) == DriveAction::Begin,
        s.writes_outstanding > 0 ==> WriteDrive::Draining(outcome).action(s) == DriveAction::Pump,
        s.writes_outstanding == 0 && outcome is Err ==> WriteDrive::Draining(outcome).action(s)
            == DriveAction::Done(outcome),
        s.writes_outstanding == 0 && outcome is Ok && !s.peer_closed ==> (WriteDrive::Draining(
            outcome,
        ).action(s) matches DriveAction::Done(Ok(_))),
        s.writes_outstanding == 0 && s.peer_closed && outcome is Ok ==> WriteDrive::Draining(
            outcome,
        ).action(s) == DriveAction::Done(Err::<(), StreamError>(StreamError::WriteAborted)),
        drive.action_after_pump(s, outcome) == DriveAction::Teardown <==> outcome == Err::<
            (),
            StreamError,
        >(StreamError::Transport) && s.writes_outstanding > 0,
{
}

/// A write of no bytes moves none: without an immediate nothing is posted, and with one
/// a single request delivers it, of no length, at the start of the destination.
pub proof fn law_empty_write_moves_no_bytes(
    segs: Seq<WriteSegment>,
    max_sge: usize,
    peer_addr: u64,
    rkey: u32,
    imm: Option<u32>,
)
    requires
        plannable(segs),
        segments_len(segs) == 0,
        segs.len() > 0,
    ensures
        ({
            let wrs = write_wrs(segs, max_sge, peer_addr, rkey, imm);
            &&& write_count(segs, max_sge, imm) == wrs.len()
            &&& imm is None ==> wrs.len() == 0
            &&& imm is Some ==> {
                &&& wrs.len() == 1
                &&& wrs[0].sges.len() == 1 && sges_len(wrs[0].sges) == 0
                &&& wrs[0].remote_addr == peer_addr && wrs[0].rkey == rkey && wrs[0].imm == imm
                &&& wrs[0].sges[0].addr == segs[0].local_addr && wrs[0].sges[0].lkey
                    == segs[0].lkey
            }
        }),
{
    law_gather_empty(segs, max_sge);
    let one = seq![Sge { addr: segs[0].local_addr, length: 0, lkey: segs[0].lkey }];
    assert(one.drop_last() =~= seq![]);
    reveal_with_fuel(sges_len, 2);
}

/// A span of a registered region names the bytes of the region from its offset on, and
/// as many as it is long.
pub proof fn law_span_names_its_bytes(src: RegisteredBuffer, off: usize, len: usize, j: int)
    requires
        src.well_formed(),
        src.covers(off as int, len as int),
        0 <= j < len,
    ensures
        ({
            let bytes = source_bytes(seq![span_of(src, off, len)], 0, 0);
            &&& bytes.len() == len
            &&& bytes[j] == (src.addr + off + j, src.local_key)
            &&& src.addr <= src.addr + off + j < src.addr + src.length
        }),
{
    reveal_with_fuel(source_bytes, 2);
}

/// A result agrees with what is expected of it only if both succeed with the same
/// writes or both fail with the same error.
pub proof fn law_begins_is_agreement(
    r: Result<Vec<WriteWr>, StreamError>,
    expected: Result<Seq<WriteView>, StreamError>,
)
    requires
        begins(r, expected),
    ensures
        r is Ok <==> expected is Ok,
        r matches Err(e) ==> expected == Err::<Seq<WriteView>, StreamError>(e),
        r matches Ok(wrs) ==> (expected matches Ok(views) && wrs@.len() == views.len() && forall|
            k: int,
        |
            0 <= k < views.len() ==> (#[trigger] wrs@[k])@ == views[k]),
{
    if let (Ok(wrs), Ok(views)) = (r, expected) {
        assert forall|k: int| 0 <= k < views.len() implies (#[trigger] wrs@[k])@ == views[k] by {
            assert(write_views(wrs@)[k] == wrs@[k]@);
        }
    }
}

} // verus!
