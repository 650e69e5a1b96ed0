//! Zero-copy transfers: what a client offers, what a server writes, and the
//! transfers that complete on a client's data plane.

use vstd::prelude::*;
use crate::gather::WriteSegment;
use crate::stream::rdma_write::WriteWr;
use crate::stream::{HordStream, StreamError, StreamState};
use crate::verbs::RegisteredBuffer;
use crate::zerocopy::{RdmaWriteAction, RdmaWriteReq, RdmaWriteStatus};

verus! {

/// A registered buffer that a client offers for a response. Once the response says
/// that the write is complete, the body is in it.
#[derive(Debug, Clone, Copy, PartialEq, Eq, Structural)]
pub struct ZeroCopyRequest {
    buf: RegisteredBuffer,
    id: Option<u32>,
}

impl ZeroCopyRequest {
    /// The buffer that is offered.
    pub closed spec fn buffer(self) -> RegisteredBuffer {
        self.buf
    }

    /// The transfer identifier that is asked for.
    pub closed spec fn transfer(self) -> Option<u32> {
        self.id
    }

    /// The request that describes the buffer.
    pub open spec fn described(self) -> RdmaWriteReq {
        RdmaWriteReq {
            addr: self.buffer().addr,
            rkey: self.buffer().remote_key,
            len: self.buffer().length as u64,
            id: self.transfer(),
        }
    }

    /// Offers a buffer that the peer may write to.
    pub fn from_buffer(buf: RegisteredBuffer) -> (r: Self)
        ensures
            r.buffer() == buf,
            r.transfer() is None,
    {
        ZeroCopyRequest { buf, id: None }
    }

    /// Asks for split delivery under `transfer_id`. A server that did not negotiate
    /// splitting ignores it.
    pub fn with_id(self, transfer_id: u32) -> (r: Self)
        ensures
            r.buffer() == self.buffer(),
            r.transfer() == Some(transfer_id),
    {
        ZeroCopyRequest { buf: self.buf, id: Some(transfer_id) }
    }

    /// The transfer identifier that is asked for, if any.
    pub fn id(&self) -> (r: Option<u32>)
        ensures
            r == self.transfer(),
    {
        self.id
    }

    /// The request that describes the buffer.
    pub fn request(&self) -> (r: RdmaWriteReq)
        ensures
            r == self.described(),
    {
        RdmaWriteReq {
            addr: self.buf.addr,
            rkey: self.buf.remote_key,
            len: self.buf.length as u64,
            id: self.id,
        }
    }

    /// The header line to send with the request.
    pub fn header_line(&self) -> (r: String)
        ensures
            r@ == crate::zerocopy::HEADER@ + ": "@ + self.described().value(),
    {
        self.request().header_line()
    }

    /// Bytes that the buffer holds.
    pub fn capacity(&self) -> (r: usize)
        ensures
            r == self.buffer().length,
    {
        self.buf.length
    }
}

/// What a server has to do for a zero-copy response.
#[derive(Debug, Clone, Copy, PartialEq, Eq)]
pub enum ServeStep {
    /// Answer with this status; nothing is written.
    Answer(RdmaWriteStatus),
    /// Acquire a source of [`source_len`](ServedWrite::source_len) bytes, fill it,
    /// and write it with [`begin`](ServedWrite::begin).
    Write(ServedWrite),
}

/// A body that is to be written to a client.
#[derive(Debug, Clone, Copy, PartialEq, Eq)]
pub struct ServedWrite {
    /// Where the client wants it.
    pub req: RdmaWriteReq,
    /// Bytes of the body.
    pub payload_len: usize,
    /// Bytes of the source; at least one.
    pub source_len: usize,
    /// The transfer identifier to deliver, if splitting.
    pub transfer_id: Option<u32>,
}

/// What a server has to do for a body of `object_size` bytes.
pub open spec fn served(req: RdmaWriteReq, object_size: u64, split_negotiated: bool) -> ServeStep {
    match RdmaWriteAction::decided(req, object_size, split_negotiated) {
        RdmaWriteAction::Respond(status) => ServeStep::Answer(status),
        RdmaWriteAction::Write { payload_len, source_len, transfer_id } => ServeStep::Write(
            ServedWrite { req, payload_len, source_len, transfer_id },
        ),
    }
}

/// Decides what to do for a body of `object_size` bytes that `req` asks for on
/// `stream`.
pub fn serve_rdma_write(stream: &HordStream, req: &RdmaWriteReq, object_size: u64) -> (r: ServeStep)
    ensures
        r == served(*req, object_size, stream@.split_mode),
{
    match RdmaWriteAction::decide(req, object_size, stream.split_mode_negotiated()) {
        RdmaWriteAction::Respond(status) => ServeStep::Answer(status),
        RdmaWriteAction::Write { payload_len, source_len, transfer_id } => ServeStep::Write(
            ServedWrite { req: *req, payload_len, source_len, transfer_id },
        ),
    }
}

impl ServedWrite {
    /// The one segment of the write: the first `payload_len` bytes of the source.
    pub open spec fn segment(self, src: RegisteredBuffer) -> WriteSegment {
        WriteSegment { local_addr: src.addr, lkey: src.local_key, length: self.payload_len }
    }

    /// The status to answer with once the write ended with `outcome`.
    pub open spec fn reported(self, outcome: Result<(), StreamError>) -> Result<
        RdmaWriteStatus,
        StreamError,
    > {
        match outcome {
            Ok(()) => Ok(RdmaWriteStatus::Complete { bytes_written: self.payload_len as u64 }),
            Err(e) => Err(e),
        }
    }

    /// Whether the source has to be filled before it is written.
    pub fn needs_fill(&self) -> (r: bool)
        ensures
            r == (self.payload_len > 0),
    {
        self.payload_len > 0
    }

    /// Whether the body ends inside the peer's address space. A client that says
    /// otherwise cannot be served.
    pub fn reaches(&self) -> (r: bool)
        ensures
            r == (self.req.addr + self.payload_len <= u64::MAX),
    {
        self.req.addr <= u64::MAX - self.payload_len as u64
    }

    /// Begins to write the body from the start of `src`, delivering the transfer
    /// identifier if there is one.
    pub fn begin(&self, stream: &HordStream, src: &RegisteredBuffer, max_sge: usize) -> (r: Result<
        Vec<WriteWr>,
        StreamError,
    >)
        requires
            src.well_formed(),
            src.covers(0, self.payload_len as int),
            self.req.addr + self.payload_len <= u64::MAX,
        ensures
            crate::stream::rdma_write::begins(
                r,
                crate::stream::rdma_write::begin_result(
                    stream@,
                    seq![self.segment(*src)],
                    max_sge,
                    self.req.addr,
                    self.req.rkey,
                    self.transfer_id,
                ),
            ),
    {
        proof {
            lemma_one_segment(self.segment(*src), max_sge, self.req.addr);
        }
        match self.transfer_id {
            Some(id) => stream.begin_rdma_write_with_imm(
                src,
                0,
                max_sge,
                self.req.addr,
                self.req.rkey,
                self.payload_len,
                id,
            ),
            None => stream.begin_rdma_write(
                src,
                0,
                max_sge,
                self.req.addr,
                self.req.rkey,
                self.payload_len,
            ),
        }
    }

    /// The status to answer with once the write is over; a write that failed is
    /// never reported as complete.
    pub fn finish(&self, outcome: Result<(), StreamError>) -> (r: Result<RdmaWriteStatus, StreamError>)
        ensures
            r == self.reported(outcome),
    {
        match outcome {
            Ok(()) => Ok(RdmaWriteStatus::Complete { bytes_written: self.payload_len as u64 }),
            Err(e) => Err(e),
        }
    }
}

proof fn lemma_one_segment(seg: WriteSegment, max_sge: usize, peer_addr: u64)
    requires
        seg.well_formed(),
        peer_addr + seg.length <= u64::MAX,
    ensures
        crate::stream::rdma_write::addressable(seq![seg], max_sge, peer_addr),
        crate::gather::plannable(seq![seg]),
{
    let segs = seq![seg];
    assert(segs.drop_last() =~= seq![]);
    assert(crate::gather::segments_len(segs.drop_last()) == 0);
    let plan = crate::gather::gather_plan(segs, max_sge);
    assert forall|k: int| 0 <= k < plan.len() implies peer_addr
        + #[trigger] crate::gather::plan_offset(plan, k) <= u64::MAX by {
        crate::gather::law_gather_stays_in_span(segs, max_sge, k);
    }
}

/// A zero-copy response writes only inside the buffer that the client described:
/// every byte of every work request falls in `[addr, addr + len)`, and the bytes
/// written are the first bytes of the source, each once and in order.
pub proof fn law_write_stays_in_offered_buffer(
    req: RdmaWriteReq,
    object_size: u64,
    split_negotiated: bool,
    src: RegisteredBuffer,
    max_sge: usize,
    k: int,
)
    requires
        src.well_formed(),
        req.addr + req.len <= u64::MAX,
        served(req, object_size, split_negotiated) is Write,
        src.covers(0, object_size as int),
        0 <= k < crate::gather::gather_plan(
            seq![(served(req, object_size, split_negotiated)->Write_0).segment(src)],
            max_sge,
        ).len(),
    ensures
        ({
            let w = served(req, object_size, split_negotiated)->Write_0;
            let segs = seq![w.segment(src)];
            let plan = crate::gather::gather_plan(segs, max_sge);
            let wr = crate::stream::rdma_write::write_wrs(
                segs,
                max_sge,
                req.addr,
                req.rkey,
                w.transfer_id,
            )[k];
            &&& req.addr <= wr.remote_addr
            &&& wr.remote_addr + crate::gather::sges_len(wr.sges) <= req.addr + req.len
            &&& wr.rkey == req.rkey
            &&& crate::gather::plan_bytes(plan) == crate::gather::span(
                src.addr as int,
                src.local_key,
                object_size as nat,
            )
        }),
{
    let w = served(req, object_size, split_negotiated)->Write_0;
    let seg = w.segment(src);
    let segs = seq![seg];
    lemma_one_segment(seg, max_sge, req.addr);
    crate::gather::law_gather_stays_in_span(segs, max_sge, k);
    crate::gather::law_gather_covers(segs, max_sge);
    assert(segs.drop_last() =~= seq![]);
    assert(crate::gather::segments_len(segs.drop_last()) == 0);
    assert(crate::gather::segments_len(segs) == object_size);
    assert(crate::gather::source_bytes(segs, 1, 0) =~= seq![]);
    assert(crate::gather::source_bytes(segs, 0, 0) =~= crate::gather::span(
        src.addr as int,
        src.local_key,
        object_size as nat,
    ));
}

/// A split transfer that completed: its body is in the buffer that was offered
/// under this identifier.
#[derive(Debug, Clone, Copy, PartialEq, Eq, Structural)]
pub struct SplitCompletion {
    /// The identifier that the client asked for.
    pub transfer_id: u32,
}

/// A client's data plane: transfers as they complete, without the responses that
/// announce them.
#[derive(Debug, Clone, Copy, PartialEq, Eq)]
pub struct SplitReceiver {
    seal: (),
}

impl SplitReceiver {
    /// The data plane of `stream`, or `None` if splitting did not negotiate.
    pub fn new(stream: &HordStream) -> (r: Option<Self>)
        ensures
            r is Some <==> stream@.split_mode,
    {
        if stream.split_mode_negotiated() {
            Some(SplitReceiver { seal: () })
        } else {
            None
        }
    }

    /// The next transfer for a consumer that waits: `Some(Some(_))` for one that
    /// completed, `Some(None)` once the connection closed and all were delivered,
    /// `None` to process a completion and ask again.
    pub fn poll_completion(&self, stream: &mut HordStream) -> (r: Option<Option<SplitCompletion>>)
        ensures
            r == awaited_completion(old(stream)@),
            final(stream)@ == transfer_taken(old(stream)@),
            old(stream).wf() ==> final(stream).wf(),
    {
        match stream.next_transfer() {
            Some(Some(transfer_id)) => Some(Some(SplitCompletion { transfer_id })),
            Some(None) => Some(None),
            None => None,
        }
    }

    /// The next transfer for a consumer that does not wait. `None` says only that
    /// none is complete yet; see [`is_closed`](Self::is_closed) for the end.
    pub fn try_completion(&self, stream: &mut HordStream) -> (r: Option<SplitCompletion>)
        ensures
            r == ready_completion(old(stream)@),
            final(stream)@ == transfer_taken(old(stream)@),
            old(stream).wf() ==> final(stream).wf(),
    {
        match stream.next_completed_transfer() {
            Some(transfer_id) => Some(SplitCompletion { transfer_id }),
            None => None,
        }
    }

    /// Whether the connection closed.
    pub fn is_closed(&self, stream: &HordStream) -> (r: bool)
        ensures
            r == stream@.peer_closed,
    {
        stream.is_closed()
    }
}

/// The state once the first completed transfer, if any, was taken.
pub open spec fn transfer_taken(s: StreamState) -> StreamState {
    if s.completed_transfers.len() > 0 {
        StreamState { completed_transfers: s.completed_transfers.drop_first(), ..s }
    } else {
        s
    }
}

/// What a consumer that waits gets of the transfers that completed.
pub open spec fn awaited_completion(s: StreamState) -> Option<Option<SplitCompletion>> {
    if s.completed_transfers.len() > 0 {
        Some(Some(SplitCompletion { transfer_id: s.completed_transfers[0] }))
    } else if s.peer_closed {
        Some(None)
    } else {
        None
    }
}

/// What a consumer that does not wait gets of the transfers that completed.
pub open spec fn ready_completion(s: StreamState) -> Option<SplitCompletion> {
    if s.completed_transfers.len() > 0 {
        Some(SplitCompletion { transfer_id: s.completed_transfers[0] })
    } else {
        None
    }
}

/// What is written for a request is what it asked for: to the client's buffer under
/// its key, the whole body, from the start of the source.
pub proof fn law_served_write_is_the_request(
    req: RdmaWriteReq,
    object_size: u64,
    split_negotiated: bool,
    src: RegisteredBuffer,
)
    ensures
        served(req, object_size, split_negotiated) matches ServeStep::Write(w) ==> {
            &&& w.req == req
            &&& w.payload_len == object_size
            &&& w.source_len >= 1 && w.source_len >= w.payload_len
            &&& w.transfer_id == (if split_negotiated {
                req.id
            } else {
                None
            })
            &&& w.segment(src).local_addr == src.addr && w.segment(src).lkey == src.local_key
            &&& w.segment(src).length == object_size
        },
        served(req, object_size, split_negotiated) matches ServeStep::Answer(status) ==> {
            &&& status == (RdmaWriteStatus::TooLarge { object_size }) || (object_size == 0 && status
                == (RdmaWriteStatus::Complete { bytes_written: 0 }))
        },
        object_size > req.len ==> served(req, object_size, split_negotiated) == ServeStep::Answer(
            RdmaWriteStatus::TooLarge { object_size },
        ),
{
}

/// The body of a zero-copy response lands in the client's buffer as it is in the
/// source: byte `i` of the buffer is byte `i` of the source.
pub proof fn law_served_body_lands_in_place(
    s: StreamState,
    w: ServedWrite,
    src: RegisteredBuffer,
    max_sge: usize,
    k: int,
    j: int,
)
    requires
        src.well_formed(),
        src.covers(0, w.payload_len as int),
        w.req.addr + w.payload_len <= u64::MAX,
        ({
            let r = crate::stream::rdma_write::begin_result(
                s,
                seq![w.segment(src)],
                max_sge,
                w.req.addr,
                w.req.rkey,
                w.transfer_id,
            );
            &&& r is Ok
            &&& 0 <= k < r->Ok_0.len()
            &&& 0 <= j < crate::gather::sges_len(r->Ok_0[k].sges)
        }),
    ensures
        ({
            let wr = crate::stream::rdma_write::begin_result(
                s,
                seq![w.segment(src)],
                max_sge,
                w.req.addr,
                w.req.rkey,
                w.transfer_id,
            )->Ok_0[k];
            let i = wr.remote_addr + j - w.req.addr;
            &&& 0 <= i < w.payload_len
            &&& crate::gather::sges_bytes(wr.sges)[j] == (src.addr + i, src.local_key)
        }),
{
    let seg = w.segment(src);
    let segs = seq![seg];
    lemma_one_segment(seg, max_sge, w.req.addr);
    crate::stream::rdma_write::law_write_puts_each_byte_in_its_place(
        s,
        segs,
        max_sge,
        w.req.addr,
        w.req.rkey,
        w.transfer_id,
        k,
        j,
    );
    assert(segs.drop_last() =~= seq![]);
    assert(crate::gather::segments_len(segs.drop_last()) == 0);
    assert(crate::gather::source_bytes(segs, 1, 0) =~= seq![]);
    assert(crate::gather::source_bytes(segs, 0, 0) =~= crate::gather::span(
        src.addr as int,
        src.local_key,
        w.payload_len as nat,
    ));
}

/// Transfers are taken in the order in which they arrived, each once, and taking one
/// changes nothing else.
pub proof fn law_transfers_are_taken_in_order(s: StreamState)
    ensures
        s.completed_transfers.len() > 0 ==> seq![s.completed_transfers[0]] + transfer_taken(
            s,
        ).completed_transfers == s.completed_transfers,
        transfer_taken(s) == (StreamState {
            completed_transfers: transfer_taken(s).completed_transfers,
            ..s
        }),
        s.completed_transfers.len() == 0 ==> transfer_taken(s) == s,
{
    if s.completed_transfers.len() > 0 {
        assert(seq![s.completed_transfers[0]] + s.completed_transfers.drop_first()
            =~= s.completed_transfers);
    }
}

/// A body is reported as complete, with its whole length, exactly if its write
/// succeeded; a failure is passed on as it is.
pub proof fn law_report_follows_the_write(w: ServedWrite, outcome: Result<(), StreamError>)
    ensures
        w.reported(outcome) is Ok <==> outcome is Ok,
        w.reported(outcome) matches Ok(status) ==> (status matches RdmaWriteStatus::Complete {
            bytes_written,
        } && bytes_written == w.payload_len),
        outcome matches Err(e) ==> w.reported(outcome) == Err::<RdmaWriteStatus, StreamError>(e),
{
}

/// A transfer that completed is delivered, also after the connection closed: the one
/// that completed first, and then the rest in order. The end is reported only once none
/// is left, and only of a connection that closed; until then a consumer waits.
pub proof fn law_completions_come_before_the_end(s: StreamState, first: u32, rest: Seq<u32>)
    ensures
        ({
            let full = StreamState { completed_transfers: seq![first] + rest, ..s };
            let empty = StreamState { completed_transfers: seq![], ..s };
            &&& awaited_completion(full) == Some(Some(SplitCompletion { transfer_id: first }))
            &&& ready_completion(full) == Some(SplitCompletion { transfer_id: first })
            &&& transfer_taken(full) == (StreamState { completed_transfers: rest, ..s })
            &&& awaited_completion(empty) == Some(None::<SplitCompletion>) <==> s.peer_closed
            &&& awaited_completion(empty) is None <==> !s.peer_closed
            &&& ready_completion(empty) is None && transfer_taken(empty) == empty
        }),
{
    assert((seq![first] + rest).drop_first() =~= rest);
}

/// A request offers the buffer as it is: from its first byte, all of it, under the key
/// that lets the peer write, and with the identifier that was asked for.
pub proof fn law_request_describes_the_buffer(z: ZeroCopyRequest)
    ensures
        z.described().addr == z.buffer().addr,
        z.described().rkey == z.buffer().remote_key,
        z.described().len == z.buffer().length,
        z.described().id == z.transfer(),
{
}

} // verus!
