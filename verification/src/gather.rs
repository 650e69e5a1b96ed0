//! Packing the spans of a fragmented source into RDMA-write work requests.
//!
//! The segments of a gather write are laid down contiguously in the peer's
//! memory. One work request carries at most a given number of scatter/gather
//! elements and at most [`WRITE_WR_MAX`] bytes; a longer segment is split.

use vstd::prelude::*;
use crate::verbs::{Mr, RegisteredBuffer, Sge, MAX_WRITE_SGE};

verus! {

/// Bytes per RDMA-write work request.
pub const WRITE_WR_MAX: usize = 0x4000_0000;

/// One contiguous source span of a gather write.
#[derive(Debug, Clone, Copy, PartialEq, Eq, Structural)]
pub struct WriteSegment {
    /// First byte of the span.
    pub local_addr: u64,
    /// Local key of the region the span lies in.
    pub lkey: u32,
    /// Bytes in the span.
    pub length: usize,
}

impl WriteSegment {
    /// The span lies inside the address space.
    pub open spec fn well_formed(self) -> bool {
        self.local_addr + self.length <= u64::MAX
    }

    /// The span `[off, off + len)` of memory that begins at `addr`.
    pub open spec fn span_at(addr: u64, lkey: u32, off: usize, len: usize) -> WriteSegment {
        WriteSegment { local_addr: (addr + off) as u64, lkey, length: len }
    }

    /// The span `[off, off + len)` of a registered buffer.
    pub fn from_registered(buf: &RegisteredBuffer, off: usize, len: usize) -> (r: Self)
        requires
            buf.well_formed(),
            buf.covers(off as int, len as int),
        ensures
            r == WriteSegment::span_at(buf.addr, buf.local_key, off, len),
            r.well_formed(),
    {
        WriteSegment { local_addr: buf.addr + off as u64, lkey: buf.local_key, length: len }
    }

    /// The span `[off, off + len)` of memory of the caller's own.
    pub fn from_mr(mr: &Mr, off: usize, len: usize) -> (r: Self)
        requires
            mr.well_formed(),
            off + len <= mr.length,
        ensures
            r == WriteSegment::span_at(mr.addr, mr.local_key, off, len),
            r.well_formed(),
    {
        WriteSegment { local_addr: mr.addr + off as u64, lkey: mr.local_key, length: len }
    }

    /// A span of memory that was registered out of band.
    pub fn from_raw(addr: u64, lkey: u32, len: usize) -> (r: Self)
        ensures
            r == (WriteSegment { local_addr: addr, lkey, length: len }),
    {
        WriteSegment { local_addr: addr, lkey, length: len }
    }

    /// Bytes in the span.
    pub fn len(&self) -> (r: usize)
        ensures
            r == self.length,
    {
        self.length
    }

    /// Whether the span holds no byte.
    pub fn is_empty(&self) -> (r: bool)
        ensures
            r == (self.length == 0),
    {
        self.length == 0
    }
}

/// One planned work request: its elements, and where in the peer's memory it
/// starts, counted from the start of the whole write.
#[derive(Debug, PartialEq, Eq)]
pub struct GatherWr {
    /// Bytes that earlier work requests of the same plan lay down.
    pub remote_off: u64,
    /// Source spans, in order.
    pub sges: Vec<Sge>,
}

impl View for GatherWr {
    type V = (u64, Seq<Sge>);

    open spec fn view(&self) -> (u64, Seq<Sge>) {
        (self.remote_off, self.sges@)
    }
}

/// Total bytes of the segments.
pub open spec fn segments_len(segs: Seq<WriteSegment>) -> nat
    decreases segs.len(),
{
    if segs.len() == 0 {
        0
    } else {
        segments_len(segs.drop_last()) + segs.last().length as nat
    }
}

/// Total bytes of the elements of one work request.
pub open spec fn sges_len(sges: Seq<Sge>) -> nat
    decreases sges.len(),
{
    if sges.len() == 0 {
        0
    } else {
        sges_len(sges.drop_last()) + sges.last().length as nat
    }
}

/// Bytes that the first `k` work requests of a plan lay down.
pub open spec fn plan_offset(plan: Seq<Seq<Sge>>, k: int) -> nat
    decreases k,
{
    if k <= 0 {
        0
    } else {
        plan_offset(plan, k - 1) + sges_len(plan[k - 1])
    }
}

/// The elements a work request may carry when `max_sge` are asked for: at least
/// one and at most [`MAX_WRITE_SGE`].
pub open spec fn sge_limit(max_sge: usize) -> usize {
    if max_sge < 1 {
        1
    } else if max_sge > MAX_WRITE_SGE {
        MAX_WRITE_SGE
    } else {
        max_sge
    }
}

/// Whether a work request takes no further element.
pub open spec fn full(sges: Seq<Sge>, limit: usize) -> bool {
    sges.len() >= limit || sges_len(sges) >= WRITE_WR_MAX
}

/// The work requests for what is left of the segments from byte `off` of segment
/// `i` on, when `cur` has been collected for the next one. Each takes spans in
/// order until it is full; a span is cut short only by the byte cap.
pub open spec fn packed(
    segs: Seq<WriteSegment>,
    i: int,
    off: int,
    cur: Seq<Sge>,
    limit: usize,
) -> Seq<Seq<Sge>>
    decreases segs.len() - i, segs[i].length - off, cur.len(),
{
    if i < 0 || i >= segs.len() {
        if cur.len() == 0 {
            seq![]
        } else {
            seq![cur]
        }
    } else if off >= segs[i].length {
        packed(segs, i + 1, 0, cur, limit)
    } else if cur.len() > 0 && full(cur, limit) {
        seq![cur] + packed(segs, i, off, seq![], limit)
    } else {
        let room = WRITE_WR_MAX - sges_len(cur);
        let take = if segs[i].length - off < room {
            segs[i].length - off
        } else {
            room
        };
        let sge = Sge {
            addr: (segs[i].local_addr + off) as u64,
            length: take as u32,
            lkey: segs[i].lkey,
        };
        packed(segs, i, off + take, cur.push(sge), limit)
    }
}

/// The plan for a whole gather write.
pub open spec fn gather_plan(segs: Seq<WriteSegment>, max_sge: usize) -> Seq<Seq<Sge>> {
    packed(segs, 0, 0, seq![], sge_limit(max_sge))
}

/// Every segment lies inside the address space and so does their total length.
pub open spec fn plannable(segs: Seq<WriteSegment>) -> bool {
    &&& forall|i: int| 0 <= i < segs.len() ==> (#[trigger] segs[i]).well_formed()
    &&& segments_len(segs) <= u64::MAX
}

/// Whether the work requests `wrs` are those of the plan `plan`, each starting
/// where the one before it ends.
pub open spec fn lays_down(wrs: Seq<GatherWr>, plan: Seq<Seq<Sge>>) -> bool {
    &&& wrs.len() == plan.len()
    &&& forall|k: int|
        0 <= k < wrs.len() ==> (#[trigger] wrs[k]).sges@ == plan[k] && wrs[k].remote_off
            == plan_offset(plan, k)
}

proof fn lemma_sges_push(sges: Seq<Sge>, s: Sge)
    ensures
        sges_len(sges.push(s)) == sges_len(sges) + s.length,
{
    assert(sges.push(s).drop_last() =~= sges);
}

proof fn lemma_plan_offset_prefix(a: Seq<Seq<Sge>>, b: Seq<Seq<Sge>>, k: int)
    requires
        0 <= k <= a.len(),
        k <= b.len(),
        forall|j: int| 0 <= j < k ==> a[j] == b[j],
    ensures
        plan_offset(a, k) == plan_offset(b, k),
    decreases k,
{
    if k > 0 {
        lemma_plan_offset_prefix(a, b, k - 1);
    }
}

proof fn lemma_segments_len_take(segs: Seq<WriteSegment>, i: int)
    requires
        0 <= i < segs.len(),
    ensures
        segments_len(segs.take(i + 1)) == segments_len(segs.take(i)) + segs[i].length,
{
    assert(segs.take(i + 1).drop_last() =~= segs.take(i));
}

proof fn lemma_segments_len_monotone(segs: Seq<WriteSegment>, i: int)
    requires
        0 <= i <= segs.len(),
    ensures
        segments_len(segs.take(i)) <= segments_len(segs),
    decreases segs.len() - i,
{
    if i < segs.len() {
        lemma_segments_len_take(segs, i);
        lemma_segments_len_monotone(segs, i + 1);
    } else {
        assert(segs.take(i) =~= segs);
    }
}

/// Plans a gather write: packs the segments, in order, into work requests of at
/// most `max_sge` elements (clamped to `1..=`[`MAX_WRITE_SGE`]) and at most
/// [`WRITE_WR_MAX`] bytes each. Segments without bytes contribute nothing.
pub fn plan_gather(segments: &[WriteSegment], max_sge: usize) -> (r: Vec<GatherWr>)
    requires
        plannable(segments@),
    ensures
        lays_down(r@, gather_plan(segments@, max_sge)),
{
    let limit: usize = if max_sge < 1 {
        1
    } else if max_sge > MAX_WRITE_SGE {
        MAX_WRITE_SGE
    } else {
        max_sge
    };
    let ghost plan = gather_plan(segments@, max_sge);
    let ghost mut done: Seq<Seq<Sge>> = seq![];
    let mut wrs: Vec<GatherWr> = Vec::new();
    let mut cur: Vec<Sge> = Vec::new();
    let mut wr_bytes: u64 = 0;
    let mut remote_off: u64 = 0;
    let mut i: usize = 0;
    proof {
        assert(seq![] + plan =~= plan);
        assert(segments@.take(0) =~= seq![]);
    }
    while i < segments.len()
        invariant
            i <= segments@.len(),
            plannable(segments@),
            1 <= limit,
            limit == sge_limit(max_sge),
            plan == gather_plan(segments@, max_sge),
            plan == done + packed(segments@, i as int, 0, cur@, limit),
            cur@.len() <= limit,
            wr_bytes == sges_len(cur@),
            wr_bytes <= WRITE_WR_MAX,
            cur@.len() == 0 ==> wr_bytes == 0,
            lays_down(wrs@, done),
            remote_off == plan_offset(done, done.len() as int),
            remote_off + wr_bytes == segments_len(segments@.take(i as int)),
        decreases segments@.len() - i,
    {
        let seg: WriteSegment = segments[i];
        let mut seg_off: usize = 0;
        proof {
            lemma_segments_len_take(segments@, i as int);
            lemma_segments_len_monotone(segments@, i + 1);
        }
        while seg_off < seg.length
            invariant
                i < segments@.len(),
                plannable(segments@),
                seg == segments@[i as int],
                seg_off <= seg.length,
                1 <= limit,
                plan == done + packed(segments@, i as int, seg_off as int, cur@, limit),
                cur@.len() <= limit,
                wr_bytes == sges_len(cur@),
                wr_bytes <= WRITE_WR_MAX,
                cur@.len() == 0 ==> wr_bytes == 0,
                lays_down(wrs@, done),
                remote_off == plan_offset(done, done.len() as int),
                remote_off + wr_bytes == segments_len(segments@.take(i as int)) + seg_off,
                segments_len(segments@.take(i as int)) + seg.length <= u64::MAX,
            decreases seg.length - seg_off,
        {
            if cur.len() >= limit || wr_bytes >= WRITE_WR_MAX as u64 {
                let ghost next = done.push(cur@);
                proof {
                    assert(done + (seq![cur@] + packed(segments@, i as int, seg_off as int, seq![], limit))
                        =~= next + packed(segments@, i as int, seg_off as int, seq![], limit));
                    lemma_plan_offset_prefix(done, next, done.len() as int);
                    assert forall|k: int| 0 <= k < done.len() implies plan_offset(done, k)
                        == plan_offset(next, k) by {
                        lemma_plan_offset_prefix(done, next, k);
                    }
                }
                wrs.push(GatherWr { remote_off, sges: cur });
                cur = Vec::new();
                remote_off = remote_off + wr_bytes;
                wr_bytes = 0;
                proof {
                    done = next;
                    assert(cur@ =~= seq![]);
                }
            }
            let budget: u64 = WRITE_WR_MAX as u64 - wr_bytes;
            let left: u64 = (seg.length - seg_off) as u64;
            let take: u64 = if left < budget {
                left
            } else {
                budget
            };
            let sge = Sge {
                addr: seg.local_addr + seg_off as u64,
                length: take as u32,
                lkey: seg.lkey,
            };
            proof {
                lemma_sges_push(cur@, sge);
            }
            cur.push(sge);
            wr_bytes = wr_bytes + take;
            seg_off = seg_off + take as usize;
        }
        i = i + 1;
    }
    proof {
        assert(segments@.take(segments@.len() as int) =~= segments@);
    }
    if cur.len() > 0 {
        let ghost next = done.push(cur@);
        proof {
            assert(done + seq![cur@] =~= next);
            assert forall|k: int| 0 <= k <= done.len() implies plan_offset(done, k) == plan_offset(
                next,
                k,
            ) by {
                lemma_plan_offset_prefix(done, next, k);
            }
        }
        wrs.push(GatherWr { remote_off, sges: cur });
    } else {
        assert(done + Seq::<Seq<Sge>>::empty() =~= done);
    }
    wrs
}

/// The bytes of a span, each as its address and the key that reaches it.
pub open spec fn span(addr: int, lkey: u32, len: nat) -> Seq<(int, u32)> {
    Seq::new(len, |j: int| (addr + j, lkey))
}

/// The source bytes of the segments, in order, from byte `off` of segment `i` on.
pub open spec fn source_bytes(segs: Seq<WriteSegment>, i: int, off: int) -> Seq<(int, u32)>
    decreases segs.len() - i,
{
    if i < 0 || i >= segs.len() {
        seq![]
    } else {
        span(segs[i].local_addr + off, segs[i].lkey, (segs[i].length - off) as nat) + source_bytes(
            segs,
            i + 1,
            0,
        )
    }
}

/// The source bytes that the elements of one work request name, in order.
pub open spec fn sges_bytes(sges: Seq<Sge>) -> Seq<(int, u32)>
    decreases sges.len(),
{
    if sges.len() == 0 {
        seq![]
    } else {
        sges_bytes(sges.drop_last()) + span(
            sges.last().addr as int,
            sges.last().lkey,
            sges.last().length as nat,
        )
    }
}

/// The source bytes that a plan names, in the order in which they are laid down.
pub open spec fn plan_bytes(plan: Seq<Seq<Sge>>) -> Seq<(int, u32)>
    decreases plan.len(),
{
    if plan.len() == 0 {
        seq![]
    } else {
        sges_bytes(plan[0]) + plan_bytes(plan.drop_first())
    }
}

proof fn lemma_packed_bytes(
    segs: Seq<WriteSegment>,
    i: int,
    off: int,
    cur: Seq<Sge>,
    limit: usize,
)
    requires
        forall|k: int| 0 <= k < segs.len() ==> (#[trigger] segs[k]).well_formed(),
        0 <= i <= segs.len(),
        i < segs.len() ==> 0 <= off <= segs[i].length,
    ensures
        plan_bytes(packed(segs, i, off, cur, limit)) == sges_bytes(cur) + source_bytes(segs, i, off),
    decreases segs.len() - i, segs[i].length - off, cur.len(),
{
    let plan = packed(segs, i, off, cur, limit);
    if i >= segs.len() {
        if cur.len() > 0 {
            assert(plan.drop_first() =~= seq![]);
            assert(plan_bytes(plan.drop_first()) =~= seq![]);
        }
        assert(plan_bytes(plan) =~= sges_bytes(cur) + source_bytes(segs, i, off));
    } else if off >= segs[i].length {
        lemma_packed_bytes(segs, i + 1, 0, cur, limit);
        assert(source_bytes(segs, i, off) =~= source_bytes(segs, i + 1, 0));
    } else if cur.len() > 0 && full(cur, limit) {
        let rest = packed(segs, i, off, seq![], limit);
        lemma_packed_bytes(segs, i, off, seq![], limit);
        assert((seq![cur] + rest).drop_first() =~= rest);
        assert(plan_bytes(plan) =~= sges_bytes(cur) + source_bytes(segs, i, off));
    } else {
        let room = WRITE_WR_MAX - sges_len(cur);
        let take = if segs[i].length - off < room {
            segs[i].length - off
        } else {
            room
        };
        let sge = Sge {
            addr: (segs[i].local_addr + off) as u64,
            length: take as u32,
            lkey: segs[i].lkey,
        };
        lemma_packed_bytes(segs, i, off + take, cur.push(sge), limit);
        assert(cur.push(sge).drop_last() =~= cur);
        assert(segs[i].well_formed());
        assert(sges_bytes(cur.push(sge)) + source_bytes(segs, i, off + take) =~= sges_bytes(cur)
            + source_bytes(segs, i, off));
    }
}

/// A gather write lays down every byte of every segment exactly once and in
/// order.
pub proof fn law_gather_covers(segs: Seq<WriteSegment>, max_sge: usize)
    requires
        plannable(segs),
    ensures
        plan_bytes(gather_plan(segs, max_sge)) == source_bytes(segs, 0, 0),
{
    lemma_packed_bytes(segs, 0, 0, seq![], sge_limit(max_sge));
    assert(sges_bytes(seq![]) + source_bytes(segs, 0, 0) =~= source_bytes(segs, 0, 0));
}

/// Whether a work request is one that a plan may hold: between one and `limit`
/// elements, none of them empty, and at most [`WRITE_WR_MAX`] bytes.
pub open spec fn within_caps(sges: Seq<Sge>, limit: usize) -> bool {
    &&& 1 <= sges.len() <= limit
    &&& sges_len(sges) <= WRITE_WR_MAX
    &&& forall|j: int| 0 <= j < sges.len() ==> (#[trigger] sges[j]).length > 0
}

proof fn lemma_packed_caps(
    segs: Seq<WriteSegment>,
    i: int,
    off: int,
    cur: Seq<Sge>,
    limit: usize,
)
    requires
        1 <= limit,
        0 <= i <= segs.len(),
        0 <= off,
        cur.len() == 0 || within_caps(cur, limit),
    ensures
        ({
            let plan = packed(segs, i, off, cur, limit);
            &&& forall|k: int| 0 <= k < plan.len() ==> within_caps(#[trigger] plan[k], limit)
            &&& forall|k: int| 0 <= k < plan.len() - 1 ==> full(#[trigger] plan[k], limit)
        }),
    decreases segs.len() - i, segs[i].length - off, cur.len(),
{
    let plan = packed(segs, i, off, cur, limit);
    if i >= segs.len() {
        if cur.len() > 0 {
            assert(plan == seq![cur]);
        }
    } else if off >= segs[i].length {
        lemma_packed_caps(segs, i + 1, 0, cur, limit);
        assert(plan == packed(segs, i + 1, 0, cur, limit));
    } else if cur.len() > 0 && full(cur, limit) {
        lemma_packed_caps(segs, i, off, seq![], limit);
        let rest = packed(segs, i, off, seq![], limit);
        assert(plan == seq![cur] + rest);
        assert forall|k: int| 0 <= k < plan.len() implies within_caps(#[trigger] plan[k], limit) by {
            if k > 0 {
                assert(plan[k] == rest[k - 1]);
            }
        }
        assert forall|k: int| 0 <= k < plan.len() - 1 implies full(#[trigger] plan[k], limit) by {
            if k > 0 {
                assert(plan[k] == rest[k - 1]);
            }
        }
    } else {
        let room = WRITE_WR_MAX - sges_len(cur);
        let take = if segs[i].length - off < room {
            segs[i].length - off
        } else {
            room
        };
        let sge = Sge {
            addr: (segs[i].local_addr + off) as u64,
            length: take as u32,
            lkey: segs[i].lkey,
        };
        lemma_sges_push(cur, sge);
        assert(within_caps(cur.push(sge), limit));
        lemma_packed_caps(segs, i, off + take, cur.push(sge), limit);
        assert(plan == packed(segs, i, off + take, cur.push(sge), limit));
    }
}

/// Every planned work request keeps to the element and byte caps and moves at
/// least one byte, and every one but the last is full.
pub proof fn law_gather_caps(segs: Seq<WriteSegment>, max_sge: usize, k: int)
    requires
        plannable(segs),
        0 <= k < gather_plan(segs, max_sge).len(),
    ensures
        within_caps(gather_plan(segs, max_sge)[k], sge_limit(max_sge)),
        k < gather_plan(segs, max_sge).len() - 1 ==> full(
            gather_plan(segs, max_sge)[k],
            sge_limit(max_sge),
        ),
{
    lemma_packed_caps(segs, 0, 0, seq![], sge_limit(max_sge));
}

/// Nothing is planned exactly when no segment holds a byte.
pub proof fn law_gather_empty(segs: Seq<WriteSegment>, max_sge: usize)
    requires
        plannable(segs),
    ensures
        gather_plan(segs, max_sge).len() == 0 <==> segments_len(segs) == 0,
{
    law_gather_covers(segs, max_sge);
    lemma_source_len(segs, 0);
    assert(segs.take(0) =~= seq![]);
    let plan = gather_plan(segs, max_sge);
    if plan.len() > 0 {
        law_gather_caps(segs, max_sge, 0);
        lemma_sges_bytes_len(plan[0]);
        lemma_sges_positive(plan[0]);
    }
}

proof fn lemma_sges_bytes_len(sges: Seq<Sge>)
    ensures
        sges_bytes(sges).len() == sges_len(sges),
    decreases sges.len(),
{
    if sges.len() > 0 {
        lemma_sges_bytes_len(sges.drop_last());
    }
}

proof fn lemma_sges_positive(sges: Seq<Sge>)
    requires
        sges.len() > 0,
        forall|j: int| 0 <= j < sges.len() ==> (#[trigger] sges[j]).length > 0,
    ensures
        sges_len(sges) > 0,
{
    assert(sges[sges.len() - 1].length > 0);
}

proof fn lemma_source_len(segs: Seq<WriteSegment>, i: int)
    requires
        0 <= i <= segs.len(),
    ensures
        source_bytes(segs, i, 0).len() + segments_len(segs.take(i)) == segments_len(segs),
    decreases segs.len() - i,
{
    if i < segs.len() {
        lemma_segments_len_take(segs, i);
        lemma_source_len(segs, i + 1);
    } else {
        assert(segs.take(i) =~= segs);
    }
}

proof fn lemma_offset_is_bytes(plan: Seq<Seq<Sge>>, k: int)
    requires
        0 <= k <= plan.len(),
    ensures
        plan_offset(plan, k) + plan_bytes(plan.skip(k)).len() == plan_bytes(plan).len(),
    decreases k,
{
    if k == 0 {
        assert(plan.skip(0) =~= plan);
    } else {
        lemma_offset_is_bytes(plan, k - 1);
        lemma_sges_bytes_len(plan[k - 1]);
        assert(plan.skip(k - 1).drop_first() =~= plan.skip(k));
    }
}

/// A gather write stays inside the span that its bytes need: every work request
/// starts where the one before it ends, and the last ends at the total length.
pub proof fn law_gather_stays_in_span(segs: Seq<WriteSegment>, max_sge: usize, k: int)
    requires
        plannable(segs),
        0 <= k < gather_plan(segs, max_sge).len(),
    ensures
        ({
            let plan = gather_plan(segs, max_sge);
            &&& plan_offset(plan, k + 1) == plan_offset(plan, k) + sges_len(plan[k])
            &&& plan_offset(plan, k + 1) <= segments_len(segs)
            &&& plan_offset(plan, plan.len() as int) == segments_len(segs)
        }),
{
    let plan = gather_plan(segs, max_sge);
    law_gather_covers(segs, max_sge);
    lemma_source_len(segs, 0);
    assert(segs.take(0) =~= seq![]);
    lemma_offset_is_bytes(plan, k + 1);
    lemma_offset_is_bytes(plan, plan.len() as int);
    assert(plan.skip(plan.len() as int) =~= seq![]);
}

/// A single segment of at most [`WRITE_WR_MAX`] bytes is one work request of one
/// element.
pub proof fn law_gather_single(seg: WriteSegment, max_sge: usize)
    requires
        seg.well_formed(),
        0 < seg.length <= WRITE_WR_MAX,
    ensures
        gather_plan(seq![seg], max_sge) == seq![
            seq![Sge { addr: seg.local_addr, length: seg.length as u32, lkey: seg.lkey }],
        ],
{
    let segs = seq![seg];
    let limit = sge_limit(max_sge);
    let sge = Sge { addr: seg.local_addr, length: seg.length as u32, lkey: seg.lkey };
    assert(Seq::<Sge>::empty().push(sge) =~= seq![sge]);
    assert(packed(segs, 0, 0, seq![], limit) == packed(
        segs,
        0,
        seg.length as int,
        Seq::<Sge>::empty().push(sge),
        limit,
    ));
    assert(packed(segs, 0, seg.length as int, seq![sge], limit) == packed(
        segs,
        1,
        0,
        seq![sge],
        limit,
    ));
}

/// The work requests that `n` elements need at `limit` elements each.
pub open spec fn groups(n: int, limit: int) -> int {
    (n + limit - 1) / limit
}

proof fn lemma_packed_count(segs: Seq<WriteSegment>, i: int, cur: Seq<Sge>, limit: usize)
    requires
        1 <= limit,
        0 <= i <= segs.len(),
        cur.len() <= limit,
        forall|k: int| 0 <= k < segs.len() ==> (#[trigger] segs[k]).length > 0,
        sges_len(cur) + segments_len(segs) - segments_len(segs.take(i)) <= WRITE_WR_MAX,
    ensures
        packed(segs, i, 0, cur, limit).len() == groups(cur.len() + segs.len() - i, limit as int),
    decreases segs.len() - i, cur.len(),
{
    let l = limit as int;
    if i >= segs.len() {
        if cur.len() == 0 {
            assert((0 + l - 1) / l == 0) by (nonlinear_arith)
                requires
                    l >= 1,
            ;
        } else {
            let c = cur.len() as int;
            assert((c + l - 1) / l == 1) by (nonlinear_arith)
                requires
                    l >= 1,
                    1 <= c <= l,
            ;
        }
    } else {
        lemma_segments_len_take(segs, i);
        lemma_segments_len_monotone(segs, i + 1);
        assert(segs[i].length > 0);
        if cur.len() > 0 && full(cur, limit) {
            lemma_packed_count(segs, i, seq![], limit);
            let rest = segs.len() - i;
            assert((l + rest + l - 1) / l == 1 + (rest + l - 1) / l) by (nonlinear_arith)
                requires
                    l >= 1,
                    rest >= 0,
            ;
        } else {
            let sge = Sge {
                addr: (segs[i].local_addr + 0) as u64,
                length: segs[i].length as u32,
                lkey: segs[i].lkey,
            };
            lemma_sges_push(cur, sge);
            lemma_packed_count(segs, i + 1, cur.push(sge), limit);
            assert(packed(segs, i, 0, cur, limit) == packed(
                segs,
                i,
                segs[i].length as int,
                cur.push(sge),
                limit,
            ));
        }
    }
}

/// Segments that hold at least one byte each, and at most [`WRITE_WR_MAX`]
/// together, need one work request for every `max_sge` of them.
pub proof fn law_gather_count(segs: Seq<WriteSegment>, max_sge: usize)
    requires
        plannable(segs),
        forall|k: int| 0 <= k < segs.len() ==> (#[trigger] segs[k]).length > 0,
        segments_len(segs) <= WRITE_WR_MAX,
    ensures
        gather_plan(segs, max_sge).len() == groups(segs.len() as int, sge_limit(max_sge) as int),
{
    assert(segs.take(0) =~= seq![]);
    lemma_packed_count(segs, 0, seq![], sge_limit(max_sge));
}

/// Work requests that the segments `[start, end)` need.
pub open spec fn wrs_needed(segs: Seq<WriteSegment>, start: int, end: int, max_sge: usize) -> nat {
    gather_plan(segs.subrange(start, end), max_sge).len()
}

/// Where a batch that starts at `start` ends when at most `pool` work requests fit
/// the send queue at once: it is as long as possible, and holds one segment at
/// least.
pub open spec fn is_batch_end(
    segs: Seq<WriteSegment>,
    start: int,
    end: int,
    max_sge: usize,
    pool: usize,
) -> bool {
    &&& start < end <= segs.len()
    &&& end == start + 1 || wrs_needed(segs, start, end, max_sge) <= pool
    &&& end == segs.len() || wrs_needed(segs, start, end + 1, max_sge) > pool
}

proof fn lemma_packed_at_least_current(
    segs: Seq<WriteSegment>,
    i: int,
    off: int,
    cur: Seq<Sge>,
    limit: usize,
)
    requires
        0 <= i,
        cur.len() > 0,
    ensures
        packed(segs, i, off, cur, limit).len() >= 1,
    decreases segs.len() - i, segs[i].length - off, cur.len(),
{
    if i >= segs.len() {
    } else if off >= segs[i].length {
        lemma_packed_at_least_current(segs, i + 1, 0, cur, limit);
    } else if full(cur, limit) {
    } else {
        let room = WRITE_WR_MAX - sges_len(cur);
        let take = if segs[i].length - off < room {
            segs[i].length - off
        } else {
            room
        };
        let sge = Sge {
            addr: (segs[i].local_addr + off) as u64,
            length: take as u32,
            lkey: segs[i].lkey,
        };
        lemma_packed_at_least_current(segs, i, off + take, cur.push(sge), limit);
    }
}

proof fn lemma_packed_prefix(
    segs: Seq<WriteSegment>,
    n: int,
    i: int,
    off: int,
    cur: Seq<Sge>,
    limit: usize,
)
    requires
        0 <= i <= n <= segs.len(),
        0 <= off,
    ensures
        packed(segs.take(n), i, off, cur, limit).len() <= packed(segs, i, off, cur, limit).len(),
    decreases n - i, segs[i].length - off, cur.len(),
{
    let pre = segs.take(n);
    if i >= n {
        if cur.len() > 0 {
            lemma_packed_at_least_current(segs, i, off, cur, limit);
        }
    } else {
        assert(pre[i] == segs[i]);
        if off >= segs[i].length {
            lemma_packed_prefix(segs, n, i + 1, 0, cur, limit);
        } else if cur.len() > 0 && full(cur, limit) {
            lemma_packed_prefix(segs, n, i, off, seq![], limit);
        } else {
            let room = WRITE_WR_MAX - sges_len(cur);
            let take = if segs[i].length - off < room {
                segs[i].length - off
            } else {
                room
            };
            let sge = Sge {
                addr: (segs[i].local_addr + off) as u64,
                length: take as u32,
                lkey: segs[i].lkey,
            };
            lemma_packed_prefix(segs, n, i, off + take, cur.push(sge), limit);
        }
    }
}

/// More segments never need fewer work requests, so the end of a batch is unique.
pub proof fn law_wrs_needed_monotone(
    segs: Seq<WriteSegment>,
    start: int,
    end: int,
    further: int,
    max_sge: usize,
)
    requires
        0 <= start <= end <= further <= segs.len(),
    ensures
        wrs_needed(segs, start, end, max_sge) <= wrs_needed(segs, start, further, max_sge),
{
    let long = segs.subrange(start, further);
    assert(long.take(end - start) =~= segs.subrange(start, end));
    lemma_packed_prefix(long, end - start, 0, 0, seq![], sge_limit(max_sge));
}

proof fn lemma_segments_len_subrange(segs: Seq<WriteSegment>, start: int, end: int)
    requires
        0 <= start <= end <= segs.len(),
    ensures
        segments_len(segs.subrange(start, end)) + segments_len(segs.take(start)) == segments_len(
            segs.take(end),
        ),
    decreases end - start,
{
    if start == end {
        assert(segs.subrange(start, end) =~= seq![]);
    } else {
        lemma_segments_len_subrange(segs, start, end - 1);
        assert(segs.subrange(start, end).drop_last() =~= segs.subrange(start, end - 1));
        lemma_segments_len_take(segs, end - 1);
    }
}

proof fn lemma_plannable_subrange(segs: Seq<WriteSegment>, start: int, end: int)
    requires
        plannable(segs),
        0 <= start <= end <= segs.len(),
    ensures
        plannable(segs.subrange(start, end)),
        segments_len(segs.take(end)) <= segments_len(segs),
{
    lemma_segments_len_subrange(segs, start, end);
    lemma_segments_len_monotone(segs, end);
    let sub = segs.subrange(start, end);
    assert forall|i: int| 0 <= i < sub.len() implies (#[trigger] sub[i]).well_formed() by {
        assert(sub[i] == segs[start + i]);
    }
}

/// The next batch of a gather write whose work requests may not fit the send
/// queue at once: how many segments from `start` on it takes and their total
/// length.
pub fn next_gather_batch(
    segments: &[WriteSegment],
    start: usize,
    max_sge: usize,
    pool: usize,
) -> (r: (usize, u64))
    requires
        plannable(segments@),
        start < segments@.len(),
    ensures
        is_batch_end(segments@, start as int, start + r.0, max_sge, pool),
        r.1 == segments_len(segments@.subrange(start as int, start + r.0)),
{
    let len: usize = segments.len();
    let mut end: usize = start + 1;
    let mut bytes: u64 = segments[start].length as u64;
    proof {
        let one = segments@.subrange(start as int, start + 1);
        assert(one.drop_last() =~= seq![]);
        assert(segments_len(one.drop_last()) == 0);
        lemma_plannable_subrange(segments@, start as int, start + 1);
    }
    while end < len
        invariant
            plannable(segments@),
            len == segments@.len(),
            start < end <= len,
            end == start + 1 || wrs_needed(segments@, start as int, end as int, max_sge) <= pool,
            bytes == segments_len(segments@.subrange(start as int, end as int)),
        ensures
            is_batch_end(segments@, start as int, end as int, max_sge, pool),
            bytes == segments_len(segments@.subrange(start as int, end as int)),
        decreases len - end,
    {
        proof {
            lemma_plannable_subrange(segments@, start as int, end + 1);
            assert(segments@.subrange(start as int, end + 1).drop_last() =~= segments@.subrange(
                start as int,
                end as int,
            ));
        }
        let longer: &[WriteSegment] = vstd::slice::slice_subrange(segments, start, end + 1);
        let wrs = plan_gather(longer, max_sge);
        if wrs.len() > pool {
            break;
        }
        bytes = bytes + segments[end].length as u64;
        end = end + 1;
    }
    (end - start, bytes)
}

/// One batch of a gather write: the segments `[start, end)`, laid down at
/// `peer_addr`, with the immediate on the last batch only.
#[derive(Debug, Clone, Copy, PartialEq, Eq, Structural)]
pub struct WriteBatch {
    /// First segment.
    pub start: usize,
    /// One past the last segment.
    pub end: usize,
    /// Where in the peer's memory the batch starts.
    pub peer_addr: u64,
    /// The immediate of the last batch.
    pub imm: Option<u32>,
}

/// Whether `batches` split a gather write as they must: consecutively from the
/// first segment to the last, each as long as the send queue allows and laid down
/// where the one before it ends, with the immediate on the last one only. A write
/// without segments is one empty batch.
pub open spec fn splits(
    batches: Seq<WriteBatch>,
    segs: Seq<WriteSegment>,
    peer_addr: u64,
    imm: Option<u32>,
    max_sge: usize,
    pool: usize,
) -> bool {
    if segs.len() == 0 {
        batches == seq![WriteBatch { start: 0, end: 0, peer_addr, imm }]
    } else {
        &&& batches.len() > 0
        &&& batches.last().end == segs.len()
        &&& forall|k: int|
            0 <= k < batches.len() ==> {
                let b = #[trigger] batches[k];
                &&& b.start == (if k == 0 {
                    0
                } else {
                    batches[k - 1].end as int
                })
                &&& is_batch_end(segs, b.start as int, b.end as int, max_sge, pool)
                &&& b.peer_addr == peer_addr + segments_len(segs.take(b.start as int))
                &&& b.imm == (if k == batches.len() - 1 {
                    imm
                } else {
                    None
                })
            }
    }
}

/// Splits a gather write into batches that fit a send queue of `pool` work
/// requests.
pub fn plan_batches(
    segments: &[WriteSegment],
    peer_addr: u64,
    imm: Option<u32>,
    max_sge: usize,
    pool: usize,
) -> (r: Vec<WriteBatch>)
    requires
        plannable(segments@),
        peer_addr + segments_len(segments@) <= u64::MAX,
    ensures
        splits(r@, segments@, peer_addr, imm, max_sge, pool),
{
    let mut batches: Vec<WriteBatch> = Vec::new();
    let len: usize = segments.len();
    if len == 0 {
        batches.push(WriteBatch { start: 0, end: 0, peer_addr, imm });
        assert(batches@ =~= seq![WriteBatch { start: 0, end: 0, peer_addr, imm }]);
        return batches;
    }
    let mut start: usize = 0;
    let mut base: u64 = 0;
    assert(segments@.take(0) =~= seq![]);
    while start < len
        invariant
            plannable(segments@),
            len == segments@.len(),
            len > 0,
            start <= len,
            base == segments_len(segments@.take(start as int)),
            peer_addr + segments_len(segments@) <= u64::MAX,
            start == 0 <==> batches@.len() == 0,
            batches@.len() > 0 ==> batches@.last().end == start,
            forall|k: int|
                0 <= k < batches@.len() ==> {
                    let b = #[trigger] batches@[k];
                    &&& b.start == (if k == 0 {
                        0
                    } else {
                        batches@[k - 1].end as int
                    })
                    &&& is_batch_end(segments@, b.start as int, b.end as int, max_sge, pool)
                    &&& b.peer_addr == peer_addr + segments_len(segments@.take(b.start as int))
                    &&& b.imm == (if k == batches@.len() - 1 && start == len {
                        imm
                    } else {
                        None
                    })
                },
        decreases len - start,
    {
        let ghost before = batches@;
        let (n, n_bytes) = next_gather_batch(segments, start, max_sge, pool);
        let end: usize = start + n;
        proof {
            lemma_plannable_subrange(segments@, start as int, end as int);
            lemma_segments_len_subrange(segments@, start as int, end as int);
            lemma_segments_len_monotone(segments@, start as int);
        }
        let imm_here: Option<u32> = if end == len {
            imm
        } else {
            None
        };
        batches.push(WriteBatch { start, end, peer_addr: peer_addr + base, imm: imm_here });
        proof {
            assert forall|k: int| 0 <= k < batches@.len() implies ({
                let b = #[trigger] batches@[k];
                &&& b.start == (if k == 0 {
                    0
                } else {
                    batches@[k - 1].end as int
                })
                &&& is_batch_end(segments@, b.start as int, b.end as int, max_sge, pool)
                &&& b.peer_addr == peer_addr + segments_len(segments@.take(b.start as int))
                &&& b.imm == (if k == batches@.len() - 1 && end == len {
                    imm
                } else {
                    None
                })
            }) by {
                if k < before.len() {
                    assert(batches@[k] == before[k]);
                    if k > 0 {
                        assert(batches@[k - 1] == before[k - 1]);
                    }
                }
            }
        }
        start = end;
        base = base + n_bytes;
    }
    batches
}

proof fn lemma_plan_bytes_from(plan: Seq<Seq<Sge>>, k: int)
    requires
        0 <= k <= plan.len(),
    ensures
        plan_offset(plan, k) <= plan_bytes(plan).len(),
        plan_bytes(plan).skip(plan_offset(plan, k) as int) == plan_bytes(plan.skip(k)),
    decreases k,
{
    lemma_offset_is_bytes(plan, k);
    if k == 0 {
        assert(plan.skip(0) =~= plan);
        assert(plan_bytes(plan).skip(0) =~= plan_bytes(plan));
    } else {
        lemma_plan_bytes_from(plan, k - 1);
        lemma_sges_bytes_len(plan[k - 1]);
        let rest = plan.skip(k - 1);
        assert(rest.drop_first() =~= plan.skip(k));
        assert(rest[0] == plan[k - 1]);
        let front = sges_bytes(plan[k - 1]);
        assert(plan_bytes(plan).skip(plan_offset(plan, k) as int) =~= plan_bytes(rest).skip(
            front.len() as int,
        ));
        assert((front + plan_bytes(plan.skip(k))).skip(front.len() as int) =~= plan_bytes(
            plan.skip(k),
        ));
    }
}

/// Byte `j` of the `k`-th work request of a plan is the byte of the source that as
/// many bytes precede as earlier work requests and `j` make up.
pub proof fn law_gather_keeps_positions(segs: Seq<WriteSegment>, max_sge: usize, k: int, j: int)
    requires
        plannable(segs),
        0 <= k < gather_plan(segs, max_sge).len(),
        0 <= j < sges_len(gather_plan(segs, max_sge)[k]),
    ensures
        ({
            let plan = gather_plan(segs, max_sge);
            let at = plan_offset(plan, k) + j;
            &&& at < segments_len(segs)
            &&& source_bytes(segs, 0, 0).len() == segments_len(segs)
            &&& sges_bytes(plan[k]).len() == sges_len(plan[k])
            &&& sges_bytes(plan[k])[j] == source_bytes(segs, 0, 0)[at]
        }),
{
    let plan = gather_plan(segs, max_sge);
    law_gather_covers(segs, max_sge);
    law_gather_stays_in_span(segs, max_sge, k);
    lemma_plan_bytes_from(plan, k);
    lemma_sges_bytes_len(plan[k]);
    lemma_source_len(segs, 0);
    assert(segs.take(0) =~= seq![]);
    let off = plan_offset(plan, k) as int;
    assert(plan.skip(k)[0] == plan[k]);
    assert(plan_bytes(plan.skip(k))[j] == sges_bytes(plan[k])[j]);
    assert(plan_bytes(plan).skip(off)[j] == plan_bytes(plan)[off + j]);
}

/// The batches of a gather write are consecutive and cover it: the first begins with
/// the first segment at the start of the destination, each further one begins with
/// the segment and at the address where the one before it ends, and the last ends
/// with the last segment and is the only one with the immediate.
pub proof fn law_batches_are_consecutive(
    batches: Seq<WriteBatch>,
    segs: Seq<WriteSegment>,
    peer_addr: u64,
    imm: Option<u32>,
    max_sge: usize,
    pool: usize,
    k: int,
)
    requires
        splits(batches, segs, peer_addr, imm, max_sge, pool),
        0 <= k < batches.len(),
    ensures
        batches[0].start == 0 && batches[0].peer_addr == peer_addr,
        batches.last().end == segs.len() && batches.last().imm == imm,
        0 <= batches[k].start <= batches[k].end <= segs.len(),
        k > 0 ==> {
            let before = batches[k - 1];
            &&& batches[k].start == before.end
            &&& batches[k].peer_addr == before.peer_addr + segments_len(
                segs.subrange(before.start as int, before.end as int),
            )
        },
        k < batches.len() - 1 ==> batches[k].imm is None,
{
    assert(batches[0].start == 0);
    assert(segs.take(0) =~= seq![]);
    assert(batches[batches.len() - 1] == batches.last());
    if segs.len() > 0 && k > 0 {
        let before = batches[k - 1];
        lemma_segments_len_subrange(segs, before.start as int, before.end as int);
    }
}

/// Each batch of a gather write fits the send queue, unless it is a single segment
/// that needs more on its own, and none could take one segment more.
pub proof fn law_batches_fill_the_queue(
    batches: Seq<WriteBatch>,
    segs: Seq<WriteSegment>,
    peer_addr: u64,
    imm: Option<u32>,
    max_sge: usize,
    pool: usize,
    k: int,
)
    requires
        splits(batches, segs, peer_addr, imm, max_sge, pool),
        segs.len() > 0,
        0 <= k < batches.len(),
    ensures
        ({
            let (start, end) = (batches[k].start as int, batches[k].end as int);
            &&& end > start
            &&& end > start + 1 ==> gather_plan(segs.subrange(start, end), max_sge).len() <= pool
            &&& end < segs.len() ==> gather_plan(segs.subrange(start, end + 1), max_sge).len()
                > pool
        }),
{
    assert(is_batch_end(
        segs,
        batches[k].start as int,
        batches[k].end as int,
        max_sge,
        pool,
    ));
}

/// A work request carries as many elements as are asked for, but at least one and at
/// most sixteen.
pub proof fn law_elements_are_clamped(max_sge: usize)
    ensures
        1 <= sge_limit(max_sge) <= 16,
        1 <= max_sge <= 16 ==> sge_limit(max_sge) == max_sge,
        max_sge == 0 ==> sge_limit(max_sge) == 1,
        max_sge > 16 ==> sge_limit(max_sge) == 16,
{
}

/// No work request moves more than a gibibyte, and every one but the last holds as
/// many elements or as many bytes as it can.
pub proof fn law_requests_are_filled(segs: Seq<WriteSegment>, max_sge: usize, k: int)
    requires
        plannable(segs),
        0 <= k < gather_plan(segs, max_sge).len(),
    ensures
        ({
            let plan = gather_plan(segs, max_sge);
            &&& 0 < sges_len(plan[k]) <= 0x4000_0000
            &&& k + 1 < plan.len() ==> plan[k].len() == sge_limit(max_sge) || sges_len(plan[k])
                == 0x4000_0000
        }),
{
    law_gather_caps(segs, max_sge, k);
    lemma_sges_positive(gather_plan(segs, max_sge)[k]);
}

/// The work requests of a plan lay the source down without gaps or overlaps: the first
/// starts at the start of the destination, each further one where the one before it
/// ends, and byte `j` of the `k`-th is the byte of the source at the place where it is
/// laid down.
pub proof fn law_planned_requests_are_contiguous(
    wrs: Seq<GatherWr>,
    segs: Seq<WriteSegment>,
    max_sge: usize,
    k: int,
    j: int,
)
    requires
        plannable(segs),
        lays_down(wrs, gather_plan(segs, max_sge)),
        0 <= k < wrs.len(),
        0 <= j < sges_len(wrs[k].sges@),
    ensures
        wrs[0].remote_off == 0,
        k > 0 ==> wrs[k].remote_off == wrs[k - 1].remote_off + sges_len(wrs[k - 1].sges@),
        k == wrs.len() - 1 ==> wrs[k].remote_off + sges_len(wrs[k].sges@) == segments_len(segs),
        wrs[k].remote_off + j < segments_len(segs),
        sges_bytes(wrs[k].sges@)[j] == source_bytes(segs, 0, 0)[wrs[k].remote_off + j],
{
    let plan = gather_plan(segs, max_sge);
    assert(wrs[0].sges@ == plan[0]);
    assert(wrs[k].sges@ == plan[k]);
    if k > 0 {
        assert(wrs[k - 1].sges@ == plan[k - 1]);
    }
    law_gather_keeps_positions(segs, max_sge, k, j);
    law_gather_covers(segs, max_sge);
    if k == wrs.len() - 1 {
        lemma_plan_bytes_from(plan, k);
        lemma_sges_bytes_len(plan[k]);
        lemma_source_len(segs, 0);
        assert(segs.take(0) =~= seq![]);
        let last = plan.skip(k);
        assert(last =~= seq![plan[k]]);
        reveal_with_fuel(plan_bytes, 2);
        assert(plan_bytes(last) =~= sges_bytes(plan[k]));
    }
}

/// A span of registered memory names the bytes of that memory from its offset on, under
/// its key, and as many as it is long.
pub proof fn law_segment_names_its_bytes(addr: u64, lkey: u32, off: usize, len: usize, j: int)
    requires
        addr + off + len <= u64::MAX,
        0 <= j < len,
    ensures
        ({
            let bytes = source_bytes(seq![WriteSegment::span_at(addr, lkey, off, len)], 0, 0);
            bytes.len() == len && bytes[j] == (addr + off + j, lkey)
        }),
{
    reveal_with_fuel(source_bytes, 2);
}

} // verus!
