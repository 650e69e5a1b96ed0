//! What the NIC is told and what it reports, as plain values.

use vstd::prelude::*;

verus! {

/// Lets the NIC write to a memory region on behalf of this end.
pub const ACCESS_LOCAL_WRITE: i32 = 1;

/// Lets the peer RDMA-write into a memory region. It is only meaningful together
/// with [`ACCESS_LOCAL_WRITE`].
pub const ACCESS_REMOTE_WRITE: i32 = 2;

/// The most scatter/gather elements that one RDMA write carries.
pub const MAX_WRITE_SGE: usize = 16;

/// Retry and timeout parameters of the connection manager.
#[derive(Debug, Clone, Copy, PartialEq, Eq, Structural)]
pub struct CmParams {
    /// Transport retries on connect, `0..=7`.
    pub retry_count: u8,
    /// Receiver-not-ready retries; 7 means without end.
    pub rnr_retry_count: u8,
    /// Milliseconds for each of the address and route resolution steps.
    pub resolve_timeout_ms: i32,
}

impl CmParams {
    /// Seven retries of either kind and two seconds to resolve.
    pub open spec fn standard() -> CmParams {
        CmParams { retry_count: 7, rnr_retry_count: 7, resolve_timeout_ms: 2000 }
    }
}

impl CmParams {
    /// Milliseconds for a resolution step; a negative setting means none.
    pub fn resolve_timeout(&self) -> (r: u64)
        ensures
            r == (if self.resolve_timeout_ms < 0 {
                0
            } else {
                self.resolve_timeout_ms as int
            }),
    {
        if self.resolve_timeout_ms < 0 {
            0
        } else {
            self.resolve_timeout_ms as u64
        }
    }
}

impl Default for CmParams {
    fn default() -> (r: Self)
        ensures
            r == CmParams::standard(),
    {
        CmParams { retry_count: 7, rnr_retry_count: 7, resolve_timeout_ms: 2000 }
    }
}

/// What kind of work a completion reports.
#[derive(Debug, Clone, Copy, PartialEq, Eq, Structural)]
pub enum Opcode {
    /// A two-sided send left this end.
    Send,
    /// A one-sided write of this end was acknowledged, with or without immediate.
    RdmaWrite,
    /// A message arrived in a posted receive.
    Recv,
    /// The peer's write-with-immediate consumed a posted receive.
    RecvRdmaWithImm,
    /// Anything else, by its raw code.
    Other(u32),
}

impl Opcode {
    /// The opcode that the raw work-completion code `v` stands for.
    pub open spec fn of_raw(v: u32) -> Opcode {
        if v == 0 {
            Opcode::Send
        } else if v == 1 {
            Opcode::RdmaWrite
        } else if v == 128 {
            Opcode::Recv
        } else if v == 129 {
            Opcode::RecvRdmaWithImm
        } else {
            Opcode::Other(v)
        }
    }

    /// Maps a raw work-completion code.
    pub fn from_raw(v: u32) -> (r: Self)
        ensures
            r == Opcode::of_raw(v),
    {
        match v {
            0 => Opcode::Send,
            1 => Opcode::RdmaWrite,
            128 => Opcode::Recv,
            129 => Opcode::RecvRdmaWithImm,
            other => Opcode::Other(other),
        }
    }
}

/// One work completion drained from the completion queue.
#[derive(Debug, Clone, Copy, PartialEq, Eq, Structural)]
pub struct Completion {
    /// The identifier that the work request was posted with.
    pub wr_id: u64,
    /// Bytes received; meaningless for sends.
    pub byte_len: u32,
    /// What kind of work completed.
    pub opcode: Opcode,
    /// Raw status; zero is success.
    pub status: u32,
    /// The immediate of a [`Opcode::RecvRdmaWithImm`], zero for every other kind.
    pub imm_data: u32,
}

impl Completion {
    /// Whether the status is success.
    pub open spec fn success(self) -> bool {
        self.status == 0
    }

    /// A work completion as the queue reports it.
    pub open spec fn of_wc(
        wr_id: u64,
        byte_len: u32,
        opcode: u32,
        status: u32,
        imm: u32,
    ) -> Completion {
        Completion {
            wr_id,
            byte_len,
            opcode: Opcode::of_raw(opcode),
            status,
            imm_data: if opcode == 129 {
                imm
            } else {
                0
            },
        }
    }

    /// A work completion as the queue reports it. The immediate counts only where
    /// the peer's write-with-immediate consumed a receive.
    pub fn from_wc(wr_id: u64, byte_len: u32, opcode: u32, status: u32, imm: u32) -> (r: Self)
        ensures
            r == Completion::of_wc(wr_id, byte_len, opcode, status, imm),
    {
        let opcode: Opcode = Opcode::from_raw(opcode);
        let imm_data: u32 = match opcode {
            Opcode::RecvRdmaWithImm => imm,
            _ => 0,
        };
        Completion { wr_id, byte_len, opcode, status, imm_data }
    }

    /// Whether the work succeeded.
    pub fn is_success(&self) -> (r: bool)
        ensures
            r == self.success(),
    {
        self.status == 0
    }
}

/// One scatter/gather element: a span of local registered memory.
#[derive(Debug, Clone, Copy, PartialEq, Eq, Structural)]
pub struct Sge {
    /// First byte of the span.
    pub addr: u64,
    /// Bytes in the span.
    pub length: u32,
    /// Local key of the region the span lies in.
    pub lkey: u32,
}

/// Where a region of registered memory lies and which keys reach it.
#[derive(Debug, Clone, Copy, PartialEq, Eq, Structural)]
pub struct RegisteredBuffer {
    /// First byte.
    pub addr: u64,
    /// Bytes in the region.
    pub length: usize,
    /// Key for local access.
    pub local_key: u32,
    /// Key that a peer presents for remote access.
    pub remote_key: u32,
}

impl RegisteredBuffer {
    /// The region lies inside the address space.
    pub open spec fn well_formed(self) -> bool {
        self.addr + self.length <= u64::MAX
    }

    /// Whether `[off, off + len)` lies inside the region.
    pub open spec fn covers(self, off: int, len: int) -> bool {
        0 <= off && 0 <= len && off + len <= self.length
    }

    /// Bytes in the region.
    pub fn len(&self) -> (r: usize)
        ensures
            r == self.length,
    {
        self.length
    }

    /// Whether the region holds no byte.
    pub fn is_empty(&self) -> (r: bool)
        ensures
            r == (self.length == 0),
    {
        self.length == 0
    }

    /// Key for local access.
    pub fn lkey(&self) -> (r: u32)
        ensures
            r == self.local_key,
    {
        self.local_key
    }

    /// Key that a peer presents for remote access.
    pub fn rkey(&self) -> (r: u32)
        ensures
            r == self.remote_key,
    {
        self.remote_key
    }

    /// Whether a copy of `len` bytes at `off` stays inside the region.
    pub fn in_bounds(&self, off: usize, len: usize) -> (r: bool)
        ensures
            r == self.covers(off as int, len as int),
    {
        match off.checked_add(len) {
            Some(end) => end <= self.length,
            None => false,
        }
    }
}

/// Memory of the caller's own that is registered as the source of writes.
#[derive(Debug, Clone, Copy, PartialEq, Eq, Structural)]
pub struct Mr {
    /// First byte.
    pub addr: u64,
    /// Bytes in the region.
    pub length: usize,
    /// Key for local access.
    pub local_key: u32,
}

impl Mr {
    /// The region lies inside the address space.
    pub open spec fn well_formed(self) -> bool {
        self.addr + self.length <= u64::MAX
    }
}

/// Whether a registration with `access` lets the peer write.
pub fn remote_writable(access: i32) -> (r: bool)
    ensures
        r == (access & ACCESS_REMOTE_WRITE != 0),
{
    access & ACCESS_REMOTE_WRITE != 0
}

/// Completion-queue entries for a queue pair of the given depths.
pub fn cq_entries(send_wr: usize, recv_wr: usize) -> (r: usize)
    requires
        send_wr + recv_wr + 16 <= usize::MAX,
    ensures
        r == send_wr + recv_wr + 16,
{
    send_wr + recv_wr + 16
}

/// Every raw code stands for an opcode of its own, so that none is mistaken for
/// another, and an opcode that is not known keeps its code.
pub proof fn law_opcodes_are_told_apart(a: u32, b: u32)
    ensures
        Opcode::of_raw(a) == Opcode::of_raw(b) ==> a == b,
        Opcode::of_raw(a) matches Opcode::Other(v) ==> v == a,
        Opcode::of_raw(0) == Opcode::Send,
        Opcode::of_raw(1) == Opcode::RdmaWrite,
        Opcode::of_raw(128) == Opcode::Recv,
        Opcode::of_raw(129) == Opcode::RecvRdmaWithImm,
{
}

/// A completion keeps what the queue reports of it; the immediate counts exactly where
/// the peer's write-with-immediate consumed a receive.
pub proof fn law_completion_keeps_its_report(wr_id: u64, byte_len: u32, opcode: u32, status: u32, imm: u32)
    ensures
        ({
            let wc = Completion::of_wc(wr_id, byte_len, opcode, status, imm);
            &&& wc.wr_id == wr_id && wc.byte_len == byte_len && wc.status == status
            &&& wc.opcode == Opcode::of_raw(opcode)
            &&& wc.opcode is RecvRdmaWithImm ==> wc.imm_data == imm
            &&& wc.opcode !is RecvRdmaWithImm ==> wc.imm_data == 0
            &&& wc.success() <==> status == 0
        }),
{
}

/// A span lies inside a region exactly if each of its bytes does, and an empty one if
/// it begins no later than the region ends.
pub proof fn law_span_in_region(buf: RegisteredBuffer, off: int, len: int)
    requires
        0 <= off,
        0 <= len,
    ensures
        len > 0 ==> (buf.covers(off, len) <==> 0 <= off + len - 1 < buf.length),
        len == 0 ==> (buf.covers(off, len) <==> off <= buf.length),
        buf.covers(0, buf.length as int),
        !buf.covers(1, buf.length as int),
{
}

} // verus!
