//! Work-request identifiers.
//!
//! The top four bits of an identifier say which lane its completion belongs to;
//! the rest is a buffer slot or a position in a batch of writes.

use vstd::prelude::*;

verus! {

/// Marks a two-sided send.
pub const SEND_FLAG: u64 = 0x8000_0000_0000_0000;

/// Marks the reserved control send, together with [`SEND_FLAG`].
pub const CTRL_FLAG: u64 = 0x4000_0000_0000_0000;

/// Marks a one-sided write.
pub const WRITE_FLAG: u64 = 0x2000_0000_0000_0000;

/// Marks the write-with-immediate of a split transfer, together with
/// [`WRITE_FLAG`].
pub const IMM_FLAG: u64 = 0x1000_0000_0000_0000;

/// All four lane bits.
pub const LANE_MASK: u64 = 0xF000_0000_0000_0000;

/// Slots and batch positions are below this, so they never reach a lane bit.
pub const SLOT_LIMIT: u64 = 0x1000_0000_0000_0000;

/// Identifier of the receive that takes the peer's handshake.
pub const HS_RECV_WR_ID: u64 = 0xFFFF_FFFF_FFFF_FFFF;

/// Identifier of the send that carries this end's handshake.
pub const HS_SEND_WR_ID: u64 = 0xFFFF_FFFF_FFFF_FFFE;

/// Identifier of the receive into `slot`.
pub fn recv_wr_id(slot: usize) -> (r: u64)
    ensures
        r == slot as u64,
{
    slot as u64
}

/// Identifier of a data send from `slot`.
pub fn send_wr_id(slot: usize) -> (r: u64)
    ensures
        r == SEND_FLAG | slot as u64,
{
    SEND_FLAG | slot as u64
}

/// Identifier of the control send from `slot`.
pub fn ctrl_send_wr_id(slot: usize) -> (r: u64)
    ensures
        r == SEND_FLAG | CTRL_FLAG | slot as u64,
{
    SEND_FLAG | CTRL_FLAG | slot as u64
}

/// Identifier of the one-sided write at position `chunk` of its batch.
pub fn write_wr_id(chunk: u64) -> (r: u64)
    ensures
        r == WRITE_FLAG | chunk,
{
    WRITE_FLAG | chunk
}

/// Identifier of the write-with-immediate at position `chunk` of its batch.
pub fn imm_write_wr_id(chunk: u64) -> (r: u64)
    ensures
        r == WRITE_FLAG | IMM_FLAG | chunk,
{
    WRITE_FLAG | IMM_FLAG | chunk
}

/// Whether the send bit is set.
pub open spec fn sends(wr_id: u64) -> bool {
    wr_id & SEND_FLAG != 0
}

/// Whether the control bit is set.
pub open spec fn controls(wr_id: u64) -> bool {
    wr_id & CTRL_FLAG != 0
}

/// Whether the write bit is set.
pub open spec fn writes(wr_id: u64) -> bool {
    wr_id & WRITE_FLAG != 0
}

/// Whether the immediate bit is set.
pub open spec fn immediates(wr_id: u64) -> bool {
    wr_id & IMM_FLAG != 0
}

/// The slot or batch position below the lane bits.
pub open spec fn slot_in(wr_id: u64) -> usize {
    (wr_id & !LANE_MASK) as usize
}

/// Whether the identifier is that of a two-sided send.
pub fn is_send(wr_id: u64) -> (r: bool)
    ensures
        r == sends(wr_id),
{
    wr_id & SEND_FLAG != 0
}

/// Whether the identifier is that of a control send.
pub fn is_ctrl_send(wr_id: u64) -> (r: bool)
    ensures
        r == controls(wr_id),
{
    wr_id & CTRL_FLAG != 0
}

/// Whether the identifier is that of a one-sided write, with or without
/// immediate.
pub fn is_write(wr_id: u64) -> (r: bool)
    ensures
        r == writes(wr_id),
{
    wr_id & WRITE_FLAG != 0
}

/// Whether the identifier is that of a write-with-immediate.
pub fn is_imm_write(wr_id: u64) -> (r: bool)
    ensures
        r == immediates(wr_id),
{
    wr_id & IMM_FLAG != 0
}

/// The slot or batch position of an identifier.
pub fn slot_of(wr_id: u64) -> (r: usize)
    ensures
        r == slot_in(wr_id),
{
    (wr_id & !LANE_MASK) as usize
}

/// Every identifier gives back its slot or position, and its lane bits tell what
/// it was made for: a receive, a data send, a control send, a plain write or a
/// write-with-immediate.
pub proof fn law_wr_id_lanes(slot: usize)
    requires
        slot < SLOT_LIMIT,
    ensures
        ({
            let r = slot as u64;
            slot_in(r) == slot && !sends(r) && !controls(r) && !writes(r) && !immediates(r)
        }),
        ({
            let s = SEND_FLAG | slot as u64;
            slot_in(s) == slot && sends(s) && !controls(s) && !writes(s) && !immediates(s)
        }),
        ({
            let c = SEND_FLAG | CTRL_FLAG | slot as u64;
            slot_in(c) == slot && sends(c) && controls(c) && !writes(c) && !immediates(c)
        }),
        ({
            let w = WRITE_FLAG | slot as u64;
            slot_in(w) == slot && !sends(w) && !controls(w) && writes(w) && !immediates(w)
        }),
        ({
            let i = WRITE_FLAG | IMM_FLAG | slot as u64;
            slot_in(i) == slot && !sends(i) && !controls(i) && writes(i) && immediates(i)
        }),
{
    lemma_lane_bits(slot as u64);
}

/// The lane bits of each kind of identifier, and what is left without them.
proof fn lemma_lane_bits(x: u64)
    by (bit_vector)
    requires
        x < SLOT_LIMIT,
    ensures
        x & !LANE_MASK == x,
        x & SEND_FLAG == 0 && x & CTRL_FLAG == 0 && x & WRITE_FLAG == 0 && x & IMM_FLAG == 0,
        (SEND_FLAG | x) & !LANE_MASK == x,
        (SEND_FLAG | x) & SEND_FLAG != 0 && (SEND_FLAG | x) & CTRL_FLAG == 0,
        (SEND_FLAG | x) & WRITE_FLAG == 0 && (SEND_FLAG | x) & IMM_FLAG == 0,
        (SEND_FLAG | CTRL_FLAG | x) & !LANE_MASK == x,
        (SEND_FLAG | CTRL_FLAG | x) & SEND_FLAG != 0,
        (SEND_FLAG | CTRL_FLAG | x) & CTRL_FLAG != 0,
        (SEND_FLAG | CTRL_FLAG | x) & WRITE_FLAG == 0,
        (SEND_FLAG | CTRL_FLAG | x) & IMM_FLAG == 0,
        (WRITE_FLAG | x) & !LANE_MASK == x,
        (WRITE_FLAG | x) & SEND_FLAG == 0 && (WRITE_FLAG | x) & CTRL_FLAG == 0,
        (WRITE_FLAG | x) & WRITE_FLAG != 0 && (WRITE_FLAG | x) & IMM_FLAG == 0,
        (WRITE_FLAG | IMM_FLAG | x) & !LANE_MASK == x,
        (WRITE_FLAG | IMM_FLAG | x) & SEND_FLAG == 0,
        (WRITE_FLAG | IMM_FLAG | x) & CTRL_FLAG == 0,
        (WRITE_FLAG | IMM_FLAG | x) & WRITE_FLAG != 0,
        (WRITE_FLAG | IMM_FLAG | x) & IMM_FLAG != 0,
{
}

/// The two handshake identifiers differ from each other and from every identifier
/// of the data phase.
pub proof fn law_handshake_wr_ids_reserved(hs: u64, slot: usize)
    requires
        hs == HS_RECV_WR_ID || hs == HS_SEND_WR_ID,
        slot < SLOT_LIMIT,
    ensures
        HS_RECV_WR_ID != HS_SEND_WR_ID,
        hs != slot as u64,
        hs != SEND_FLAG | slot as u64,
        hs != SEND_FLAG | CTRL_FLAG | slot as u64,
        hs != WRITE_FLAG | slot as u64,
        hs != WRITE_FLAG | IMM_FLAG | slot as u64,
{
    let x = slot as u64;
    assert(x < SLOT_LIMIT ==> x < 0xFFFF_FFFF_FFFF_FFFE && (SEND_FLAG | x) < 0xFFFF_FFFF_FFFF_FFFE
        && (SEND_FLAG | CTRL_FLAG | x) < 0xFFFF_FFFF_FFFF_FFFE && (WRITE_FLAG | x)
        < 0xFFFF_FFFF_FFFF_FFFE && (WRITE_FLAG | IMM_FLAG | x) < 0xFFFF_FFFF_FFFF_FFFE)
        by (bit_vector);
}

} // verus!
