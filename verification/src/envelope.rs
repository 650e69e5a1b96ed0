//! The message envelope.
//!
//! Every two-sided RDMA send carries one envelope followed by its payload:
//!
//! ```text
//! 0       4       length   (payload bytes, u32 BE)
//! 4       2       credits  (flow-control credits granted to the peer, u16 BE)
//! 6       2       flags    (u16 BE)
//! 8       ...     payload
//! ```

use vstd::prelude::*;
use crate::wire::{
    be16, be16_at, be32, be32_at, lemma_be16, lemma_be16_back, lemma_be32, lemma_be32_back,
    read_be16, read_be32,
};

pub mod flags;

verus! {

/// Envelope header size in bytes.
pub const ENVELOPE_LEN: usize = 8;

/// The header in front of every message.
#[derive(Debug, Clone, Copy, PartialEq, Eq, Structural)]
pub struct Envelope {
    /// Payload bytes that follow the header.
    pub length: u32,
    /// Data credits granted to the receiver of the message.
    pub credits: u16,
    /// Flag bits, see [`flags`].
    pub flags: u16,
}

impl Envelope {
    /// Whether the `CREDIT_ONLY` bit is set.
    pub open spec fn credit_only(self) -> bool {
        self.flags & flags::CREDIT_ONLY != 0
    }

    /// The eight header bytes.
    pub open spec fn wire(self) -> Seq<u8> {
        be32(self.length) + be16(self.credits) + be16(self.flags)
    }

    /// The envelope that the first eight bytes of `s` hold.
    pub open spec fn parsed(s: Seq<u8>) -> Envelope {
        Envelope { length: be32_at(s, 0), credits: be16_at(s, 4), flags: be16_at(s, 6) }
    }

    /// Whether the message carries no data and only replenishes credits.
    pub fn is_credit_only(&self) -> (r: bool)
        ensures
            r == self.credit_only(),
    {
        self.flags & flags::CREDIT_ONLY != 0
    }

    /// Writes the header into the first [`ENVELOPE_LEN`] bytes of `out` and
    /// leaves the rest as it is.
    pub fn encode(&self, out: &mut [u8])
        requires
            old(out)@.len() >= ENVELOPE_LEN,
        ensures
            final(out)@ == self.wire() + old(out)@.skip(ENVELOPE_LEN as int),
    {
        out[0] = (self.length / 0x100_0000) as u8;
        out[1] = ((self.length / 0x1_0000) % 0x100) as u8;
        out[2] = ((self.length / 0x100) % 0x100) as u8;
        out[3] = (self.length % 0x100) as u8;
        out[4] = (self.credits / 0x100) as u8;
        out[5] = (self.credits % 0x100) as u8;
        out[6] = (self.flags / 0x100) as u8;
        out[7] = (self.flags % 0x100) as u8;
        assert(out@ =~= self.wire() + old(out)@.skip(ENVELOPE_LEN as int));
    }

    /// Parses the header at the front of `buf`.
    pub fn decode(buf: &[u8]) -> (r: Envelope)
        requires
            buf@.len() >= ENVELOPE_LEN,
        ensures
            r == Envelope::parsed(buf@),
    {
        Envelope { length: read_be32(buf, 0), credits: read_be16(buf, 4), flags: read_be16(buf, 6) }
    }
}

/// Decoding gives back every envelope that was encoded, whatever follows it.
pub proof fn law_envelope_round_trip(e: Envelope, payload: Seq<u8>)
    ensures
        e.wire().len() == ENVELOPE_LEN,
        Envelope::parsed(e.wire() + payload) == e,
{
    let s = e.wire() + payload;
    assert(s.subrange(0, 4) =~= be32(e.length));
    assert(s.subrange(4, 6) =~= be16(e.credits));
    assert(s.subrange(6, 8) =~= be16(e.flags));
    lemma_be32(s, 0, e.length);
    lemma_be16(s, 4, e.credits);
    lemma_be16(s, 6, e.flags);
}

/// Where the fields of an envelope stand: the length in the first four bytes, the
/// credits in the next two, the flags in the last two, each with its most significant
/// byte first. Eight bytes are an envelope whatever they hold, and encode to
/// themselves. The lowest flag marks a credit return.
pub proof fn law_envelope_layout(s: Seq<u8>)
    requires
        s.len() >= 8,
    ensures
        ({
            let e = Envelope::parsed(s);
            &&& e.length == ((s[0] * 0x100 + s[1]) * 0x100 + s[2]) * 0x100 + s[3]
            &&& e.credits == s[4] * 0x100 + s[5]
            &&& e.flags == s[6] * 0x100 + s[7]
            &&& e.wire() == s.take(8)
            &&& e.credit_only() <==> s[7] % 2 == 1
        }),
{
    let e = Envelope::parsed(s);
    lemma_be32_back(s, 0);
    lemma_be16_back(s, 4);
    lemma_be16_back(s, 6);
    assert(e.wire() =~= s.take(8));
    lemma_low_flag(e.flags, s[6], s[7]);
}

/// The lowest bit of two bytes is that of the second.
proof fn lemma_low_flag(f: u16, a: u8, b: u8)
    requires
        f == a * 0x100 + b,
    ensures
        f & flags::CREDIT_ONLY != 0 <==> b % 2 == 1,
{
    assert((f & 1 != 0) == (f % 2 == 1)) by (bit_vector);
}

} // verus!
