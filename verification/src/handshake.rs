//! The handshake that each end sends as its first message.
//!
//! ```text
//! 0       4       magic             ("HORD")
//! 4       2       version           (u16 BE)
//! 6       2       flags             (capabilities, u16 BE)
//! 8       4       max_message_size  (u32 BE)
//! 12      2       max_recv_buffers  (u16 BE)
//! 14      2       split_credits     (u16 BE)
//! ```
//!
//! A receiver accepts the first fourteen bytes alone; the split-credit window is
//! then zero.

use vstd::prelude::*;
use crate::wire::{
    be16, be16_at, be32, be32_at, lemma_be16, lemma_be16_back, lemma_be32, lemma_be32_back,
    read_be16, read_be32,
};

pub mod flags;

verus! {

/// ASCII "HORD" as a big-endian integer.
pub const MAGIC: u32 = 0x484F_5244;

/// Protocol version.
pub const VERSION: u16 = 1;

/// Wire size of the handshake.
pub const HANDSHAKE_LEN: usize = 16;

/// The shortest handshake that a receiver accepts.
pub const HANDSHAKE_MIN_LEN: usize = 14;

/// What one end tells the other about itself.
#[derive(Debug, Clone, Copy, PartialEq, Eq, Structural)]
pub struct Handshake {
    /// Protocol version of the sender.
    pub version: u16,
    /// Capability bits, see [`flags`].
    pub flags: u16,
    /// Largest message (envelope and payload) that the sender receives.
    pub max_message_size: u32,
    /// Receive buffers that the sender has posted for data.
    pub max_recv_buffers: u16,
    /// Split transfers that the sender can receive at once.
    pub split_credits: u16,
}

/// Why a peer's handshake is refused.
#[derive(Debug, Clone, Copy, PartialEq, Eq, Structural)]
pub enum HandshakeError {
    /// Fewer than [`HANDSHAKE_MIN_LEN`] bytes.
    TooShort {
        /// Bytes received.
        len: usize,
    },
    /// The first four bytes are not the magic.
    BadMagic {
        /// What they are.
        magic: u32,
    },
    /// A version that is not spoken here.
    BadVersion {
        /// The peer's version.
        version: u16,
    },
}

/// `flags` with the bits of `mask` set or cleared.
pub open spec fn with_bit(flags: u16, mask: u16, on: bool) -> u16 {
    if on {
        flags | mask
    } else {
        flags & !mask
    }
}

impl Handshake {
    /// Whether the zero-copy bit is set.
    pub open spec fn zero_copy(self) -> bool {
        self.flags & flags::ZERO_COPY_CAPABLE != 0
    }

    /// Whether the split-mode bit is set.
    pub open spec fn split_mode(self) -> bool {
        self.flags & flags::SPLIT_MODE_CAPABLE != 0
    }

    /// The sixteen bytes of the handshake.
    pub open spec fn wire(self) -> Seq<u8> {
        be32(MAGIC) + be16(self.version) + be16(self.flags) + be32(self.max_message_size) + be16(
            self.max_recv_buffers,
        ) + be16(self.split_credits)
    }

    /// What a receiver makes of the bytes `s`.
    pub open spec fn parsed(s: Seq<u8>) -> Result<Handshake, HandshakeError> {
        if s.len() < HANDSHAKE_MIN_LEN {
            Err(HandshakeError::TooShort { len: s.len() as usize })
        } else if be32_at(s, 0) != MAGIC {
            Err(HandshakeError::BadMagic { magic: be32_at(s, 0) })
        } else if be16_at(s, 4) != VERSION {
            Err(HandshakeError::BadVersion { version: be16_at(s, 4) })
        } else {
            Ok(
                Handshake {
                    version: be16_at(s, 4),
                    flags: be16_at(s, 6),
                    max_message_size: be32_at(s, 8),
                    max_recv_buffers: be16_at(s, 12),
                    split_credits: if s.len() < HANDSHAKE_LEN {
                        0
                    } else {
                        be16_at(s, 14)
                    },
                },
            )
        }
    }

    /// A handshake of this version that advertises no capability.
    pub fn new(max_message_size: u32, max_recv_buffers: u16) -> (r: Self)
        ensures
            r == (Handshake {
                version: VERSION,
                flags: 0,
                max_message_size,
                max_recv_buffers,
                split_credits: 0,
            }),
    {
        Handshake { version: VERSION, flags: 0, max_message_size, max_recv_buffers, split_credits: 0 }
    }

    /// Advertises or clears the zero-copy capability.
    pub fn with_zero_copy(self, on: bool) -> (r: Self)
        ensures
            r == (Handshake { flags: with_bit(self.flags, flags::ZERO_COPY_CAPABLE, on), ..self }),
            r.zero_copy() == on,
            r.split_mode() == self.split_mode(),
    {
        let f = self.flags;
        let g = if on {
            f | flags::ZERO_COPY_CAPABLE
        } else {
            f & !flags::ZERO_COPY_CAPABLE
        };
        proof {
            lemma_bits(f);
        }
        Handshake { flags: g, ..self }
    }

    /// Advertises or clears the split-mode capability.
    pub fn with_split_mode(self, on: bool) -> (r: Self)
        ensures
            r == (Handshake { flags: with_bit(self.flags, flags::SPLIT_MODE_CAPABLE, on), ..self }),
            r.split_mode() == on,
            r.zero_copy() == self.zero_copy(),
    {
        let f = self.flags;
        let g = if on {
            f | flags::SPLIT_MODE_CAPABLE
        } else {
            f & !flags::SPLIT_MODE_CAPABLE
        };
        proof {
            lemma_bits(f);
        }
        Handshake { flags: g, ..self }
    }

    /// Advertises the number of split transfers that can be received at once.
    pub fn with_split_credits(self, credits: u16) -> (r: Self)
        ensures
            r == (Handshake { split_credits: credits, ..self }),
    {
        Handshake { split_credits: credits, ..self }
    }

    /// Whether the sender supports zero-copy responses.
    pub fn zero_copy_capable(&self) -> (r: bool)
        ensures
            r == self.zero_copy(),
    {
        self.flags & flags::ZERO_COPY_CAPABLE != 0
    }

    /// Whether the sender supports protocol splitting.
    pub fn split_mode_capable(&self) -> (r: bool)
        ensures
            r == self.split_mode(),
    {
        self.flags & flags::SPLIT_MODE_CAPABLE != 0
    }

    /// The wire form.
    pub fn encode(&self) -> (r: [u8; HANDSHAKE_LEN])
        ensures
            r@ == self.wire(),
    {
        let b: [u8; HANDSHAKE_LEN] = [
            0x48,
            0x4F,
            0x52,
            0x44,
            (self.version / 0x100) as u8,
            (self.version % 0x100) as u8,
            (self.flags / 0x100) as u8,
            (self.flags % 0x100) as u8,
            (self.max_message_size / 0x100_0000) as u8,
            ((self.max_message_size / 0x1_0000) % 0x100) as u8,
            ((self.max_message_size / 0x100) % 0x100) as u8,
            (self.max_message_size % 0x100) as u8,
            (self.max_recv_buffers / 0x100) as u8,
            (self.max_recv_buffers % 0x100) as u8,
            (self.split_credits / 0x100) as u8,
            (self.split_credits % 0x100) as u8,
        ];
        assert(b@ =~= self.wire());
        b
    }

    /// Parses and validates a peer's handshake.
    pub fn decode(buf: &[u8]) -> (r: Result<Handshake, HandshakeError>)
        ensures
            r == Handshake::parsed(buf@),
    {
        if buf.len() < HANDSHAKE_MIN_LEN {
            return Err(HandshakeError::TooShort { len: buf.len() });
        }
        let magic: u32 = read_be32(buf, 0);
        if magic != MAGIC {
            return Err(HandshakeError::BadMagic { magic });
        }
        let version: u16 = read_be16(buf, 4);
        if version != VERSION {
            return Err(HandshakeError::BadVersion { version });
        }
        let split_credits: u16 = if buf.len() < HANDSHAKE_LEN {
            0
        } else {
            read_be16(buf, 14)
        };
        Ok(
            Handshake {
                version,
                flags: read_be16(buf, 6),
                max_message_size: read_be32(buf, 8),
                max_recv_buffers: read_be16(buf, 12),
                split_credits,
            },
        )
    }
}

/// Setting or clearing one capability bit shows in that bit and in no other.
proof fn lemma_bits(f: u16)
    ensures
        (f | flags::ZERO_COPY_CAPABLE) & flags::ZERO_COPY_CAPABLE != 0,
        (f & !flags::ZERO_COPY_CAPABLE) & flags::ZERO_COPY_CAPABLE == 0,
        (f | flags::ZERO_COPY_CAPABLE) & flags::SPLIT_MODE_CAPABLE == f & flags::SPLIT_MODE_CAPABLE,
        (f & !flags::ZERO_COPY_CAPABLE) & flags::SPLIT_MODE_CAPABLE == f
            & flags::SPLIT_MODE_CAPABLE,
        (f | flags::SPLIT_MODE_CAPABLE) & flags::SPLIT_MODE_CAPABLE != 0,
        (f & !flags::SPLIT_MODE_CAPABLE) & flags::SPLIT_MODE_CAPABLE == 0,
        (f | flags::SPLIT_MODE_CAPABLE) & flags::ZERO_COPY_CAPABLE == f & flags::ZERO_COPY_CAPABLE,
        (f & !flags::SPLIT_MODE_CAPABLE) & flags::ZERO_COPY_CAPABLE == f & flags::ZERO_COPY_CAPABLE,
{
    assert((f | 1) & 1 != 0 && (f & !1u16) & 1 == 0 && (f | 1) & 2 == f & 2 && (f & !1u16) & 2 == f
        & 2 && (f | 2) & 2 != 0 && (f & !2u16) & 2 == 0 && (f | 2) & 1 == f & 1 && (f & !2u16) & 1
        == f & 1) by (bit_vector);
}

/// A receiver reads back every handshake of this version, capabilities and
/// credit window included.
pub proof fn law_handshake_round_trip(h: Handshake)
    requires
        h.version == VERSION,
    ensures
        h.wire().len() == HANDSHAKE_LEN,
        Handshake::parsed(h.wire()) == Ok::<Handshake, HandshakeError>(h),
{
    let s = h.wire();
    assert(s.subrange(0, 4) =~= be32(MAGIC));
    assert(s.subrange(4, 6) =~= be16(h.version));
    assert(s.subrange(6, 8) =~= be16(h.flags));
    assert(s.subrange(8, 12) =~= be32(h.max_message_size));
    assert(s.subrange(12, 14) =~= be16(h.max_recv_buffers));
    assert(s.subrange(14, 16) =~= be16(h.split_credits));
    lemma_be32(s, 0, MAGIC);
    lemma_be16(s, 4, h.version);
    lemma_be16(s, 6, h.flags);
    lemma_be32(s, 8, h.max_message_size);
    lemma_be16(s, 12, h.max_recv_buffers);
    lemma_be16(s, 14, h.split_credits);
}

/// A peer of another version is refused, whatever else it says.
pub proof fn law_handshake_other_version_refused(h: Handshake)
    requires
        h.version != VERSION,
    ensures
        Handshake::parsed(h.wire()) == Err::<Handshake, HandshakeError>(
            HandshakeError::BadVersion { version: h.version },
        ),
{
    let s = h.wire();
    assert(s.subrange(0, 4) =~= be32(MAGIC));
    assert(s.subrange(4, 6) =~= be16(h.version));
    lemma_be32(s, 0, MAGIC);
    lemma_be16(s, 4, h.version);
}

/// Where the fields of a handshake stand, and which bytes are one: they begin with
/// `HORD` and version one, and then hold the capabilities, the message size and the
/// number of receives; a split-credit window counts only if all sixteen bytes are
/// there. The two lowest capability bits are zero-copy and splitting.
pub proof fn law_handshake_layout(s: Seq<u8>)
    ensures
        ({
            let accepted = s.len() >= 14 && s[0] == 0x48 && s[1] == 0x4F && s[2] == 0x52 && s[3]
                == 0x44 && s[4] == 0 && s[5] == 1;
            &&& Handshake::parsed(s) is Ok <==> accepted
            &&& Handshake::parsed(s) matches Ok(h) ==> {
                &&& h.version == 1
                &&& h.flags == s[6] * 0x100 + s[7]
                &&& h.max_message_size == ((s[8] * 0x100 + s[9]) * 0x100 + s[10]) * 0x100 + s[11]
                &&& h.max_recv_buffers == s[12] * 0x100 + s[13]
                &&& s.len() >= 16 ==> h.split_credits == s[14] * 0x100 + s[15]
                &&& s.len() < 16 ==> h.split_credits == 0
                &&& h.zero_copy() <==> s[7] % 2 == 1
                &&& h.split_mode() <==> (s[7] / 2) % 2 == 1
                &&& s.len() >= 16 ==> h.wire() == s.take(16)
            }
        }),
{
    if s.len() >= 14 {
        lemma_magic(s);
        lemma_be16_back(s, 4);
        lemma_be16_back(s, 6);
        lemma_be32_back(s, 8);
        lemma_be16_back(s, 12);
        if let Ok(h) = Handshake::parsed(s) {
            lemma_low_bits(h.flags, s[6], s[7]);
            if s.len() >= 16 {
                lemma_be16_back(s, 14);
                assert(h.wire() =~= s.take(16));
            }
        }
    }
}

/// Four bytes are the magic exactly if they spell it.
proof fn lemma_magic(s: Seq<u8>)
    requires
        s.len() >= 4,
    ensures
        be32_at(s, 0) == ((s[0] * 0x100 + s[1]) * 0x100 + s[2]) * 0x100 + s[3],
        be32(be32_at(s, 0)) == s.subrange(0, 4),
        be32_at(s, 0) == MAGIC <==> s[0] == 0x48 && s[1] == 0x4F && s[2] == 0x52 && s[3] == 0x44,
{
    lemma_be32_back(s, 0);
}

/// The two lowest bits of two bytes are those of the second.
proof fn lemma_low_bits(f: u16, a: u8, b: u8)
    requires
        f == a * 0x100 + b,
    ensures
        f & flags::ZERO_COPY_CAPABLE != 0 <==> b % 2 == 1,
        f & flags::SPLIT_MODE_CAPABLE != 0 <==> (b / 2) % 2 == 1,
{
    assert((f & 1 != 0) == (f % 2 == 1) && (f & 2 != 0) == ((f / 2) % 2 == 1)) by (bit_vector);
}

/// Bytes that are no handshake are refused for the first thing that is wrong with
/// them: that they are too few, the magic, then the version.
pub proof fn law_handshake_refusals(s: Seq<u8>)
    ensures
        Handshake::parsed(s) matches Err(e) ==> match e {
            HandshakeError::TooShort { len } => s.len() < 14 && (s.len() <= usize::MAX ==> len
                == s.len()),
            HandshakeError::BadMagic { magic } => s.len() >= 14 && magic != 0x484F_5244 && magic
                == ((s[0] * 0x100 + s[1]) * 0x100 + s[2]) * 0x100 + s[3],
            HandshakeError::BadVersion { version } => s.len() >= 14 && version != 1 && version
                == s[4] * 0x100 + s[5] && s[0] == 0x48 && s[1] == 0x4F && s[2] == 0x52 && s[3]
                == 0x44,
        },
{
    if s.len() >= 14 {
        lemma_magic(s);
        lemma_be16_back(s, 4);
    }
}

/// Setting a flag sets it, clearing it clears it, and the other flag stays as it was.
pub proof fn law_flags_are_independent(flags: u16, on: bool)
    ensures
        with_bit(flags, 1, on) & 1 != 0 <==> on,
        with_bit(flags, 2, on) & 2 != 0 <==> on,
        with_bit(flags, 1, on) & 0xFFFE == flags & 0xFFFE,
        with_bit(flags, 2, on) & 0xFFFD == flags & 0xFFFD,
{
    assert((flags | 1) & 1 != 0 && (flags | 2) & 2 != 0 && (flags & !1) & 1 == 0 && (flags & !2) & 2
        == 0 && (flags | 1) & 0xFFFE == flags & 0xFFFE && (flags & !1) & 0xFFFE == flags & 0xFFFE
        && (flags | 2) & 0xFFFD == flags & 0xFFFD && (flags & !2) & 0xFFFD == flags & 0xFFFD)
        by (bit_vector);
}

} // verus!
