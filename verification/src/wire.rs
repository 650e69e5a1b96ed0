//! Big-endian integers as byte sequences.

use vstd::prelude::*;

verus! {

/// The big-endian bytes of a 16-bit integer.
pub open spec fn be16(x: u16) -> Seq<u8> {
    seq![(x / 0x100) as u8, (x % 0x100) as u8]
}

/// The big-endian bytes of a 32-bit integer.
pub open spec fn be32(x: u32) -> Seq<u8> {
    seq![
        (x / 0x100_0000) as u8,
        ((x / 0x1_0000) % 0x100) as u8,
        ((x / 0x100) % 0x100) as u8,
        (x % 0x100) as u8,
    ]
}

/// The 16-bit integer whose big-endian bytes stand at `at` in `s`.
pub open spec fn be16_at(s: Seq<u8>, at: int) -> u16 {
    (s[at] * 0x100 + s[at + 1]) as u16
}

/// The 32-bit integer whose big-endian bytes stand at `at` in `s`.
pub open spec fn be32_at(s: Seq<u8>, at: int) -> u32 {
    (s[at] * 0x100_0000 + s[at + 1] * 0x1_0000 + s[at + 2] * 0x100 + s[at + 3]) as u32
}

/// Reading a 16-bit integer gives back the one whose bytes stand there.
pub proof fn lemma_be16(s: Seq<u8>, at: int, x: u16)
    requires
        0 <= at,
        at + 2 <= s.len(),
        s.subrange(at, at + 2) == be16(x),
    ensures
        be16_at(s, at) == x,
{
    let b = s.subrange(at, at + 2);
    assert(b[0] == s[at] && b[1] == s[at + 1]);
}

/// Reading a 32-bit integer gives back the one whose bytes stand there.
pub proof fn lemma_be32(s: Seq<u8>, at: int, x: u32)
    requires
        0 <= at,
        at + 4 <= s.len(),
        s.subrange(at, at + 4) == be32(x),
    ensures
        be32_at(s, at) == x,
{
    let b = s.subrange(at, at + 4);
    assert(b[0] == s[at] && b[1] == s[at + 1] && b[2] == s[at + 2] && b[3] == s[at + 3]);
}

/// Reads the big-endian 16-bit integer at `at`.
pub fn read_be16(buf: &[u8], at: usize) -> (x: u16)
    requires
        at + 2 <= buf@.len(),
    ensures
        x == be16_at(buf@, at as int),
{
    buf[at] as u16 * 0x100 + buf[at + 1] as u16
}

/// Reads the big-endian 32-bit integer at `at`.
pub fn read_be32(buf: &[u8], at: usize) -> (x: u32)
    requires
        at + 4 <= buf@.len(),
    ensures
        x == be32_at(buf@, at as int),
{
    buf[at] as u32 * 0x100_0000 + buf[at + 1] as u32 * 0x1_0000 + buf[at + 2] as u32 * 0x100
        + buf[at + 3] as u32
}

/// Integers are written with their most significant byte first, and read the same
/// way: each byte counts two hundred and fifty-six times the one behind it.
pub proof fn law_most_significant_byte_first(x: u16, y: u32, s: Seq<u8>)
    requires
        s.len() >= 4,
    ensures
        be16(x).len() == 2 && be16(x)[0] * 0x100 + be16(x)[1] == x,
        ({
            let b = be32(y);
            b.len() == 4 && ((b[0] * 0x100 + b[1]) * 0x100 + b[2]) * 0x100 + b[3] == y
        }),
        be16_at(s, 0) == s[0] * 0x100 + s[1],
        be32_at(s, 0) == ((s[0] * 0x100 + s[1]) * 0x100 + s[2]) * 0x100 + s[3],
{
}

/// Two bytes are those of the 16-bit integer that they make up.
pub proof fn lemma_be16_back(s: Seq<u8>, at: int)
    requires
        0 <= at,
        at + 2 <= s.len(),
    ensures
        be16_at(s, at) == s[at] * 0x100 + s[at + 1],
        be16(be16_at(s, at)) == s.subrange(at, at + 2),
{
    let x = be16_at(s, at);
    assert(x / 0x100 == s[at] && x % 0x100 == s[at + 1]);
    assert(be16(x) =~= s.subrange(at, at + 2));
}

/// Four bytes are those of the 32-bit integer that they make up.
pub proof fn lemma_be32_back(s: Seq<u8>, at: int)
    requires
        0 <= at,
        at + 4 <= s.len(),
    ensures
        be32_at(s, at) == ((s[at] * 0x100 + s[at + 1]) * 0x100 + s[at + 2]) * 0x100 + s[at + 3],
        be32(be32_at(s, at)) == s.subrange(at, at + 4),
{
    let x = be32_at(s, at);
    let (a, b, c, d) = (s[at], s[at + 1], s[at + 2], s[at + 3]);
    assert(x == a * 0x100_0000 + b * 0x1_0000 + c * 0x100 + d);
    assert(x / 0x100_0000 == a);
    assert(x / 0x1_0000 == a * 0x100 + b);
    assert(x / 0x100 == a * 0x1_0000 + b * 0x100 + c);
    assert((x / 0x1_0000) % 0x100 == b);
    assert((x / 0x100) % 0x100 == c);
    assert(x % 0x100 == d);
    assert(be32(x) =~= s.subrange(at, at + 4));
}

} // verus!
