//! The verifiable payload of the test objects: the byte at position `i` is
//! `i mod 251`.

use vstd::prelude::*;
use crate::text::{
    after_prefix, chars_of, parse_number, parsed_number, push_number, strip_prefix,
};

verus! {

/// Bytes that a test object is filled or checked in at a time.
pub const CHUNK: usize = 0x4_0000;

/// The payload byte at position `i` of a test object.
pub open spec fn pattern_at(i: int) -> u8 {
    (i % 251) as u8
}

/// The payload of a test object from position `base` on.
pub open spec fn pattern(base: int, len: nat) -> Seq<u8> {
    Seq::new(len, |i: int| pattern_at(base + i))
}

/// The payload byte at position `i` of a test object.
pub fn pattern_byte(i: usize) -> (r: u8)
    ensures
        r == pattern_at(i as int),
{
    (i % 251) as u8
}

/// Fills `buf` with the payload of a test object from position `base` on.
pub fn pattern_fill_from(buf: &mut [u8], base: usize)
    requires
        base + old(buf)@.len() <= usize::MAX,
    ensures
        final(buf)@ == pattern(base as int, old(buf)@.len()),
{
    let len: usize = buf.len();
    let mut i: usize = 0;
    while i < len
        invariant
            i <= len,
            len == buf@.len(),
            len == old(buf)@.len(),
            base + len <= usize::MAX,
            forall|j: int| 0 <= j < i ==> #[trigger] buf@[j] == pattern_at(base + j),
        decreases len - i,
    {
        buf[i] = pattern_byte(base + i);
        i = i + 1;
    }
    assert(buf@ =~= pattern(base as int, old(buf)@.len()));
}

/// Fills `buf` with the payload of a test object from its start.
pub fn pattern_fill(buf: &mut [u8])
    ensures
        final(buf)@ == pattern(0, old(buf)@.len()),
{
    assert(buf.len() <= usize::MAX);
    pattern_fill_from(buf, 0);
}

/// The next chunk of a test object of `n` bytes that starts at position `base`,
/// when `off` bytes of it are done: at most [`CHUNK`] bytes.
pub fn pattern_chunk(base: usize, off: usize, n: usize) -> (r: Vec<u8>)
    requires
        off <= n,
        base + n <= usize::MAX,
    ensures
        r@ == pattern(
            base + off,
            if n - off < CHUNK {
                (n - off) as nat
            } else {
                CHUNK as nat
            },
        ),
{
    let take: usize = if n - off < CHUNK {
        n - off
    } else {
        CHUNK
    };
    let mut v: Vec<u8> = Vec::with_capacity(take);
    let mut i: usize = 0;
    while i < take
        invariant
            i <= take,
            off + take <= n,
            base + n <= usize::MAX,
            v@ == pattern(base + off, i as nat),
        decreases take - i,
    {
        v.push(pattern_byte(base + off + i));
        i = i + 1;
        assert(v@ =~= pattern(base + off, i as nat));
    }
    v
}

/// The size in a path `/size/<n>`.
pub open spec fn size_in_path(path: Seq<char>) -> Option<int> {
    match after_prefix(path, "/size/"@) {
        Some(n) => parsed_number(n, 10, usize::MAX as int),
        None => None,
    }
}

/// The size of the object at `path`, if it is a test object.
pub fn size_from_path(path: &str) -> (r: Option<usize>)
    ensures
        match r {
            Some(n) => size_in_path(path@) == Some(n as int),
            None => size_in_path(path@) is None,
        },
{
    let chars: Vec<char> = chars_of(path);
    match strip_prefix(chars.as_slice(), "/size/") {
        Some(n) => match parse_number(n, 10, usize::MAX as u64) {
            Some(v) => Some(v as usize),
            None => None,
        },
        None => None,
    }
}

/// The first byte of a received payload that is not what it must be.
#[derive(Debug, Clone, Copy, PartialEq, Eq, Structural)]
pub struct Mismatch {
    /// Its position in the object.
    pub at: usize,
    /// The byte received.
    pub got: u8,
    /// The byte expected.
    pub want: u8,
}

impl Mismatch {
    /// A line that describes the mismatch.
    pub fn message(&self) -> (r: String)
        ensures
            r@ == "payload mismatch at byte "@ + crate::text::digits(self.at as nat, 10) + ": got "@
                + crate::text::digits(self.got as nat, 10) + ", expected "@ + crate::text::digits(
                self.want as nat,
                10,
            ),
    {
        let mut s: String = String::new();
        s.append("payload mismatch at byte ");
        push_number(&mut s, self.at as u64, 10);
        s.append(": got ");
        push_number(&mut s, self.got as u64, 10);
        s.append(", expected ");
        push_number(&mut s, self.want as u64, 10);
        assert(s@ =~= "payload mismatch at byte "@ + crate::text::digits(self.at as nat, 10)
            + ": got "@ + crate::text::digits(self.got as nat, 10) + ", expected "@
            + crate::text::digits(self.want as nat, 10));
        s
    }
}

/// Whether `m` is the first mismatch of `body`, which starts at position `base` of
/// its object.
pub open spec fn first_mismatch(body: Seq<u8>, base: int, m: Mismatch) -> bool {
    let i = m.at - base;
    &&& 0 <= i < body.len()
    &&& m.got == body[i]
    &&& m.want == pattern_at(base + i)
    &&& m.got != m.want
    &&& forall|j: int| 0 <= j < i ==> #[trigger] body[j] == pattern_at(base + j)
}

/// Checks a payload that starts at position `base` of its object.
pub fn check_pattern(body: &[u8], base: usize) -> (r: Result<(), Mismatch>)
    requires
        base + body@.len() <= usize::MAX,
    ensures
        match r {
            Ok(()) => body@ == pattern(base as int, body@.len()),
            Err(m) => first_mismatch(body@, base as int, m),
        },
{
    let mut i: usize = 0;
    while i < body.len()
        invariant
            i <= body@.len(),
            base + body@.len() <= usize::MAX,
            forall|j: int| 0 <= j < i ==> #[trigger] body@[j] == pattern_at(base + j),
        decreases body@.len() - i,
    {
        let want: u8 = pattern_byte(base + i);
        let got: u8 = body[i];
        if got != want {
            return Err(Mismatch { at: base + i, got, want });
        }
        i = i + 1;
    }
    assert(body@ =~= pattern(base as int, body@.len()));
    Ok(())
}

/// Checks a zero-copy destination that starts at position `base` of the object at
/// `path`. `Ok(false)` means that there is nothing to check at that path.
pub fn verify_zero_copy_at(dest: &[u8], base: usize, path: &str) -> (r: Result<bool, Mismatch>)
    requires
        size_in_path(path@) is Some ==> base + dest@.len() <= usize::MAX,
    ensures
        size_in_path(path@) is None ==> r == Ok::<bool, Mismatch>(false),
        size_in_path(path@) is Some ==> match r {
            Ok(b) => b && dest@ == pattern(base as int, dest@.len()),
            Err(m) => first_mismatch(dest@, base as int, m),
        },
{
    if size_from_path(path).is_none() {
        return Ok(false);
    }
    match check_pattern(dest, base) {
        Ok(()) => Ok(true),
        Err(m) => Err(m),
    }
}

/// Checks the zero-copy destination of a whole object.
pub fn verify_zero_copy(dest: &[u8], path: &str) -> (r: Result<bool, Mismatch>)
    ensures
        size_in_path(path@) is None ==> r == Ok::<bool, Mismatch>(false),
        size_in_path(path@) is Some ==> match r {
            Ok(b) => b && dest@ == pattern(0, dest@.len()),
            Err(m) => first_mismatch(dest@, 0, m),
        },
{
    assert(dest.len() <= usize::MAX);
    verify_zero_copy_at(dest, 0, path)
}

/// Checks a body that came on the stream and starts at position `base` of the
/// object at `path`. `Ok(false)` means that there is nothing to check: the response
/// is no success or the path no test object.
pub fn verify_stream_body_at(body: &[u8], is_success: bool, path: &str, base: usize) -> (r: Result<
    bool,
    Mismatch,
>)
    requires
        is_success && size_in_path(path@) is Some ==> base + body@.len() <= usize::MAX,
    ensures
        !is_success || size_in_path(path@) is None ==> r == Ok::<bool, Mismatch>(false),
        is_success && size_in_path(path@) is Some ==> match r {
            Ok(b) => b && body@ == pattern(base as int, body@.len()),
            Err(m) => first_mismatch(body@, base as int, m),
        },
{
    if !is_success || size_from_path(path).is_none() {
        return Ok(false);
    }
    match check_pattern(body, base) {
        Ok(()) => Ok(true),
        Err(m) => Err(m),
    }
}

/// Checks the stream body of a whole object.
pub fn verify_stream_body(body: &[u8], is_200: bool, path: &str) -> (r: Result<bool, Mismatch>)
    ensures
        !is_200 || size_in_path(path@) is None ==> r == Ok::<bool, Mismatch>(false),
        is_200 && size_in_path(path@) is Some ==> match r {
            Ok(b) => b && body@ == pattern(0, body@.len()),
            Err(m) => first_mismatch(body@, 0, m),
        },
{
    assert(body.len() <= usize::MAX);
    verify_stream_body_at(body, is_200, path, 0)
}

/// A range of an object holds the same bytes as the whole object does there.
pub proof fn law_range_of_pattern(total: nat, start: int, end: int)
    requires
        0 <= start <= end < total,
    ensures
        pattern(0, total).subrange(start, end + 1) == pattern(start, (end + 1 - start) as nat),
{
    assert(pattern(0, total).subrange(start, end + 1) =~= pattern(
        start,
        (end + 1 - start) as nat,
    ));
}

/// Whether the first `n` bytes of a payload are what they must be.
pub open spec fn matches_up_to(body: Seq<u8>, base: int, n: int) -> bool {
    forall|j: int| 0 <= j < n ==> #[trigger] body[j] == pattern_at(base + j)
}

proof fn lemma_mismatch_exists(body: Seq<u8>, base: int, n: int) -> (m: Mismatch)
    requires
        0 <= base,
        base + body.len() <= usize::MAX,
        0 <= n <= body.len(),
        matches_up_to(body, base, n),
        !matches_up_to(body, base, body.len() as int),
    ensures
        first_mismatch(body, base, m),
    decreases body.len() - n,
{
    if body[n] == pattern_at(base + n) {
        lemma_mismatch_exists(body, base, n + 1)
    } else {
        Mismatch { at: (base + n) as usize, got: body[n], want: pattern_at(base + n) }
    }
}

/// A payload is accepted exactly when it is the object's: one that is has no
/// mismatch, and any other has exactly one first mismatch.
pub proof fn law_pattern_check_is_exact(body: Seq<u8>, base: int)
    requires
        0 <= base,
        base + body.len() <= usize::MAX,
    ensures
        body != pattern(base, body.len()) <==> exists|m: Mismatch| first_mismatch(body, base, m),
        forall|m: Mismatch, n: Mismatch|
            first_mismatch(body, base, m) && first_mismatch(body, base, n) ==> m == n,
{
    if matches_up_to(body, base, body.len() as int) {
        assert(body =~= pattern(base, body.len()));
    } else {
        let m = lemma_mismatch_exists(body, base, 0);
        assert(first_mismatch(body, base, m));
        assert(pattern(base, body.len())[m.at - base] == m.want);
    }
    assert forall|m: Mismatch, n: Mismatch|
        first_mismatch(body, base, m) && first_mismatch(body, base, n) implies m == n by {
        if m.at < n.at {
            assert(body[m.at - base] == pattern_at(base + (m.at - base)));
        } else if n.at < m.at {
            assert(body[n.at - base] == pattern_at(base + (n.at - base)));
        }
    }
}

/// The payload counts up from zero and starts over after two hundred and fifty-one
/// bytes, wherever it is looked at.
pub proof fn law_pattern_counts_and_repeats(i: int, base: int, len: nat)
    requires
        i >= 0,
        base >= 0,
    ensures
        i < 251 ==> pattern_at(i) == i,
        pattern_at(i + 251) == pattern_at(i),
        pattern(base, len).len() == len,
        i < len ==> pattern(base, len)[i] == pattern_at(base + i),
{
}

/// A path under `/size/` names the size that its digits write.
pub proof fn law_path_names_its_size(n: nat)
    ensures
        n <= usize::MAX ==> size_in_path("/size/"@ + crate::text::digits(n, 10)) == Some(n as int),
        n > usize::MAX ==> size_in_path("/size/"@ + crate::text::digits(n, 10)) is None,
{
    let d = crate::text::digits(n, 10);
    let path = "/size/"@ + d;
    crate::text::lemma_digits(n, 10);
    assert(d[0] != '+');
    assert(path.take("/size/"@.len() as int) =~= "/size/"@);
    assert(path.skip("/size/"@.len() as int) =~= d);
}

/// Only a path under `/size/` names a size.
pub proof fn law_other_paths_name_no_size(path: Seq<char>)
    requires
        size_in_path(path) is Some,
    ensures
        crate::text::begins_with(path, "/size/"@),
{
}

} // verus!
