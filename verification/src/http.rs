//! Heads and bodies of HTTP/1.1 messages, as far as a HORD endpoint needs them.

use vstd::prelude::*;
use vstd::utf8::{encode_utf8, valid_utf8};
use crate::text::{
    chars_of, eq_ignore_ascii_case, lemma_split_first_is, lemma_trimmed_is, parse_number,
    parsed_number, same_text, split_first, split_once, string_of, trim, trimmed,
};

verus! {

/// The longest head that is accepted, its empty line included.
pub const MAX_HEAD_BYTES: usize = 0x1_0000;

/// Bytes that are read of a body at a time.
pub const BODY_CHUNK: usize = 0x10_0000;

/// Why a message could not be read.
#[derive(Debug, Clone, Copy, PartialEq, Eq, Structural)]
pub enum HttpError {
    /// The head holds no line.
    EmptyHead,
    /// The connection closed before the end of the head.
    ClosedInHead,
    /// The connection closed before the end of the body.
    ClosedInBody {
        /// Bytes received.
        got: usize,
        /// Bytes announced.
        total: usize,
    },
}

/// Whether the empty line that ends a head starts at `i`.
pub open spec fn head_ends_at(buf: Seq<u8>, i: int) -> bool {
    &&& 0 <= i
    &&& i + 4 <= buf.len()
    &&& buf[i] == 13 && buf[i + 1] == 10 && buf[i + 2] == 13 && buf[i + 3] == 10
}

/// Finds where the empty line that ends a head first starts.
pub fn find_double_crlf(buf: &[u8]) -> (r: Option<usize>)
    ensures
        match r {
            Some(i) => head_ends_at(buf@, i as int) && forall|j: int| #[trigger]
                head_ends_at(buf@, j) ==> i <= j,
            None => forall|j: int| !#[trigger] head_ends_at(buf@, j),
        },
{
    let mut i: usize = 0;
    while i < buf.len() && buf.len() - i >= 4
        invariant
            i <= buf@.len(),
            forall|j: int| #[trigger] head_ends_at(buf@, j) ==> i <= j,
        decreases buf@.len() - i,
    {
        if buf[i] == 13 && buf[i + 1] == 10 && buf[i + 2] == 13 && buf[i + 3] == 10 {
            assert(head_ends_at(buf@, i as int));
            return Some(i);
        }
        i = i + 1;
    }
    None
}

/// What to do next for a head.
#[derive(Debug, Clone, Copy, PartialEq, Eq, Structural)]
pub enum HeadStep {
    /// The head ends here; its body starts at this offset.
    Complete {
        /// Offset of the body.
        body_start: usize,
    },
    /// Give up.
    TooLarge,
    /// Read more bytes.
    ReadMore,
}

/// The bytes of a message read so far, while its head is incomplete.
#[derive(Debug)]
pub struct HeadReader {
    buf: Vec<u8>,
}

impl View for HeadReader {
    type V = Seq<u8>;

    closed spec fn view(&self) -> Seq<u8> {
        self.buf@
    }
}

impl HeadReader {
    /// Nothing read yet.
    pub fn new() -> (r: Self)
        ensures
            r@ == Seq::<u8>::empty(),
    {
        HeadReader { buf: Vec::with_capacity(1024) }
    }

    /// What to do next: the head is complete once its empty line is there, unless
    /// it is longer than [`MAX_HEAD_BYTES`]; more is read until its end is found or
    /// that many bytes are exceeded.
    pub fn step(&self) -> (r: HeadStep)
        ensures
            match r {
                HeadStep::Complete { body_start } => {
                    &&& 4 <= body_start <= MAX_HEAD_BYTES
                    &&& head_ends_at(self@, body_start - 4)
                    &&& forall|j: int| #[trigger] head_ends_at(self@, j) ==> body_start - 4 <= j
                },
                HeadStep::TooLarge => {
                    &&& self@.len() > MAX_HEAD_BYTES
                    &&& forall|j: int| #[trigger]
                        head_ends_at(self@, j) ==> j + 4 > MAX_HEAD_BYTES
                },
                HeadStep::ReadMore => {
                    &&& self@.len() <= MAX_HEAD_BYTES
                    &&& forall|j: int| !#[trigger] head_ends_at(self@, j)
                },
            },
    {
        match find_double_crlf(self.buf.as_slice()) {
            Some(i) => {
                assert(i + 4 <= self.buf.len());
                if i + 4 <= MAX_HEAD_BYTES {
                    HeadStep::Complete { body_start: i + 4 }
                } else {
                    HeadStep::TooLarge
                }
            },
            None => if self.buf.len() > MAX_HEAD_BYTES {
                HeadStep::TooLarge
            } else {
                HeadStep::ReadMore
            },
        }
    }

    /// Takes bytes that were read; none at all means that the connection closed.
    pub fn feed(&mut self, chunk: &[u8]) -> (r: Result<(), HttpError>)
        ensures
            final(self)@ == old(self)@ + chunk@,
            r == (if chunk@.len() == 0 {
                Err::<(), HttpError>(HttpError::ClosedInHead)
            } else {
                Ok(())
            }),
    {
        if chunk.len() == 0 {
            assert(self@ =~= old(self)@ + chunk@);
            return Err(HttpError::ClosedInHead);
        }
        self.buf.extend_from_slice(chunk);
        assert(self@ =~= old(self)@ + chunk@);
        Ok(())
    }

    /// The head, its empty line included, and what was read of the body.
    pub fn finish(self, body_start: usize) -> (r: (Vec<u8>, Vec<u8>))
        requires
            body_start <= self@.len(),
        ensures
            r.0@ == self@.take(body_start as int),
            r.1@ == self@.skip(body_start as int),
    {
        let mut head: Vec<u8> = self.buf;
        let rest: Vec<u8> = head.split_off(body_start);
        assert(head@ =~= self@.take(body_start as int));
        assert(rest@ =~= self@.skip(body_start as int));
        (head, rest)
    }
}

/// How many bytes to read next of a body of `total` bytes of which `got` have been
/// read.
pub open spec fn wanted(got: int, total: int) -> int {
    if got >= total {
        0
    } else if total - got < BODY_CHUNK {
        total - got
    } else {
        BODY_CHUNK as int
    }
}

/// The body of `total` bytes at the front of `bytes`, or what has arrived of it.
pub open spec fn body_of(bytes: Seq<u8>, total: usize) -> Seq<u8> {
    bytes.take(
        if bytes.len() < total {
            bytes.len() as int
        } else {
            total as int
        },
    )
}

/// The bytes of a body read so far.
#[derive(Debug)]
pub struct BodyReader {
    body: Vec<u8>,
    total: usize,
}

impl View for BodyReader {
    type V = Seq<u8>;

    closed spec fn view(&self) -> Seq<u8> {
        self.body@
    }
}

impl BodyReader {
    /// Bytes that the body has in all.
    pub closed spec fn total(&self) -> usize {
        self.total
    }

    /// A body of `total` bytes of which `leftover` was read with the head.
    pub fn new(leftover: Vec<u8>, total: usize) -> (r: Self)
        ensures
            r@ == leftover@,
            r.total() == total,
    {
        BodyReader { body: leftover, total }
    }

    /// How many bytes to read next; zero once the body is complete.
    pub fn want(&self) -> (r: usize)
        ensures
            r == wanted(self@.len() as int, self.total() as int),
    {
        if self.body.len() >= self.total {
            0
        } else if self.total - self.body.len() < BODY_CHUNK {
            self.total - self.body.len()
        } else {
            BODY_CHUNK
        }
    }

    /// Takes bytes that were read; none at all means that the connection closed.
    pub fn feed(&mut self, chunk: &[u8]) -> (r: Result<(), HttpError>)
        ensures
            final(self)@ == old(self)@ + chunk@,
            final(self).total() == old(self).total(),
            r == (if chunk@.len() == 0 {
                Err::<(), HttpError>(
                    HttpError::ClosedInBody {
                        got: old(self)@.len() as usize,
                        total: old(self).total(),
                    },
                )
            } else {
                Ok(())
            }),
    {
        if chunk.len() == 0 {
            assert(self@ =~= old(self)@ + chunk@);
            return Err(HttpError::ClosedInBody { got: self.body.len(), total: self.total });
        }
        self.body.extend_from_slice(chunk);
        assert(self@ =~= old(self)@ + chunk@);
        Ok(())
    }

    /// The body: its first [`total`](Self::total) bytes, without what was read past
    /// its end, or what has arrived of it so far.
    pub fn finish(self) -> (r: Vec<u8>)
        ensures
            r@ == body_of(self@, self.total()),
    {
        let mut body: Vec<u8> = self.body;
        if body.len() > self.total {
            body.truncate(self.total);
        }
        assert(body@ =~= body_of(self@, self.total()));
        body
    }
}

/// The position of the first line break in `s`, or at least the last position if
/// there is none.
pub open spec fn break_index(s: Seq<char>) -> int
    decreases s.len(),
{
    if s.len() < 2 {
        s.len() as int
    } else if s[0] == '\r' && s[1] == '\n' {
        0
    } else {
        1 + break_index(s.drop_first())
    }
}

/// The lines of `s`, without their line breaks.
pub open spec fn lines(s: Seq<char>) -> Seq<Seq<char>>
    decreases s.len(),
{
    let i = break_index(s);
    if 0 <= i && i + 1 < s.len() {
        seq![s.take(i)] + lines(s.skip(i + 2))
    } else {
        seq![s]
    }
}

/// The lines that are not empty.
pub open spec fn filled(ls: Seq<Seq<char>>) -> Seq<Seq<char>>
    decreases ls.len(),
{
    if ls.len() == 0 {
        seq![]
    } else if ls.last().len() == 0 {
        filled(ls.drop_last())
    } else {
        filled(ls.drop_last()).push(ls.last())
    }
}

/// The three words of a start line; the third takes all that is left, and a
/// missing word is empty.
pub open spec fn words(line: Seq<char>) -> (Seq<char>, Seq<char>, Seq<char>) {
    match split_first(line, ' ') {
        None => (line, seq![], seq![]),
        Some((a, rest)) => match split_first(rest, ' ') {
            None => (a, rest, seq![]),
            Some((b, c)) => (a, b, c),
        },
    }
}

/// The header fields that the lines hold; a line without colon holds none.
pub open spec fn fields(ls: Seq<Seq<char>>) -> Seq<(Seq<char>, Seq<char>)>
    decreases ls.len(),
{
    if ls.len() == 0 {
        seq![]
    } else {
        match split_first(ls.last(), ':') {
            None => fields(ls.drop_last()),
            Some((k, v)) => fields(ls.drop_last()).push((trimmed(k), trimmed(v))),
        }
    }
}

/// A head as a mathematical value.
#[verifier::ext_equal]
pub struct HeadView {
    /// The three words of the start line.
    pub start: (Seq<char>, Seq<char>, Seq<char>),
    /// The header fields, in order.
    pub headers: Seq<(Seq<char>, Seq<char>)>,
}

impl HeadView {
    /// The head that a text holds, or `None` if it holds no line.
    pub open spec fn of(text: Seq<char>) -> Option<HeadView> {
        let ls = filled(lines(text));
        if ls.len() == 0 {
            None
        } else {
            Some(HeadView { start: words(ls[0]), headers: fields(ls.drop_first()) })
        }
    }

    /// The value of the first field of the given name, up to ASCII case.
    pub open spec fn header(self, name: Seq<char>) -> Option<Seq<char>> {
        first_field(self.headers, name)
    }

    /// The number in the `Content-Length` field.
    pub open spec fn content_length(self) -> Option<int> {
        match self.header("Content-Length"@) {
            Some(v) => parsed_number(trimmed(v), 10, usize::MAX as int),
            None => None,
        }
    }
}

/// The value of the first field of the given name, up to ASCII case.
pub open spec fn first_field(headers: Seq<(Seq<char>, Seq<char>)>, name: Seq<char>) -> Option<
    Seq<char>,
>
    decreases headers.len(),
{
    if headers.len() == 0 {
        None
    } else if same_text(headers[0].0, name) {
        Some(headers[0].1)
    } else {
        first_field(headers.drop_first(), name)
    }
}

/// The text that bytes decode to when every ill-formed sequence is replaced.
pub uninterp spec fn utf8_lossy(bytes: Seq<u8>) -> Seq<char>;

/// `String::from_utf8_lossy` decodes bytes as UTF-8. What it gives depends on the
/// bytes alone, and bytes that are valid UTF-8 are kept as they are.
#[verifier::external_body]
fn decode_lossy(bytes: &[u8]) -> (r: String)
    ensures
        r@ == utf8_lossy(bytes@),
        valid_utf8(bytes@) ==> encode_utf8(r@) == bytes@,
{
    String::from_utf8_lossy(bytes).into_owned()
}

/// The head of a request or a response.
#[derive(Debug)]
pub struct Head {
    /// The three words of the start line.
    pub start: (String, String, String),
    /// The header fields, in order.
    pub headers: Vec<(String, String)>,
}

/// The fields of a head as mathematical values.
pub open spec fn field_views(headers: Seq<(String, String)>) -> Seq<(Seq<char>, Seq<char>)> {
    headers.map_values(|h: (String, String)| (h.0@, h.1@))
}

impl View for Head {
    type V = HeadView;

    open spec fn view(&self) -> HeadView {
        HeadView {
            start: (self.start.0@, self.start.1@, self.start.2@),
            headers: field_views(self.headers@),
        }
    }
}

fn find_break(s: &[char]) -> (r: usize)
    ensures
        r == break_index(s@),
        r <= s@.len(),
{
    let mut i: usize = 0;
    assert(s@.skip(0) =~= s@);
    while i < s.len() && s.len() - i >= 2
        invariant
            i <= s@.len(),
            break_index(s@) == i + break_index(s@.skip(i as int)),
        decreases s@.len() - i,
    {
        let ghost rest = s@.skip(i as int);
        assert(rest[0] == s@[i as int] && rest[1] == s@[i + 1]);
        if s[i] == '\r' && s[i + 1] == '\n' {
            return i;
        }
        assert(rest.drop_first() =~= s@.skip(i + 1));
        i = i + 1;
    }
    s.len()
}

/// Splits a text into its lines that are not empty.
fn split_lines<'a>(s: &'a [char]) -> (r: Vec<&'a [char]>)
    ensures
        r@.len() == filled(lines(s@)).len(),
        forall|k: int| 0 <= k < r@.len() ==> (#[trigger] r@[k])@ == filled(lines(s@))[k],
{
    let mut out: Vec<&'a [char]> = Vec::new();
    let mut rest: &'a [char] = s;
    let ghost mut done: Seq<Seq<char>> = seq![];
    assert(seq![] + lines(s@) =~= lines(s@));
    let mut i: usize = find_break(rest);
    while i < rest.len() && rest.len() - i >= 2
        invariant
            i == break_index(rest@),
            i <= rest@.len(),
            lines(s@) == done + lines(rest@),
            out@.len() == filled(done).len(),
            forall|k: int| 0 <= k < out@.len() ==> (#[trigger] out@[k])@ == filled(done)[k],
        decreases rest@.len(),
    {
        let line: &'a [char] = vstd::slice::slice_subrange(rest, 0, i);
        let tail: &'a [char] = vstd::slice::slice_subrange(rest, i + 2, rest.len());
        proof {
            let before = done;
            assert(line@ =~= rest@.take(i as int));
            assert(tail@ =~= rest@.skip(i + 2));
            done = before.push(line@);
            assert(done.drop_last() =~= before);
            assert(before + (seq![line@] + lines(tail@)) =~= done + lines(tail@));
        }
        if line.len() > 0 {
            out.push(line);
        }
        rest = tail;
        i = find_break(rest);
    }
    proof {
        let before = done;
        done = before.push(rest@);
        assert(done.drop_last() =~= before);
        assert(before + seq![rest@] =~= done);
    }
    if rest.len() > 0 {
        out.push(rest);
    }
    out
}

impl Head {
    /// Parses a head. Bytes that are not UTF-8 are replaced before the text is
    /// taken apart.
    pub fn parse(bytes: &[u8]) -> (r: Result<Head, HttpError>)
        ensures
            match r {
                Ok(head) => HeadView::of(utf8_lossy(bytes@)) == Some(head@),
                Err(e) => HeadView::of(utf8_lossy(bytes@)) is None && e == HttpError::EmptyHead,
            },
            forall|text: Seq<char>| #[trigger]
                encode_utf8(text) == bytes@ ==> match r {
                    Ok(head) => HeadView::of(text) == Some(head@),
                    Err(_) => HeadView::of(text) is None,
                },
    {
        let text: String = decode_lossy(bytes);
        proof {
            assert forall|t: Seq<char>| #[trigger] encode_utf8(t) == bytes@ implies text@ == t by {
                vstd::utf8::encode_utf8_valid_utf8(t);
                vstd::utf8::encode_utf8_decode_utf8(t);
                vstd::utf8::encode_utf8_decode_utf8(text@);
            }
        }
        Head::parse_text(text.as_str())
    }

    /// Parses the text of a head: the start line, then one field per line.
    pub fn parse_text(text: &str) -> (r: Result<Head, HttpError>)
        ensures
            match r {
                Ok(head) => HeadView::of(text@) == Some(head@),
                Err(e) => HeadView::of(text@) is None && e == HttpError::EmptyHead,
            },
    {
        let chars: Vec<char> = chars_of(text);
        let ls: Vec<&[char]> = split_lines(chars.as_slice());
        let ghost all = filled(lines(text@));
        if ls.len() == 0 {
            return Err(HttpError::EmptyHead);
        }
        let none: [char; 0] = [];
        let (a, b, c): (&[char], &[char], &[char]) = match split_once(ls[0], ' ') {
            None => (ls[0], &none, &none),
            Some((x, rest)) => match split_once(rest, ' ') {
                None => (x, rest, &none),
                Some((y, z)) => (x, y, z),
            },
        };
        assert(none@ =~= seq![]);
        let start = (string_of(a), string_of(b), string_of(c));
        let ghost tail = all.drop_first();
        let mut headers: Vec<(String, String)> = Vec::new();
        let mut i: usize = 1;
        assert(tail.take(0) =~= seq![]);
        assert(field_views(headers@) =~= seq![]);
        while i < ls.len()
            invariant
                1 <= i <= ls@.len(),
                ls@.len() == all.len(),
                tail == all.drop_first(),
                forall|k: int| 0 <= k < ls@.len() ==> (#[trigger] ls@[k])@ == all[k],
                field_views(headers@) == fields(tail.take(i - 1)),
            decreases ls@.len() - i,
        {
            let ghost before = headers@;
            let ghost next = tail.take(i as int);
            proof {
                assert(next.drop_last() =~= tail.take(i - 1));
                assert(next.last() == all[i as int]);
            }
            match split_once(ls[i], ':') {
                Some((k, v)) => {
                    let key: String = string_of(trim(k));
                    let value: String = string_of(trim(v));
                    headers.push((key, value));
                    assert(field_views(headers@) =~= field_views(before).push((key@, value@)));
                },
                None => {},
            }
            i = i + 1;
        }
        assert(tail.take(tail.len() as int) =~= tail);
        Ok(Head { start, headers })
    }

    /// The value of the first field of the given name, up to ASCII case.
    pub fn header(&self, name: &str) -> (r: Option<&str>)
        ensures
            match r {
                Some(v) => self@.header(name@) == Some(v@),
                None => self@.header(name@) is None,
            },
    {
        let wanted: Vec<char> = chars_of(name);
        let ghost hs = self@.headers;
        let mut i: usize = 0;
        assert(hs.skip(0) =~= hs);
        while i < self.headers.len()
            invariant
                i <= self.headers@.len(),
                wanted@ == name@,
                hs == field_views(self.headers@),
                first_field(hs, name@) == first_field(hs.skip(i as int), name@),
            decreases self.headers@.len() - i,
        {
            let (k, v): &(String, String) = &self.headers[i];
            let key: Vec<char> = chars_of(k.as_str());
            let ghost rest = hs.skip(i as int);
            assert(rest[0] == (k@, v@));
            if eq_ignore_ascii_case(key.as_slice(), wanted.as_slice()) {
                return Some(v.as_str());
            }
            assert(rest.drop_first() =~= hs.skip(i + 1));
            i = i + 1;
        }
        None
    }

    /// The number in the `Content-Length` field.
    pub fn content_length(&self) -> (r: Option<usize>)
        ensures
            match r {
                Some(n) => self@.content_length() == Some(n as int),
                None => self@.content_length() is None,
            },
    {
        match self.header("Content-Length") {
            Some(v) => {
                let chars: Vec<char> = chars_of(v);
                match parse_number(trim(chars.as_slice()), 10, usize::MAX as u64) {
                    Some(n) => Some(n as usize),
                    None => None,
                }
            },
            None => None,
        }
    }
}

/// A line break.
pub open spec fn crlf() -> Seq<char> {
    seq!['\r', '\n']
}

/// Whether a text holds no carriage return.
pub open spec fn one_line(s: Seq<char>) -> bool {
    forall|i: int| 0 <= i < s.len() ==> #[trigger] s[i] != '\r'
}

/// Two texts of one line make a text of one line.
pub proof fn lemma_concat_one_line(a: Seq<char>, b: Seq<char>)
    requires
        one_line(a),
        one_line(b),
    ensures
        one_line(a + b),
{
    let s = a + b;
    assert forall|i: int| 0 <= i < s.len() implies #[trigger] s[i] != '\r' by {
        if i < a.len() {
            assert(s[i] == a[i]);
        } else {
            assert(s[i] == b[i - a.len()]);
        }
    }
}

proof fn lemma_break_index_is(a: Seq<char>, b: Seq<char>)
    requires
        one_line(a),
    ensures
        break_index(a + crlf() + b) == a.len(),
    decreases a.len(),
{
    let s = a + crlf() + b;
    if a.len() > 0 {
        let rest = a.drop_first();
        assert forall|i: int| 0 <= i < rest.len() implies #[trigger] rest[i] != '\r' by {
            assert(rest[i] == a[i + 1]);
        }
        lemma_break_index_is(rest, b);
        assert(s.drop_first() =~= rest + crlf() + b);
        assert(s[0] == a[0]);
    }
}

/// A text of one line, a line break and anything: the first line is that text.
pub proof fn lemma_lines_cons(a: Seq<char>, b: Seq<char>)
    requires
        one_line(a),
    ensures
        lines(a + crlf() + b) == seq![a] + lines(b),
{
    let s = a + crlf() + b;
    lemma_break_index_is(a, b);
    assert(s.take(a.len() as int) =~= a);
    assert(s.skip(a.len() as int + 2) =~= b);
}

/// Lines that are written one after the other, each with its line break.
pub open spec fn written(ls: Seq<Seq<char>>) -> Seq<char>
    decreases ls.len(),
{
    if ls.len() == 0 {
        seq![]
    } else {
        ls[0] + crlf() + written(ls.drop_first())
    }
}

proof fn lemma_filled_all(ls: Seq<Seq<char>>, tail: Seq<Seq<char>>)
    requires
        forall|i: int| 0 <= i < ls.len() ==> (#[trigger] ls[i]).len() > 0,
        forall|i: int| 0 <= i < tail.len() ==> (#[trigger] tail[i]).len() == 0,
    ensures
        filled(ls + tail) == ls,
    decreases ls.len() + tail.len(),
{
    let all = ls + tail;
    if tail.len() > 0 {
        assert(all.last() == tail[tail.len() - 1]);
        assert(all.drop_last() =~= ls + tail.drop_last());
        lemma_filled_all(ls, tail.drop_last());
    } else if ls.len() > 0 {
        assert(all =~= ls);
        assert(ls[ls.len() - 1].len() > 0);
        assert(ls.drop_last() + tail =~= ls.drop_last());
        lemma_filled_all(ls.drop_last(), tail);
        assert(ls.drop_last().push(ls.last()) =~= ls);
    } else {
        assert(all =~= seq![]);
    }
}

proof fn lemma_lines_written(ls: Seq<Seq<char>>)
    requires
        forall|i: int| 0 <= i < ls.len() ==> one_line(#[trigger] ls[i]),
    ensures
        lines(written(ls) + crlf()) == ls + seq![Seq::<char>::empty(), Seq::<char>::empty()],
    decreases ls.len(),
{
    if ls.len() == 0 {
        let none = Seq::<char>::empty();
        assert(written(ls) + crlf() =~= none + crlf() + none);
        lemma_lines_cons(none, none);
        assert(lines(none) =~= seq![none]);
        assert(seq![none] + lines(none) =~= seq![none, none]);
        assert(ls + seq![none, none] =~= seq![none, none]);
    } else {
        let rest = ls.drop_first();
        assert forall|i: int| 0 <= i < rest.len() implies one_line(#[trigger] rest[i]) by {
            assert(rest[i] == ls[i + 1]);
        }
        lemma_lines_written(rest);
        assert(one_line(ls[0]));
        lemma_lines_cons(ls[0], written(rest) + crlf());
        assert(written(ls) + crlf() =~= ls[0] + crlf() + (written(rest) + crlf()));
        assert(seq![ls[0]] + (rest + seq![Seq::<char>::empty(), Seq::<char>::empty()]) =~= ls + seq![
            Seq::<char>::empty(),
            Seq::<char>::empty(),
        ]);
    }
}

/// A head that is written as a start line and field lines, an empty line at its
/// end, reads back as those lines.
pub proof fn lemma_written_head(ls: Seq<Seq<char>>)
    requires
        ls.len() > 0,
        forall|i: int| 0 <= i < ls.len() ==> one_line(#[trigger] ls[i]) && ls[i].len() > 0,
    ensures
        HeadView::of(written(ls) + crlf()) == Some(
            HeadView { start: words(ls[0]), headers: fields(ls.drop_first()) },
        ),
{
    lemma_lines_written(ls);
    lemma_filled_all(ls, seq![Seq::<char>::empty(), Seq::<char>::empty()]);
}

/// A field line that needs no trimming reads back as its name and value.
pub proof fn lemma_field_line(name: Seq<char>, value: Seq<char>)
    requires
        name.len() > 0,
        forall|i: int| 0 <= i < name.len() ==> #[trigger] name[i] != ':' && !crate::text::is_space(
            name[i],
        ),
        value.len() > 0,
        !crate::text::is_space(value[0]),
        !crate::text::is_space(value.last()),
    ensures
        ({
            let line = name + seq![':', ' '] + value;
            split_first(line, ':') matches Some((k, v)) && trimmed(k) == name && trimmed(v) == value
        }),
{
    let line = name + seq![':', ' '] + value;
    let padded = seq![' '] + value;
    assert(line =~= name + seq![':'] + padded);
    lemma_split_first_is(name, ':', padded);
    assert(name[name.len() - 1] == name.last());
    lemma_trimmed_is(name);
    lemma_trimmed_is(value);
    assert(padded.drop_first() =~= value);
    assert(crate::text::trimmed_start(padded) == crate::text::trimmed_start(value));
}

/// A field is found by its name up to ASCII case, and of several the first counts; no
/// field is found exactly if none has the name.
pub proof fn law_header_is_the_first_of_its_name(
    headers: Seq<(Seq<char>, Seq<char>)>,
    name: Seq<char>,
    i: int,
)
    ensures
        0 <= i < headers.len() && same_text(headers[i].0, name) && (forall|j: int|
            0 <= j < i ==> !same_text((#[trigger] headers[j]).0, name)) ==> first_field(
            headers,
            name,
        ) == Some(headers[i].1),
        first_field(headers, name) is None && 0 <= i < headers.len() ==> !same_text(
            headers[i].0,
            name,
        ),
    decreases headers.len(),
{
    if headers.len() > 0 && i > 0 {
        let rest = headers.drop_first();
        law_header_is_the_first_of_its_name(rest, name, i - 1);
        if 0 <= i < headers.len() {
            assert(rest[i - 1] == headers[i]);
            if forall|j: int| 0 <= j < i ==> !same_text((#[trigger] headers[j]).0, name) {
                assert(!same_text(headers[0].0, name));
                assert forall|j: int| 0 <= j < i - 1 implies !same_text(
                    (#[trigger] rest[j]).0,
                    name,
                ) by {
                    assert(rest[j] == headers[j + 1]);
                }
            }
        }
    }
}

/// A start line is its first two words and all that follows them.
pub proof fn law_start_line_has_three_words(a: Seq<char>, b: Seq<char>, c: Seq<char>)
    requires
        !a.contains(' '),
        !b.contains(' '),
    ensures
        words(a + seq![' '] + b + seq![' '] + c) == (a, b, c),
        words(a + seq![' '] + b) == (a, b, Seq::<char>::empty()),
        words(a) == (a, Seq::<char>::empty(), Seq::<char>::empty()),
{
    assert forall|i: int| 0 <= i < a.len() implies #[trigger] a[i] != ' ' by {
        assert(a.contains(a[i]));
    }
    assert forall|i: int| 0 <= i < b.len() implies #[trigger] b[i] != ' ' by {
        assert(b.contains(b[i]));
    }
    let rest = b + seq![' '] + c;
    assert(a + seq![' '] + b + seq![' '] + c =~= a + seq![' '] + rest);
    lemma_split_first_is(a, ' ', rest);
    lemma_split_first_is(b, ' ', c);
    lemma_split_first_is(a, ' ', b);
    crate::text::lemma_first_index_is(a, ' ', a.len() as int);
    crate::text::lemma_first_index_is(b, ' ', b.len() as int);
}

/// The line of a field.
pub open spec fn field_line(field: (Seq<char>, Seq<char>)) -> Seq<char> {
    field.0 + seq![':', ' '] + field.1
}

/// Whether a field can be written as it is: its name holds neither colon nor white
/// space, its value has visible ends, and neither holds a line break.
pub open spec fn plain_field(field: (Seq<char>, Seq<char>)) -> bool {
    &&& field.0.len() > 0 && field.1.len() > 0
    &&& forall|i: int|
        0 <= i < field.0.len() ==> #[trigger] field.0[i] != ':' && !crate::text::is_space(
            field.0[i],
        )
    &&& !crate::text::is_space(field.1[0]) && !crate::text::is_space(field.1.last())
    &&& one_line(field.1)
}

proof fn lemma_plain_field_line(field: (Seq<char>, Seq<char>))
    requires
        plain_field(field),
    ensures
        one_line(field_line(field)),
        field_line(field).len() > 0,
{
    let name = field.0;
    assert forall|i: int| 0 <= i < name.len() implies #[trigger] name[i] != '\r' by {
        assert(!crate::text::is_space(name[i]));
    }
    lemma_concat_one_line(name, seq![':', ' ']);
    lemma_concat_one_line(name + seq![':', ' '], field.1);
}

proof fn lemma_fields_of_lines(fs: Seq<(Seq<char>, Seq<char>)>)
    requires
        forall|i: int| 0 <= i < fs.len() ==> plain_field(#[trigger] fs[i]),
    ensures
        fields(fs.map_values(|f: (Seq<char>, Seq<char>)| field_line(f))) == fs,
    decreases fs.len(),
{
    let ls = fs.map_values(|f: (Seq<char>, Seq<char>)| field_line(f));
    if fs.len() > 0 {
        let init = fs.drop_last();
        assert forall|i: int| 0 <= i < init.len() implies plain_field(#[trigger] init[i]) by {
            assert(init[i] == fs[i]);
        }
        lemma_fields_of_lines(init);
        assert(ls.drop_last() =~= init.map_values(|f: (Seq<char>, Seq<char>)| field_line(f)));
        assert(plain_field(fs[fs.len() - 1]));
        lemma_field_line(fs.last().0, fs.last().1);
        assert(init.push(fs.last()) =~= fs);
    } else {
        assert(ls =~= seq![]);
    }
}

/// A head reads back as it was written, with any number of fields in any order: the
/// words of its start line and every field, none added, lost or exchanged.
pub proof fn law_head_reads_back(start: Seq<char>, fs: Seq<(Seq<char>, Seq<char>)>)
    requires
        one_line(start),
        start.len() > 0,
        forall|i: int| 0 <= i < fs.len() ==> plain_field(#[trigger] fs[i]),
    ensures
        ({
            let ls = seq![start] + fs.map_values(|f: (Seq<char>, Seq<char>)| field_line(f));
            HeadView::of(written(ls) + crlf()) == Some(
                HeadView { start: words(start), headers: fs },
            )
        }),
{
    let fl = fs.map_values(|f: (Seq<char>, Seq<char>)| field_line(f));
    let ls = seq![start] + fl;
    assert forall|i: int| 0 <= i < ls.len() implies one_line(#[trigger] ls[i]) && ls[i].len()
        > 0 by {
        if i > 0 {
            assert(ls[i] == field_line(fs[i - 1]));
            assert(plain_field(fs[i - 1]));
            lemma_plain_field_line(fs[i - 1]);
        }
    }
    lemma_written_head(ls);
    assert(ls.drop_first() =~= fl);
    lemma_fields_of_lines(fs);
}

/// A line without colon is no field.
pub proof fn law_line_without_colon_is_no_field(ls: Seq<Seq<char>>, line: Seq<char>)
    requires
        !line.contains(':'),
    ensures
        fields(ls.push(line)) == fields(ls),
{
    assert(ls.push(line).drop_last() =~= ls);
    assert forall|i: int| 0 <= i < line.len() implies #[trigger] line[i] != ':' by {
        assert(line.contains(line[i]));
    }
    crate::text::lemma_first_index_is(line, ':', line.len() as int);
}

/// The length of a body is the number that its field writes; a head without the field
/// gives none, and neither does a number that no body reaches.
pub proof fn law_content_length_is_the_number(head: HeadView, n: nat)
    ensures
        head.header("Content-Length"@) == Some(crate::text::digits(n, 10)) && n <= usize::MAX
            ==> head.content_length() == Some(n as int),
        head.header("Content-Length"@) == Some(crate::text::digits(n, 10)) && n > usize::MAX
            ==> head.content_length() is None,
        head.header("Content-Length"@) is None ==> head.content_length() is None,
{
    let d = crate::text::digits(n, 10);
    crate::text::lemma_digits(n, 10);
    let (c0, c1) = (d[0], d[d.len() - 1]);
    assert(('0' <= c0 <= '9') || ('a' <= c0 <= 'f'));
    assert(('0' <= c1 <= '9') || ('a' <= c1 <= 'f'));
    lemma_trimmed_is(d);
}

/// A body is read until it is complete and never past its end: nothing more is wanted
/// exactly once all of it is there, and what is wanted is missing. Bytes that were
/// read of what follows it are no part of it.
pub proof fn law_body_is_read_to_its_end(got: nat, body: Seq<u8>, next: Seq<u8>)
    requires
        body.len() <= usize::MAX,
    ensures
        wanted(got as int, body.len() as int) == 0 <==> got >= body.len(),
        got < body.len() ==> 1 <= wanted(got as int, body.len() as int) <= body.len() - got,
        wanted(got as int, body.len() as int) <= 0x10_0000,
        got < body.len() && wanted(got as int, body.len() as int) < 0x10_0000 ==> got + wanted(
            got as int,
            body.len() as int,
        ) == body.len(),
        body_of(body + next, body.len() as usize) == body,
        got <= body.len() ==> body_of(body.take(got as int), body.len() as usize) == body.take(
            got as int,
        ),
{
    assert(body_of(body + next, body.len() as usize) =~= body);
    if got <= body.len() {
        let part = body.take(got as int);
        assert(body_of(part, body.len() as usize) =~= part);
    }
}

/// A head ends with an empty line: a line break directly behind another.
pub proof fn law_head_ends_with_an_empty_line(buf: Seq<u8>, i: int)
    requires
        0 <= i,
        i + 4 <= buf.len(),
    ensures
        head_ends_at(buf, i) <==> buf.subrange(i, i + 4) == seq![13u8, 10u8, 13u8, 10u8],
{
    let four = buf.subrange(i, i + 4);
    if head_ends_at(buf, i) {
        assert(four =~= seq![13u8, 10u8, 13u8, 10u8]);
    }
    if four == seq![13u8, 10u8, 13u8, 10u8] {
        assert(four[0] == buf[i] && four[1] == buf[i + 1] && four[2] == buf[i + 2] && four[3]
            == buf[i + 3]);
    }
}

} // verus!
