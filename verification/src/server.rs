//! What the demonstration origin answers: routes, ranges and zero-copy responses.

use vstd::prelude::*;
use crate::http::{crlf, lemma_concat_one_line, written};
use crate::pattern::{pattern, pattern_chunk, CHUNK};
use crate::range::{
    content_range, content_range_text, content_range_unsatisfied, parse_range, resolved,
    unsatisfied_text, RangeSpec,
};
use crate::text::{
    after_prefix, chars_of, digits, equals, parse_number, parsed_number, push_number, strip_prefix,
};
use crate::zerocopy::{RdmaWriteAction, RdmaWriteReq, RdmaWriteStatus, HEADER};

verus! {

/// The largest test object that is served.
pub const MAX_BODY: usize = 0x4000_0000;

/// The fixed texts that are served.
#[derive(Debug, Clone, Copy, PartialEq, Eq, Structural)]
pub enum Page {
    /// The method is not supported.
    OnlyGet,
    /// The front page of the blocking server.
    Greeting,
    /// The front page of the asynchronous server.
    AsyncGreeting,
    /// The object is larger than what is served.
    SizeLimit,
    /// The size in the path is no number.
    BadSize,
    /// There is nothing at the path.
    NotFound,
    /// No source buffer could be had.
    InternalError,
    /// The body could not be written to the client.
    WriteFailed,
}

impl Page {
    /// The text of the page.
    pub open spec fn content(self) -> Seq<char> {
        match self {
            Page::OnlyGet => "only GET is supported\n"@,
            Page::Greeting => "HORD prototype server. Try GET /size/<bytes>.\n"@,
            Page::AsyncGreeting => "HORD async server. Try GET /size/<bytes>.\n"@,
            Page::SizeLimit => "size exceeds server limit\n"@,
            Page::BadSize => "bad size\n"@,
            Page::NotFound => "not found\n"@,
            Page::InternalError => "internal error\n"@,
            Page::WriteFailed => "rdma write failed\n"@,
        }
    }

    /// The text of the page.
    pub fn text(&self) -> (r: &'static str)
        ensures
            r@ == self.content(),
    {
        match self {
            Page::OnlyGet => "only GET is supported\n",
            Page::Greeting => "HORD prototype server. Try GET /size/<bytes>.\n",
            Page::AsyncGreeting => "HORD async server. Try GET /size/<bytes>.\n",
            Page::SizeLimit => "size exceeds server limit\n",
            Page::BadSize => "bad size\n",
            Page::NotFound => "not found\n",
            Page::InternalError => "internal error\n",
            Page::WriteFailed => "rdma write failed\n",
        }
    }
}

/// What a reply carries on the stream.
#[derive(Debug, Clone, Copy, PartialEq, Eq, Structural)]
pub enum ReplyBody {
    /// Nothing.
    Empty,
    /// A fixed text.
    Page(Page),
    /// `len` bytes of a test object, from position `start` on.
    Pattern {
        /// First position.
        start: usize,
        /// Number of bytes.
        len: usize,
    },
}

/// What a reply says about the range it carries.
#[derive(Debug, Clone, Copy, PartialEq, Eq, Structural)]
pub enum RangeHeader {
    /// Nothing.
    Absent,
    /// The bytes from `start` to `end`, both included, of `total`.
    Satisfied {
        /// First byte.
        start: usize,
        /// Last byte.
        end: usize,
        /// Size of the object.
        total: usize,
    },
    /// The range lies past the end of an object of `total` bytes.
    Unsatisfied {
        /// Size of the object.
        size: usize,
    },
}

impl RangeHeader {
    /// The `Content-Range` value, if there is one.
    pub open spec fn value(self) -> Option<Seq<char>> {
        match self {
            RangeHeader::Absent => None,
            RangeHeader::Satisfied { start, end, total } => Some(
                content_range_text(start, end, total),
            ),
            RangeHeader::Unsatisfied { size } => Some(unsatisfied_text(size)),
        }
    }

    /// The `Content-Range` value, if there is one.
    pub fn header_value(&self) -> (r: Option<String>)
        ensures
            match r {
                Some(s) => self.value() == Some(s@),
                None => self.value() is None,
            },
    {
        match self {
            RangeHeader::Absent => None,
            RangeHeader::Satisfied { start, end, total } => Some(
                content_range(*start, *end, *total),
            ),
            RangeHeader::Unsatisfied { size } => Some(content_range_unsatisfied(*size)),
        }
    }
}

/// A reply: its status code, what it carries, and the zero-copy status and range
/// that go with it.
#[derive(Debug, Clone, Copy, PartialEq, Eq, Structural)]
pub struct Reply {
    /// Status code.
    pub status: u16,
    /// Stream body.
    pub body: ReplyBody,
    /// Zero-copy status.
    pub zc: Option<RdmaWriteStatus>,
    /// `Content-Range`.
    pub range: RangeHeader,
}

impl Reply {
    /// A fixed text.
    pub open spec fn page(status: u16, page: Page, zc: Option<RdmaWriteStatus>) -> Reply {
        Reply { status, body: ReplyBody::Page(page), zc, range: RangeHeader::Absent }
    }

    /// A whole test object on the stream.
    pub open spec fn object(size: usize, zc: Option<RdmaWriteStatus>) -> Reply {
        Reply {
            status: 200,
            body: ReplyBody::Pattern { start: 0, len: size },
            zc,
            range: RangeHeader::Absent,
        }
    }

    /// Whether the reply is a text rather than bytes.
    pub open spec fn is_text(self) -> bool {
        self.body is Page
    }

    /// The media type of the reply.
    pub fn content_type(&self) -> (r: &'static str)
        ensures
            r@ == (if self.is_text() {
                "text/plain"@
            } else {
                "application/octet-stream"@
            }),
    {
        match self.body {
            ReplyBody::Page(_) => "text/plain",
            _ => "application/octet-stream",
        }
    }
}

/// Whether the blocking server answers with this status code.
pub open spec fn is_status(status: u16) -> bool {
    status == 200 || status == 400 || status == 404 || status == 405 || status == 413 || status
        == 500
}

/// The reason phrase of a status code of the blocking server.
pub open spec fn reason_of(status: u16) -> Seq<char> {
    if status == 200 {
        "OK"@
    } else if status == 400 {
        "Bad Request"@
    } else if status == 404 {
        "Not Found"@
    } else if status == 405 {
        "Method Not Allowed"@
    } else if status == 413 {
        "Content Too Large"@
    } else {
        "Internal Server Error"@
    }
}

/// The reason phrase of a status code of the blocking server.
pub fn reason(status: u16) -> (r: &'static str)
    requires
        is_status(status),
    ensures
        r@ == reason_of(status),
{
    if status == 200 {
        "OK"
    } else if status == 400 {
        "Bad Request"
    } else if status == 404 {
        "Not Found"
    } else if status == 405 {
        "Method Not Allowed"
    } else if status == 413 {
        "Content Too Large"
    } else {
        "Internal Server Error"
    }
}

/// What the path asks for.
pub enum Target {
    /// The front page.
    Front,
    /// A test object of this size.
    Object(usize),
    /// A test object that is too large.
    TooLarge,
    /// A test object whose size is no number.
    BadSize,
    /// Nothing that is served.
    Nothing,
}

/// What the path asks for.
pub open spec fn target_of(path: Seq<char>) -> Target {
    if path == "/"@ {
        Target::Front
    } else {
        match after_prefix(path, "/size/"@) {
            Some(rest) => match parsed_number(rest, 10, usize::MAX as int) {
                Some(n) => if n <= MAX_BODY {
                    Target::Object(n as usize)
                } else {
                    Target::TooLarge
                },
                None => Target::BadSize,
            },
            None => Target::Nothing,
        }
    }
}

/// Resolves a path.
pub fn target(path: &str) -> (r: Target)
    ensures
        r == target_of(path@),
{
    let chars: Vec<char> = chars_of(path);
    if equals(chars.as_slice(), "/") {
        return Target::Front;
    }
    match strip_prefix(chars.as_slice(), "/size/") {
        Some(rest) => match parse_number(rest, 10, usize::MAX as u64) {
            Some(n) => if n <= MAX_BODY as u64 {
                Target::Object(n as usize)
            } else {
                Target::TooLarge
            },
            None => Target::BadSize,
        },
        None => Target::Nothing,
    }
}

fn page_reply(status: u16, page: Page, zc: Option<RdmaWriteStatus>) -> (r: Reply)
    ensures
        r == Reply::page(status, page, zc),
{
    Reply { status, body: ReplyBody::Page(page), zc, range: RangeHeader::Absent }
}

fn is_get(method: &str) -> (r: bool)
    ensures
        r == (method@ == "GET"@),
{
    let chars: Vec<char> = chars_of(method);
    equals(chars.as_slice(), "GET")
}

/// The lines of a response head.
pub open spec fn head_lines(
    status: u16,
    reason: Seq<char>,
    content_type: Seq<char>,
    len: usize,
    zc: Option<RdmaWriteStatus>,
) -> Seq<Seq<char>> {
    let base = seq![
        "HTTP/1.1 "@ + digits(status as nat, 10) + " "@ + reason,
        "Content-Type: "@ + content_type,
        "Content-Length: "@ + digits(len as nat, 10),
        "Connection: close"@,
    ];
    match zc {
        Some(z) => base.push(HEADER@ + ": "@ + z.value()),
        None => base,
    }
}

/// Writes the head of a response whose body has `len` bytes, with a zero-copy
/// status if there is one.
pub fn response_head(
    status: u16,
    reason: &str,
    content_type: &str,
    len: usize,
    zc: Option<RdmaWriteStatus>,
) -> (r: String)
    ensures
        r@ == written(head_lines(status, reason@, content_type@, len, zc)) + crlf(),
{
    let mut s: String = String::new();
    s.append("HTTP/1.1 ");
    push_number(&mut s, status as u64, 10);
    s.append(" ");
    s.append(reason);
    s.append("\r\n");
    s.append("Content-Type: ");
    s.append(content_type);
    s.append("\r\n");
    s.append("Content-Length: ");
    push_number(&mut s, len as u64, 10);
    s.append("\r\n");
    s.append("Connection: close");
    s.append("\r\n");
    if let Some(z) = zc {
        let line: String = z.header_line();
        s.append(line.as_str());
        s.append("\r\n");
    }
    s.append("\r\n");
    proof {
        reveal_strlit("\r\n");
        assert("\r\n"@ =~= crlf());
        let ls = head_lines(status, reason@, content_type@, len, zc);
        reveal_with_fuel(written, 6);
        let l1 = ls.drop_first();
        let l2 = l1.drop_first();
        let l3 = l2.drop_first();
        let l4 = l3.drop_first();
        if zc is Some {
            assert(l4.drop_first().len() == 0);
            assert(written(l4) =~= ls[4] + crlf());
        } else {
            assert(l4.len() == 0);
        }
        assert(written(l3) =~= ls[3] + crlf() + written(l4));
        assert(written(l2) =~= ls[2] + crlf() + written(l3));
        assert(written(l1) =~= ls[1] + crlf() + written(l2));
        assert(s@ =~= written(ls) + crlf());
    }
    s
}

/// What a server does about a request.
#[derive(Debug, Clone, Copy, PartialEq, Eq)]
pub enum ServePlan {
    /// Answer at once.
    Answer(Reply),
    /// Deliver `len` bytes of an object of `total` bytes, from position `base` on,
    /// by writing them into the client's buffer.
    ZeroCopy {
        /// What the client asked for.
        req: RdmaWriteReq,
        /// First position.
        base: usize,
        /// Number of bytes.
        len: usize,
        /// Size of the object.
        total: usize,
        /// The bytes are a range of the object.
        partial: bool,
    },
}

/// The zero-copy request that counts: the header's, if zero-copy negotiated and
/// the header is well formed.
pub open spec fn honoured(header: Option<Seq<char>>, negotiated: bool) -> Option<RdmaWriteReq> {
    match header {
        Some(v) => if negotiated {
            RdmaWriteReq::parsed(v)
        } else {
            None
        },
        None => None,
    }
}

/// What an object of `n` bytes is answered with.
pub open spec fn object_plan(
    n: usize,
    range: Option<Seq<char>>,
    req: Option<RdmaWriteReq>,
    declined: Option<RdmaWriteStatus>,
) -> ServePlan {
    let spec = match range {
        Some(r) => resolved(r, n),
        None => RangeSpec::Full,
    };
    match spec {
        RangeSpec::Unsatisfiable => ServePlan::Answer(
            Reply {
                status: 416,
                body: ReplyBody::Empty,
                zc: None,
                range: RangeHeader::Unsatisfied { size: n },
            },
        ),
        RangeSpec::Range { start, end } => {
            let len = (end - start + 1) as usize;
            match req {
                Some(q) => ServePlan::ZeroCopy { req: q, base: start, len, total: n, partial: true },
                None => ServePlan::Answer(
                    Reply {
                        status: 206,
                        body: ReplyBody::Pattern { start, len },
                        zc: declined,
                        range: RangeHeader::Satisfied { start, end, total: n },
                    },
                ),
            }
        },
        RangeSpec::Full => match req {
            Some(q) => ServePlan::ZeroCopy { req: q, base: 0, len: n, total: n, partial: false },
            None => ServePlan::Answer(Reply::object(n, declined)),
        },
    }
}

/// What a server with the front page `front` does about a request, given its
/// zero-copy header, its range and whether zero-copy negotiated. A reply with a
/// body to a request with a zero-copy header says that zero-copy is declined.
pub open spec fn planned(
    front: Page,
    method: Seq<char>,
    path: Seq<char>,
    header: Option<Seq<char>>,
    range: Option<Seq<char>>,
    negotiated: bool,
) -> ServePlan {
    let declined = if header is Some {
        Some(RdmaWriteStatus::Declined)
    } else {
        None
    };
    if method != "GET"@ {
        ServePlan::Answer(Reply::page(405, Page::OnlyGet, declined))
    } else {
        match target_of(path) {
            Target::Front => ServePlan::Answer(Reply::page(200, front, declined)),
            Target::Object(n) => object_plan(n, range, honoured(header, negotiated), declined),
            Target::TooLarge => ServePlan::Answer(Reply::page(413, Page::SizeLimit, declined)),
            Target::BadSize => ServePlan::Answer(Reply::page(400, Page::BadSize, declined)),
            Target::Nothing => ServePlan::Answer(Reply::page(404, Page::NotFound, declined)),
        }
    }
}

/// The view of an optional text.
pub open spec fn text_view(s: Option<&str>) -> Option<Seq<char>> {
    match s {
        Some(t) => Some(t@),
        None => None,
    }
}

/// Decides what the blocking server does about a request. It serves whole objects.
pub fn serve_one(method: &str, path: &str, header: Option<&str>, negotiated: bool) -> (r: ServePlan)
    ensures
        r == planned(Page::Greeting, method@, path@, text_view(header), None, negotiated),
        r matches ServePlan::Answer(reply) ==> is_status(reply.status),
{
    plan(Page::Greeting, method, path, header, None, negotiated)
}

/// Decides what the asynchronous server does about a request.
pub fn serve(
    method: &str,
    path: &str,
    header: Option<&str>,
    range: Option<&str>,
    negotiated: bool,
) -> (r: ServePlan)
    ensures
        r == planned(
            Page::AsyncGreeting,
            method@,
            path@,
            text_view(header),
            text_view(range),
            negotiated,
        ),
{
    plan(Page::AsyncGreeting, method, path, header, range, negotiated)
}

fn plan(
    front: Page,
    method: &str,
    path: &str,
    header: Option<&str>,
    range: Option<&str>,
    negotiated: bool,
) -> (r: ServePlan)
    ensures
        r == planned(front, method@, path@, text_view(header), text_view(range), negotiated),
{
    let declined: Option<RdmaWriteStatus> = if header.is_some() {
        Some(RdmaWriteStatus::Declined)
    } else {
        None
    };
    if !is_get(method) {
        return ServePlan::Answer(page_reply(405, Page::OnlyGet, declined));
    }
    let n: usize = match target(path) {
        Target::Front => {
            return ServePlan::Answer(page_reply(200, front, declined));
        },
        Target::Object(n) => n,
        Target::TooLarge => {
            return ServePlan::Answer(page_reply(413, Page::SizeLimit, declined));
        },
        Target::BadSize => {
            return ServePlan::Answer(page_reply(400, Page::BadSize, declined));
        },
        Target::Nothing => {
            return ServePlan::Answer(page_reply(404, Page::NotFound, declined));
        },
    };
    let req: Option<RdmaWriteReq> = match header {
        Some(v) => if negotiated {
            RdmaWriteReq::parse(v)
        } else {
            None
        },
        None => None,
    };
    let spec: RangeSpec = match range {
        Some(v) => parse_range(v, n),
        None => RangeSpec::Full,
    };
    proof {
        if range is Some {
            crate::range::law_range_within_object(range->0@, n);
        }
    }
    match spec {
        RangeSpec::Unsatisfiable => ServePlan::Answer(
            Reply {
                status: 416,
                body: ReplyBody::Empty,
                zc: None,
                range: RangeHeader::Unsatisfied { size: n },
            },
        ),
        RangeSpec::Range { start, end } => {
            let len: usize = end - start + 1;
            match req {
                Some(q) => ServePlan::ZeroCopy { req: q, base: start, len, total: n, partial: true },
                None => ServePlan::Answer(
                    Reply {
                        status: 206,
                        body: ReplyBody::Pattern { start, len },
                        zc: declined,
                        range: RangeHeader::Satisfied { start, end, total: n },
                    },
                ),
            }
        },
        RangeSpec::Full => match req {
            Some(q) => ServePlan::ZeroCopy { req: q, base: 0, len: n, total: n, partial: false },
            None => ServePlan::Answer(
                Reply {
                    status: 200,
                    body: ReplyBody::Pattern { start: 0, len: n },
                    zc: declined,
                    range: RangeHeader::Absent,
                },
            ),
        },
    }
}

/// What has to be done for a zero-copy response.
#[derive(Debug, Clone, Copy, PartialEq, Eq)]
pub enum ZeroCopyStep {
    /// Answer without writing.
    Answer(Reply),
    /// Acquire a source of `source_len` bytes, fill its first `payload_len` bytes
    /// and write them to the client.
    Write {
        /// Bytes to write.
        payload_len: usize,
        /// Bytes of the source.
        source_len: usize,
        /// The transfer identifier to deliver, if splitting.
        transfer_id: Option<u32>,
    },
}

/// How writing the body ended.
#[derive(Debug, Clone, Copy, PartialEq, Eq, Structural)]
pub enum WriteOutcome {
    /// This many bytes are in the client's buffer.
    Written {
        /// Number of bytes.
        payload_len: usize,
    },
    /// No source buffer could be had.
    NoSource,
    /// The write failed.
    Failed,
}

/// The reply that carries only a zero-copy status. A body that does not fit is
/// refused; anything else is a success, and a range of the object says which.
pub open spec fn zero_copy_reply(
    status: RdmaWriteStatus,
    base: usize,
    len: usize,
    total: usize,
    partial: bool,
) -> Reply {
    Reply {
        status: if status is TooLarge {
            413
        } else if partial {
            206
        } else {
            200
        },
        body: ReplyBody::Empty,
        zc: Some(status),
        range: if status is Complete && partial {
            RangeHeader::Satisfied { start: base, end: (base + len - 1) as usize, total }
        } else {
            RangeHeader::Absent
        },
    }
}

fn status_reply(status: RdmaWriteStatus, base: usize, len: usize, total: usize, partial: bool) -> (r:
    Reply)
    requires
        partial ==> len >= 1 && base + len <= usize::MAX,
    ensures
        r == zero_copy_reply(status, base, len, total, partial),
{
    let code: u16 = match status {
        RdmaWriteStatus::TooLarge { .. } => 413,
        _ => if partial {
            206
        } else {
            200
        },
    };
    let range: RangeHeader = match status {
        RdmaWriteStatus::Complete { .. } => if partial {
            RangeHeader::Satisfied { start: base, end: base + len - 1, total }
        } else {
            RangeHeader::Absent
        },
        _ => RangeHeader::Absent,
    };
    Reply { status: code, body: ReplyBody::Empty, zc: Some(status), range }
}

/// What a zero-copy response of `len` bytes takes.
pub open spec fn zero_copy_begun(
    req: RdmaWriteReq,
    base: usize,
    len: usize,
    total: usize,
    partial: bool,
    split_negotiated: bool,
) -> ZeroCopyStep {
    match RdmaWriteAction::decided(req, len as u64, split_negotiated) {
        RdmaWriteAction::Respond(status) => ZeroCopyStep::Answer(
            zero_copy_reply(status, base, len, total, partial),
        ),
        RdmaWriteAction::Write { payload_len, source_len, transfer_id } => ZeroCopyStep::Write {
            payload_len,
            source_len,
            transfer_id,
        },
    }
}

/// Decides what a zero-copy response takes. The policy is applied to the length
/// that is asked for, not to the size of the object.
pub fn begin_zero_copy(
    req: &RdmaWriteReq,
    base: usize,
    len: usize,
    total: usize,
    partial: bool,
    split_negotiated: bool,
) -> (r: ZeroCopyStep)
    requires
        partial ==> len >= 1 && base + len <= usize::MAX,
    ensures
        r == zero_copy_begun(*req, base, len, total, partial, split_negotiated),
{
    match RdmaWriteAction::decide(req, len as u64, split_negotiated) {
        RdmaWriteAction::Respond(status) => ZeroCopyStep::Answer(
            status_reply(status, base, len, total, partial),
        ),
        RdmaWriteAction::Write { payload_len, source_len, transfer_id } => ZeroCopyStep::Write {
            payload_len,
            source_len,
            transfer_id,
        },
    }
}

/// The reply once the write is over. Only a write that succeeded is reported as
/// complete; the page that reports a failure says that zero-copy is declined, as
/// every reply with a body does.
pub open spec fn zero_copy_finished(
    outcome: WriteOutcome,
    base: usize,
    len: usize,
    total: usize,
    partial: bool,
) -> Reply {
    match outcome {
        WriteOutcome::Written { payload_len } => zero_copy_reply(
            RdmaWriteStatus::Complete { bytes_written: payload_len as u64 },
            base,
            len,
            total,
            partial,
        ),
        WriteOutcome::NoSource => Reply::page(
            500,
            Page::InternalError,
            Some(RdmaWriteStatus::Declined),
        ),
        WriteOutcome::Failed => Reply::page(
            500,
            Page::WriteFailed,
            Some(RdmaWriteStatus::Declined),
        ),
    }
}

/// Decides the reply once the write is over.
pub fn finish_zero_copy(
    outcome: WriteOutcome,
    base: usize,
    len: usize,
    total: usize,
    partial: bool,
) -> (r: Reply)
    requires
        partial ==> len >= 1 && base + len <= usize::MAX,
    ensures
        r == zero_copy_finished(outcome, base, len, total, partial),
{
    match outcome {
        WriteOutcome::Written { payload_len } => status_reply(
            RdmaWriteStatus::Complete { bytes_written: payload_len as u64 },
            base,
            len,
            total,
            partial,
        ),
        WriteOutcome::NoSource => page_reply(
            500,
            Page::InternalError,
            Some(RdmaWriteStatus::Declined),
        ),
        WriteOutcome::Failed => page_reply(
            500,
            Page::WriteFailed,
            Some(RdmaWriteStatus::Declined),
        ),
    }
}

/// A test object, or a range of one, that is emitted in chunks.
#[derive(Debug, Clone, Copy, PartialEq, Eq, Structural)]
pub struct PatternBody {
    /// Position of the next byte.
    pub offset: usize,
    /// One past the last position.
    pub end: usize,
}

impl PatternBody {
    /// The bytes that are still to be emitted.
    pub open spec fn rest(self) -> Seq<u8> {
        if self.offset >= self.end {
            seq![]
        } else {
            pattern(self.offset as int, (self.end - self.offset) as nat)
        }
    }

    /// A whole object.
    pub fn new(total: usize) -> (r: Self)
        ensures
            r == (PatternBody { offset: 0, end: total }),
            r.rest() == pattern(0, total as nat),
    {
        let body = PatternBody { offset: 0, end: total };
        assert(body.rest() =~= pattern(0, total as nat));
        body
    }

    /// `len` bytes of an object from position `start` on.
    pub fn range(start: usize, len: usize) -> (r: Self)
        requires
            start + len <= usize::MAX,
        ensures
            r == (PatternBody { offset: start, end: (start + len) as usize }),
            r.rest() == pattern(start as int, len as nat),
    {
        let body = PatternBody { offset: start, end: start + len };
        assert(body.rest() =~= pattern(start as int, len as nat));
        body
    }

    /// The next chunk, or `None` at the end. What it emits is the front of what was
    /// still to be emitted.
    pub fn next_frame(&mut self) -> (r: Option<Vec<u8>>)
        ensures
            r is None <==> old(self).offset >= old(self).end,
            r is None ==> *final(self) == *old(self),
            r matches Some(chunk) ==> {
                &&& 1 <= chunk@.len() <= CHUNK
                &&& chunk@ + final(self).rest() == old(self).rest()
                &&& final(self).end == old(self).end
                &&& final(self).offset == old(self).offset + chunk@.len()
                &&& chunk@.len() == CHUNK || final(self).offset == final(self).end
            },
    {
        if self.offset >= self.end {
            return None;
        }
        let chunk: Vec<u8> = pattern_chunk(0, self.offset, self.end);
        self.offset = self.offset + chunk.len();
        assert(chunk@ + self.rest() =~= old(self).rest());
        Some(chunk)
    }

    /// Whether everything has been emitted.
    pub fn is_end_stream(&self) -> (r: bool)
        ensures
            r == (self.rest().len() == 0),
    {
        self.offset >= self.end
    }

    /// How many bytes are still to be emitted.
    pub fn remaining(&self) -> (r: usize)
        ensures
            r == self.rest().len(),
    {
        if self.offset >= self.end {
            0
        } else {
            self.end - self.offset
        }
    }
}

/// Every reply with a body to a request that carried a zero-copy header says that
/// zero-copy is declined, however the request ends: answered at once, answered
/// without a write, or answered after a write that may have failed. A zero-copy
/// response is never silent on its outcome. A reply to a request without the header
/// says nothing of it, and neither does one without a body that is decided at once.
pub proof fn law_zero_copy_header_is_answered(
    front: Page,
    method: Seq<char>,
    path: Seq<char>,
    header: Option<Seq<char>>,
    range: Option<Seq<char>>,
    negotiated: bool,
    status: RdmaWriteStatus,
    outcome: WriteOutcome,
)
    ensures
        match planned(front, method, path, header, range, negotiated) {
            ServePlan::Answer(reply) => {
                &&& reply.body !is Empty && header is Some ==> reply.zc == Some(
                    RdmaWriteStatus::Declined,
                )
                &&& header is None ==> reply.zc is None
                &&& reply.body is Empty ==> reply.zc is None
            },
            ServePlan::ZeroCopy { req, base, len, total, partial } => {
                let answered = zero_copy_reply(status, base, len, total, partial);
                let finished = zero_copy_finished(outcome, base, len, total, partial);
                &&& header is Some
                &&& answered.body is Empty && answered.zc == Some(status)
                &&& finished.zc is Some
                &&& finished.body !is Empty <==> outcome !is Written
                &&& finished.body !is Empty ==> finished.zc == Some(RdmaWriteStatus::Declined)
            },
        },
{
}

/// Zero-copy is used only if it negotiated and the header is well formed, and only
/// for a test object or a range of one that is not empty.
pub proof fn law_zero_copy_plan_is_sound(
    front: Page,
    method: Seq<char>,
    path: Seq<char>,
    header: Option<Seq<char>>,
    range: Option<Seq<char>>,
    negotiated: bool,
)
    ensures
        planned(front, method, path, header, range, negotiated) matches ServePlan::ZeroCopy {
            req,
            base,
            len,
            total,
            partial,
        } ==> {
            &&& negotiated && header is Some && RdmaWriteReq::parsed(header->0) == Some(req)
            &&& base + len <= total <= MAX_BODY
            &&& partial ==> len >= 1
            &&& !partial ==> base == 0 && len == total
            &&& target_of(path) == Target::Object(total)
        },
{
    if let Some(rest) = after_prefix(path, "/size/"@) {
        crate::text::lemma_parsed_bounds(rest, 10, usize::MAX as int);
    }
    if range is Some && target_of(path) is Object {
        crate::range::law_range_within_object(range->0, target_of(path)->Object_0);
    }
}

/// A write is reported as complete exactly if it succeeded, and then with exactly
/// the bytes that were written.
pub proof fn law_complete_means_written(
    outcome: WriteOutcome,
    base: usize,
    len: usize,
    total: usize,
    partial: bool,
)
    ensures
        zero_copy_finished(outcome, base, len, total, partial).zc matches Some(
            RdmaWriteStatus::Complete { bytes_written },
        ) ==> outcome == (WriteOutcome::Written { payload_len: bytes_written as usize }),
        outcome matches WriteOutcome::Written { payload_len } ==> zero_copy_finished(
            outcome,
            base,
            len,
            total,
            partial,
        ).zc == Some(RdmaWriteStatus::Complete { bytes_written: payload_len as u64 }),
        outcome !is Written ==> zero_copy_finished(outcome, base, len, total, partial).status == 500,
{
}

/// Whether a text is a plain word or phrase: one line, with visible ends.
pub open spec fn plain_phrase(s: Seq<char>) -> bool {
    &&& s.len() > 0
    &&& crate::http::one_line(s)
    &&& !crate::text::is_space(s[0])
    &&& !crate::text::is_space(s.last())
}

/// A client reads from a response head the status, the reason, the media type, the
/// length and the zero-copy status that the server wrote into it, and that the
/// connection ends with the response.
pub proof fn law_response_head_reads_back(
    status: u16,
    reason: Seq<char>,
    content_type: Seq<char>,
    len: usize,
    zc: Option<RdmaWriteStatus>,
)
    requires
        plain_phrase(reason),
        plain_phrase(content_type),
    ensures
        ({
            let text = written(head_lines(status, reason, content_type, len, zc)) + crlf();
            &&& crate::http::HeadView::of(text) matches Some(head)
            &&& head.start == ("HTTP/1.1"@, digits(status as nat, 10), reason)
            &&& head.content_length() == Some(len as int)
            &&& head.header("Content-Type"@) == Some(content_type)
            &&& head.header("Connection"@) == Some("close"@)
            &&& match head.header(HEADER@) {
                Some(v) => zc is Some && RdmaWriteStatus::parsed(v) == zc,
                None => zc is None,
            }
        }),
{
    let ls = head_lines(status, reason, content_type, len, zc);
    let d = digits(len as nat, 10);
    lemma_head_lines_plain(status, reason, content_type, len, zc);
    crate::http::lemma_written_head(ls);
    lemma_status_line(status, reason);
    lemma_response_fields(status, reason, content_type, len, zc);
    crate::text::law_number_round_trip(len as nat, 10, usize::MAX as int);
    lemma_digits_plain(len as nat);
    crate::text::lemma_trimmed_is(d);
    if let Some(z) = zc {
        crate::zerocopy::law_status_round_trip(z);
    }
}

/// The value of a zero-copy status is a plain phrase.
proof fn lemma_status_value_plain(z: RdmaWriteStatus)
    ensures
        plain_phrase(z.value()),
{
    reveal_strlit("status=complete;bytes_written=");
    reveal_strlit("status=too_large;object_size=");
    reveal_strlit("status=declined");
    match z {
        RdmaWriteStatus::Complete { bytes_written } => {
            let d = digits(bytes_written as nat, 10);
            lemma_digits_plain(bytes_written as nat);
            lemma_concat_one_line("status=complete;bytes_written="@, d);
            assert(z.value()[0] == 's' && z.value().last() == d.last());
        },
        RdmaWriteStatus::TooLarge { object_size } => {
            let d = digits(object_size as nat, 10);
            lemma_digits_plain(object_size as nat);
            lemma_concat_one_line("status=too_large;object_size="@, d);
            assert(z.value()[0] == 's' && z.value().last() == d.last());
        },
        RdmaWriteStatus::Declined => {},
    }
}

/// Digits are a plain word.
pub proof fn lemma_digits_plain(n: nat)
    ensures
        plain_phrase(digits(n, 10)),
        forall|i: int| 0 <= i < digits(n, 10).len() ==> #[trigger] digits(n, 10)[i] != ' ',
{
    crate::text::lemma_digits(n, 10);
    let d = digits(n, 10);
    assert forall|i: int| 0 <= i < d.len() implies #[trigger] d[i] != '\r' && d[i] != ' ' by {
        let c = d[i];
        assert(('0' <= c <= '9') || ('a' <= c <= 'f'));
    }
    let c0 = d[0];
    let c1 = d[d.len() - 1];
    assert(('0' <= c0 <= '9') || ('a' <= c0 <= 'f'));
    assert(('0' <= c1 <= '9') || ('a' <= c1 <= 'f'));
}

proof fn lemma_head_lines_plain(
    status: u16,
    reason: Seq<char>,
    content_type: Seq<char>,
    len: usize,
    zc: Option<RdmaWriteStatus>,
)
    requires
        plain_phrase(reason),
        plain_phrase(content_type),
    ensures
        ({
            let ls = head_lines(status, reason, content_type, len, zc);
            forall|i: int| 0 <= i < ls.len() ==> crate::http::one_line(#[trigger] ls[i]) && ls[i].len()
                > 0
        }),
{
    reveal_strlit("HTTP/1.1 ");
    reveal_strlit(" ");
    reveal_strlit("Content-Type: ");
    reveal_strlit("Content-Length: ");
    reveal_strlit("Connection: close");
    reveal_strlit("X-HORD-RDMA-Write");
    reveal_strlit(": ");
    lemma_digits_plain(status as nat);
    lemma_digits_plain(len as nat);
    let a = "HTTP/1.1 "@ + digits(status as nat, 10);
    lemma_concat_one_line("HTTP/1.1 "@, digits(status as nat, 10));
    lemma_concat_one_line(a, " "@);
    lemma_concat_one_line(a + " "@, reason);
    lemma_concat_one_line("Content-Type: "@, content_type);
    lemma_concat_one_line("Content-Length: "@, digits(len as nat, 10));
    if let Some(z) = zc {
        lemma_status_value_plain(z);
        lemma_concat_one_line(HEADER@, ": "@);
        lemma_concat_one_line(HEADER@ + ": "@, z.value());
    }
}

proof fn lemma_status_line(status: u16, reason: Seq<char>)
    ensures
        crate::http::words("HTTP/1.1 "@ + digits(status as nat, 10) + " "@ + reason) == (
            "HTTP/1.1"@,
            digits(status as nat, 10),
            reason,
        ),
{
    reveal_strlit("HTTP/1.1 ");
    reveal_strlit("HTTP/1.1");
    reveal_strlit(" ");
    let d = digits(status as nat, 10);
    let line = "HTTP/1.1 "@ + d + " "@ + reason;
    let rest = d + seq![' '] + reason;
    assert(line =~= "HTTP/1.1"@ + seq![' '] + rest);
    crate::text::lemma_split_first_is("HTTP/1.1"@, ' ', rest);
    lemma_digits_plain(status as nat);
    crate::text::lemma_split_first_is(d, ' ', reason);
}

proof fn lemma_response_fields(
    status: u16,
    reason: Seq<char>,
    content_type: Seq<char>,
    len: usize,
    zc: Option<RdmaWriteStatus>,
)
    requires
        plain_phrase(content_type),
    ensures
        ({
            let fs = crate::http::fields(
                head_lines(status, reason, content_type, len, zc).drop_first(),
            );
            &&& crate::http::first_field(fs, "Content-Length"@) == Some(digits(len as nat, 10))
            &&& crate::http::first_field(fs, "Content-Type"@) == Some(content_type)
            &&& crate::http::first_field(fs, "Connection"@) == Some("close"@)
            &&& crate::http::first_field(fs, HEADER@) == (match zc {
                Some(z) => Some(z.value()),
                None => None,
            })
        }),
{
    reveal_strlit("Content-Type: ");
    reveal_strlit("Content-Type");
    reveal_strlit("Content-Length: ");
    reveal_strlit("Content-Length");
    reveal_strlit("Connection: close");
    reveal_strlit("Connection");
    reveal_strlit("close");
    reveal_strlit("X-HORD-RDMA-Write");
    reveal_strlit(": ");
    let d = digits(len as nat, 10);
    lemma_digits_plain(len as nat);
    let sep = seq![':', ' '];
    let all = head_lines(status, reason, content_type, len, zc).drop_first();
    let ls = all.take(3);
    let (l0, l1, l2) = (ls[0], ls[1], ls[2]);
    assert(l0 =~= "Content-Type"@ + sep + content_type);
    assert(l1 =~= "Content-Length"@ + sep + d);
    assert(l2 =~= "Connection"@ + sep + "close"@);
    crate::http::lemma_field_line("Content-Type"@, content_type);
    crate::http::lemma_field_line("Content-Length"@, d);
    crate::http::lemma_field_line("Connection"@, "close"@);
    reveal_with_fuel(crate::http::fields, 4);
    assert(ls.drop_last() =~= seq![l0, l1]);
    assert(ls.drop_last().drop_last() =~= seq![l0]);
    assert(ls.drop_last().drop_last().drop_last() =~= seq![]);
    let base = seq![("Content-Type"@, content_type), ("Content-Length"@, d), ("Connection"@, "close"@)];
    assert(crate::http::fields(ls) =~= base);
    let fs = crate::http::fields(all);
    if let Some(z) = zc {
        let v = z.value();
        lemma_status_value_plain(z);
        assert(all.last() =~= HEADER@ + sep + v);
        crate::http::lemma_field_line(HEADER@, v);
        assert(all.drop_last() =~= ls);
        assert(fs =~= base.push((HEADER@, v)));
    } else {
        assert(all =~= ls);
    }
    assert("Content-Type"@.len() == 12 && "Content-Length"@.len() == 14 && "Connection"@.len() == 10
        && HEADER@.len() == 17);
    reveal_with_fuel(crate::http::first_field, 5);
    let f1 = fs.drop_first();
    let f2 = f1.drop_first();
    let f3 = f2.drop_first();
    assert(f1[0] == ("Content-Length"@, d));
    assert(f2[0] == ("Connection"@, "close"@));
    if let Some(z) = zc {
        assert(f3[0] == (HEADER@, z.value()));
    } else {
        assert(f3.len() == 0);
    }
    assert(crate::text::same_text("Content-Length"@, "Content-Length"@));
    assert(crate::text::same_text("Content-Type"@, "Content-Type"@));
    assert(crate::text::same_text("Connection"@, "Connection"@));
    assert(crate::text::same_text(HEADER@, HEADER@));
}

/// A request that is answered at once is answered with the bytes that it asked for.
/// A range is answered with 206, a header that names the bytes that the range stands
/// for, and exactly these bytes of the object; no other answer names a range. One
/// that cannot be had is answered with 416, the size of the object and no bytes. The
/// whole object is answered with 200 and all of its bytes.
pub proof fn law_answer_holds_the_bytes_asked_for(
    front: Page,
    method: Seq<char>,
    path: Seq<char>,
    header: Option<Seq<char>>,
    range: Option<Seq<char>>,
    negotiated: bool,
)
    ensures
        planned(front, method, path, header, range, negotiated) matches ServePlan::Answer(reply)
            ==> {
            &&& reply.status == 206 <==> reply.range is Satisfied
            &&& reply.range matches RangeHeader::Satisfied { start, end, total } ==> {
                &&& target_of(path) == Target::Object(total)
                &&& range matches Some(v) && resolved(v, total) == (RangeSpec::Range { start, end })
                &&& start <= end < total
                &&& reply.body matches ReplyBody::Pattern { start: s, len } && s == start && len
                    == end - start + 1 && pattern(s as int, len as nat) == pattern(
                    0,
                    total as nat,
                ).subrange(start as int, end + 1)
            }
            &&& reply.status == 416 <==> reply.range is Unsatisfied
            &&& reply.range matches RangeHeader::Unsatisfied { size } ==> {
                &&& target_of(path) == Target::Object(size)
                &&& range matches Some(v) && resolved(v, size) is Unsatisfiable
                &&& reply.body is Empty
            }
            &&& reply.body is Pattern && reply.range is Absent ==> {
                &&& reply.status == 200
                &&& reply.body matches ReplyBody::Pattern { start, len } && start == 0
                    && target_of(path) == Target::Object(len)
                &&& range matches Some(v) ==> resolved(v, reply.body->len) is Full
            }
        },
{
    if let Target::Object(n) = target_of(path) {
        if let Some(v) = range {
            crate::range::law_range_within_object(v, n);
            if let RangeSpec::Range { start, end } = resolved(v, n) {
                crate::pattern::law_range_of_pattern(n as nat, start as int, end as int);
            }
        }
    }
}

/// The status code says how a request fared: 405 exactly if it is no GET; else 404
/// for a path that is nothing, 400 for a size that is no number, 413 for one above
/// the limit, and 200, 206 or 416 for the front page and for objects. Nothing but the
/// front page and errors is answered with a text.
pub proof fn law_status_code_fits_the_request(
    front: Page,
    method: Seq<char>,
    path: Seq<char>,
    header: Option<Seq<char>>,
    range: Option<Seq<char>>,
    negotiated: bool,
)
    ensures
        ({
            let plan = planned(front, method, path, header, range, negotiated);
            let get = method == "GET"@;
            &&& plan is ZeroCopy ==> get && target_of(path) is Object
            &&& plan matches ServePlan::Answer(reply) ==> {
                &&& reply.status == 405 <==> !get
                &&& get ==> {
                    &&& reply.status == 404 <==> target_of(path) is Nothing
                    &&& reply.status == 400 <==> target_of(path) is BadSize
                    &&& reply.status == 413 <==> target_of(path) is TooLarge
                    &&& target_of(path) is Object ==> reply.body !is Page && (reply.status == 200
                        || reply.status == 206 || reply.status == 416)
                    &&& target_of(path) is Front ==> reply.status == 200 && reply.body
                        == ReplyBody::Page(front)
                }
                &&& reply.status == 405 ==> reply.body == ReplyBody::Page(Page::OnlyGet)
                &&& reply.status == 404 ==> reply.body == ReplyBody::Page(Page::NotFound)
                &&& reply.status == 400 ==> reply.body == ReplyBody::Page(Page::BadSize)
                &&& reply.status == 413 ==> reply.body == ReplyBody::Page(Page::SizeLimit)
                &&& reply.body is Page ==> reply.range is Absent
            }
        }),
{
}

/// A path names the object of the size that it writes, up to a gibibyte; a larger one
/// is above the limit, and a size that no object can have is no number.
pub proof fn law_path_names_an_object(n: nat)
    ensures
        ({
            let t = target_of("/size/"@ + digits(n, 10));
            &&& n <= 0x4000_0000 ==> (t matches Target::Object(size) && size == n)
            &&& 0x4000_0000 < n <= usize::MAX ==> t is TooLarge
            &&& n > usize::MAX ==> t is BadSize
        }),
{
    reveal_strlit("/");
    reveal_strlit("/size/");
    let d = digits(n, 10);
    let path = "/size/"@ + d;
    crate::text::lemma_digits(n, 10);
    assert(d[0] != '+');
    assert(path.take("/size/"@.len() as int) =~= "/size/"@);
    assert(path.skip("/size/"@.len() as int) =~= d);
    assert("/"@.len() == 1 && path.len() > 6);
}

/// Only a path under `/size/` with a number behind it is an object, only `/` is the
/// front page, and anything else under `/size/` is no number.
pub proof fn law_other_paths_are_nothing(path: Seq<char>)
    ensures
        target_of(path) is Front <==> path == "/"@,
        target_of(path) is Nothing <==> path != "/"@ && !crate::text::begins_with(path, "/size/"@),
        target_of(path) is BadSize ==> crate::text::begins_with(path, "/size/"@),
        target_of(path) is Object || target_of(path) is TooLarge ==> {
            let rest = path.skip("/size/"@.len() as int);
            &&& crate::text::begins_with(path, "/size/"@)
            &&& rest.len() > 0
            &&& crate::text::all_digits(rest, 10) || (rest[0] == '+' && crate::text::all_digits(
                rest.drop_first(),
                10,
            ))
        },
{
    reveal_strlit("/");
    reveal_strlit("/size/");
}

/// The status code of a zero-copy reply agrees with its outcome: it is 413 exactly if
/// the body does not fit; a completed whole object has 200 and names no range, and a
/// completed range has 206 and names exactly the bytes that were asked for. Such a
/// reply carries nothing on the stream.
pub proof fn law_zero_copy_code_agrees(
    status: RdmaWriteStatus,
    base: usize,
    len: usize,
    total: usize,
    partial: bool,
)
    requires
        partial ==> len >= 1 && base + len <= usize::MAX,
    ensures
        ({
            let reply = zero_copy_reply(status, base, len, total, partial);
            &&& reply.zc == Some(status)
            &&& reply.body is Empty
            &&& reply.status == 413 <==> status is TooLarge
            &&& status is Complete && !partial ==> reply.status == 200 && reply.range is Absent
            &&& status is Complete && partial ==> reply.status == 206 && (
            reply.range matches RangeHeader::Satisfied { start, end, total: t } && start == base
                && end - start + 1 == len && t == total)
            &&& status !is Complete ==> reply.range is Absent
            &&& reply.status == 200 || reply.status == 206 || reply.status == 413
            &&& reply.status == 206 ==> partial
        }),
{
}

/// A zero-copy response that was written is a success that reports the bytes written
/// and carries none on the stream; one that was not is an error of the server with a
/// text that says why, and no range.
pub proof fn law_zero_copy_end_agrees(
    outcome: WriteOutcome,
    base: usize,
    len: usize,
    total: usize,
    partial: bool,
)
    requires
        partial ==> len >= 1 && base + len <= usize::MAX,
    ensures
        ({
            let reply = zero_copy_finished(outcome, base, len, total, partial);
            match outcome {
                WriteOutcome::Written { payload_len } => {
                    &&& partial ==> reply.status == 206
                    &&& !partial ==> reply.status == 200
                    &&& reply.body is Empty
                    &&& reply.zc matches Some(RdmaWriteStatus::Complete { bytes_written })
                        && bytes_written == payload_len
                    &&& partial ==> (reply.range matches RangeHeader::Satisfied {
                        start,
                        end,
                        total: t,
                    } && start == base && end - start + 1 == len && t == total)
                    &&& !partial ==> reply.range is Absent
                },
                _ => {
                    &&& reply.status == 500
                    &&& reply.body is Page
                    &&& reply.body == ReplyBody::Page(Page::InternalError) <==> outcome is NoSource
                    &&& reply.body == ReplyBody::Page(Page::WriteFailed) <==> outcome is Failed
                    &&& reply.range is Absent
                    &&& reply.zc == Some(RdmaWriteStatus::Declined)
                },
            }
        }),
{
}

/// A zero-copy response writes the bytes that were asked for: all of the object, or
/// exactly those that the range stands for. Where zero-copy counts, an object that
/// can be had is never sent on the stream.
pub proof fn law_zero_copy_plan_holds_the_bytes_asked_for(
    front: Page,
    path: Seq<char>,
    header: Seq<char>,
    range: Option<Seq<char>>,
)
    requires
        RdmaWriteReq::parsed(header) is Some,
        target_of(path) is Object,
    ensures
        ({
            let n = target_of(path)->Object_0;
            let plan = planned(front, "GET"@, path, Some(header), range, true);
            let refused = (range matches Some(v) && resolved(v, n) is Unsatisfiable);
            &&& plan is Answer <==> refused
            &&& plan matches ServePlan::ZeroCopy { req, base, len, total, partial } ==> {
                &&& Some(req) == RdmaWriteReq::parsed(header)
                &&& total == n
                &&& partial <==> (range matches Some(v) && resolved(v, n) is Range)
                &&& partial ==> (resolved(range->0, n) matches RangeSpec::Range { start, end }
                    && base == start && base + len == end + 1)
                &&& !partial ==> base == 0 && len == n
            }
        }),
{
    if let Some(v) = range {
        crate::range::law_range_within_object(v, target_of(path)->Object_0);
    }
}

/// Different status codes of the blocking server have different reason phrases.
pub proof fn law_reasons_differ(a: u16, b: u16)
    requires
        is_status(a),
        is_status(b),
        a != b,
    ensures
        reason_of(a) != reason_of(b),
{
    reveal_strlit("OK");
    reveal_strlit("Bad Request");
    reveal_strlit("Not Found");
    reveal_strlit("Method Not Allowed");
    reveal_strlit("Content Too Large");
    reveal_strlit("Internal Server Error");
    assert("OK"@.len() == 2 && "Bad Request"@.len() == 11 && "Not Found"@.len() == 9
        && "Method Not Allowed"@.len() == 18 && "Content Too Large"@.len() == 17
        && "Internal Server Error"@.len() == 21);
}

/// A pattern body emits the whole object, or the range of it that it was made for.
pub proof fn law_pattern_body_emits_its_range(total: usize, start: usize, len: usize)
    requires
        start + len <= total,
    ensures
        (PatternBody { offset: 0, end: total }).rest() == pattern(0, total as nat),
        (PatternBody { offset: start, end: (start + len) as usize }).rest() == pattern(
            0,
            total as nat,
        ).subrange(start as int, start + len),
{
    assert((PatternBody { offset: 0, end: total }).rest() =~= pattern(0, total as nat));
    assert((PatternBody { offset: start, end: (start + len) as usize }).rest() =~= pattern(
        0,
        total as nat,
    ).subrange(start as int, start + len));
}

/// A zero-copy response of `len` bytes that fits the client's buffer is written, all
/// of it and no more; one that does not is refused with its length, 413 and no bytes.
/// An empty one is a success without a write, unless its identifier has to be
/// delivered.
pub proof fn law_zero_copy_writes_the_length_asked_for(
    req: RdmaWriteReq,
    base: usize,
    len: usize,
    total: usize,
    partial: bool,
    split_negotiated: bool,
)
    requires
        partial ==> len >= 1 && base + len <= usize::MAX,
    ensures
        ({
            let step = zero_copy_begun(req, base, len, total, partial, split_negotiated);
            let identified = split_negotiated && req.id is Some;
            &&& step is Write <==> len <= req.len && (len > 0 || identified)
            &&& step matches ZeroCopyStep::Write { payload_len, source_len, transfer_id } ==> {
                &&& payload_len == len
                &&& len > 0 ==> source_len == len
                &&& len == 0 ==> source_len == 1
                &&& transfer_id is Some <==> identified
                &&& identified ==> transfer_id == req.id
            }
            &&& step matches ZeroCopyStep::Answer(reply) ==> {
                &&& reply.body is Empty
                &&& len > req.len ==> reply.status == 413 && reply.range is Absent && (
                reply.zc matches Some(RdmaWriteStatus::TooLarge { object_size }) && object_size
                    == len)
                &&& len <= req.len ==> reply.status == 200 && len == 0 && (reply.zc matches Some(
                    RdmaWriteStatus::Complete { bytes_written },
                ) && bytes_written == 0)
            }
        }),
{
}

/// Whatever the blocking server answers has a reason phrase of its own, and the phrase
/// says how the request fared.
pub proof fn law_every_answer_has_a_reason(
    method: Seq<char>,
    path: Seq<char>,
    header: Option<Seq<char>>,
    negotiated: bool,
    outcome: WriteOutcome,
    req: RdmaWriteReq,
    len: usize,
    split_negotiated: bool,
)
    ensures
        planned(Page::Greeting, method, path, header, None, negotiated) matches ServePlan::Answer(
            reply,
        ) ==> {
            &&& is_status(reply.status)
            &&& reason_of(reply.status) == "Method Not Allowed"@ <==> method != "GET"@
            &&& reason_of(reply.status) == "Not Found"@ <==> method == "GET"@ && target_of(
                path,
            ) is Nothing
            &&& reason_of(reply.status) == "Bad Request"@ <==> method == "GET"@ && target_of(
                path,
            ) is BadSize
            &&& reason_of(reply.status) == "Content Too Large"@ <==> method == "GET"@ && target_of(
                path,
            ) is TooLarge
            &&& reason_of(reply.status) == "OK"@ <==> method == "GET"@ && (target_of(path) is Front
                || target_of(path) is Object)
        },
        ({
            let reply = zero_copy_finished(outcome, 0, len, len, false);
            &&& is_status(reply.status)
            &&& reason_of(reply.status) == "OK"@ <==> outcome is Written
            &&& reason_of(reply.status) == "Internal Server Error"@ <==> outcome !is Written
        }),
        zero_copy_begun(req, 0, len, len, false, split_negotiated) matches ZeroCopyStep::Answer(
            reply,
        ) ==> {
            &&& is_status(reply.status)
            &&& reason_of(reply.status) == "Content Too Large"@ <==> len > req.len
            &&& reason_of(reply.status) == "OK"@ <==> len <= req.len
        },
{
    reveal_strlit("OK");
    reveal_strlit("Bad Request");
    reveal_strlit("Not Found");
    reveal_strlit("Method Not Allowed");
    reveal_strlit("Content Too Large");
    reveal_strlit("Internal Server Error");
    assert("OK"@.len() == 2 && "Bad Request"@.len() == 11 && "Not Found"@.len() == 9
        && "Method Not Allowed"@.len() == 18 && "Content Too Large"@.len() == 17
        && "Internal Server Error"@.len() == 21);
}

/// The `Content-Range` of a reply reads back as the range that is sent, that of a range
/// past the end as none, and a whole object has no such header.
pub proof fn law_content_range_says_what_is_sent(start: usize, end: usize, total: usize)
    requires
        start <= end < total,
    ensures
        RangeHeader::Absent.value() is None,
        (RangeHeader::Satisfied { start, end, total }).value() matches Some(v)
            && crate::range::content_range_of(v) == Some((start, end, total)),
        (RangeHeader::Unsatisfied { size: total }).value() == Some(
            "bytes */"@ + digits(total as nat, 10),
        ),
{
    crate::range::law_content_range_round_trip(start, end, total);
}

} // verus!
