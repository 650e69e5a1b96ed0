//! What the demonstration client asks for and makes of the answer.

use vstd::prelude::*;
use crate::http::{
    crlf, fields, first_field, lemma_concat_one_line, lemma_field_line, lemma_written_head,
    one_line, words, written, Head, HeadView,
};
use crate::pattern::{check_pattern, first_mismatch, pattern, size_from_path, size_in_path, Mismatch};
use crate::server::{lemma_digits_plain, plain_phrase};
use crate::text::{
    begins_with, chars_of, digits, lemma_digits, lemma_split_first_is, strip_prefix,
};
use crate::zerocopy::{law_request_round_trip, RdmaWriteReq, RdmaWriteStatus, HEADER};

verus! {

/// Destination capacity when neither the command line nor the path gives one.
pub const DEFAULT_ZC_BUF: usize = 0x10_0000;

/// The destination capacity: the one asked for, else the size in the path, else
/// the default.
pub open spec fn chosen_capacity(asked: Option<usize>, path: Seq<char>) -> int {
    match asked {
        Some(n) => n as int,
        None => match size_in_path(path) {
            Some(n) => n,
            None => DEFAULT_ZC_BUF as int,
        },
    }
}

/// Chooses the destination capacity.
pub fn capacity(asked: Option<usize>, path: &str) -> (r: usize)
    ensures
        r == chosen_capacity(asked, path@),
{
    match asked {
        Some(n) => n,
        None => match size_from_path(path) {
            Some(n) => n,
            None => DEFAULT_ZC_BUF,
        },
    }
}

/// Whether a zero-copy response is asked for.
#[derive(Debug, Clone, Copy, PartialEq, Eq, Structural)]
pub enum Offer {
    /// Not wished.
    NotAsked,
    /// Wished, but the peer did not negotiate it.
    NotNegotiated,
    /// Wished, but the buffer would be empty.
    EmptyBuffer,
    /// Advertise a buffer of this size.
    Advertise {
        /// Its capacity.
        capacity: usize,
    },
}

/// Whether a zero-copy response is asked for.
pub open spec fn offered(zero_copy: bool, negotiated: bool, capacity: usize) -> Offer {
    if !zero_copy {
        Offer::NotAsked
    } else if !negotiated {
        Offer::NotNegotiated
    } else if capacity == 0 {
        Offer::EmptyBuffer
    } else {
        Offer::Advertise { capacity }
    }
}

/// Decides whether a zero-copy response is asked for. An empty buffer is never
/// advertised.
pub fn offer(zero_copy: bool, negotiated: bool, capacity: usize) -> (r: Offer)
    ensures
        r == offered(zero_copy, negotiated, capacity),
{
    if !zero_copy {
        Offer::NotAsked
    } else if !negotiated {
        Offer::NotNegotiated
    } else if capacity == 0 {
        Offer::EmptyBuffer
    } else {
        Offer::Advertise { capacity }
    }
}

/// The lines of a request.
pub open spec fn request_lines(path: Seq<char>, server: Seq<char>, req: Option<RdmaWriteReq>) -> Seq<
    Seq<char>,
> {
    let base = seq![
        "GET "@ + path + " HTTP/1.1"@,
        "Host: "@ + server,
        "User-Agent: hord-client/0.1"@,
        "Connection: close"@,
    ];
    match req {
        Some(q) => base.push(HEADER@ + ": "@ + q.value()),
        None => base,
    }
}

/// Writes a request, with a zero-copy header if a buffer is advertised.
pub fn request_text(path: &str, server: &str, req: Option<RdmaWriteReq>) -> (r: String)
    ensures
        r@ == written(request_lines(path@, server@, req)) + crlf(),
{
    let mut s: String = String::new();
    s.append("GET ");
    s.append(path);
    s.append(" HTTP/1.1");
    s.append("\r\n");
    s.append("Host: ");
    s.append(server);
    s.append("\r\n");
    s.append("User-Agent: hord-client/0.1");
    s.append("\r\n");
    s.append("Connection: close");
    s.append("\r\n");
    if let Some(q) = req {
        let line: String = q.header_line();
        s.append(line.as_str());
        s.append("\r\n");
    }
    s.append("\r\n");
    proof {
        reveal_strlit("\r\n");
        assert("\r\n"@ =~= crlf());
        let ls = request_lines(path@, server@, req);
        reveal_with_fuel(written, 6);
        let l1 = ls.drop_first();
        let l2 = l1.drop_first();
        let l3 = l2.drop_first();
        let l4 = l3.drop_first();
        if req is Some {
            assert(l4.drop_first().len() == 0);
            assert(written(l4) =~= ls[4] + crlf());
        } else {
            assert(l4.len() == 0);
        }
        assert(written(l3) =~= ls[3] + crlf() + written(l4));
        assert(written(l2) =~= ls[2] + crlf() + written(l3));
        assert(written(l1) =~= ls[1] + crlf() + written(l2));
        assert(s@ =~= written(ls) + crlf());
    }
    s
}

/// How the body of a response reaches the client.
#[derive(Debug, Clone, Copy, PartialEq, Eq, Structural)]
pub enum Delivery {
    /// These many bytes are in the advertised buffer.
    ZeroCopy {
        /// Number of bytes.
        len: usize,
    },
    /// It follows on the stream.
    Stream {
        /// Number of bytes.
        content_length: usize,
    },
}

/// Why a response is refused.
#[derive(Debug, Clone, Copy, PartialEq, Eq, Structural)]
pub enum ResponseError {
    /// The server reports more bytes than the buffer holds.
    Overrun {
        /// Bytes reported.
        reported: usize,
        /// Capacity of the buffer.
        capacity: usize,
    },
    /// A stream body without `Content-Length`.
    NoContentLength,
}

/// How the body of a response reaches a client that advertised a buffer of the
/// given capacity, or none. Only a completed write puts it into the buffer; with
/// any other status, or none, it follows on the stream. A status counts only if a
/// buffer was advertised, and is believed only as far as the buffer goes.
pub open spec fn delivered_by(head: HeadView, capacity: Option<usize>) -> Result<
    Delivery,
    ResponseError,
> {
    let status = match (capacity, head.header(HEADER@)) {
        (Some(_), Some(v)) => RdmaWriteStatus::parsed(v),
        _ => None,
    };
    match status {
        Some(RdmaWriteStatus::Complete { bytes_written }) => {
            let n = bytes_written as usize;
            if n > capacity->0 {
                Err(ResponseError::Overrun { reported: n, capacity: capacity->0 })
            } else {
                Ok(Delivery::ZeroCopy { len: n })
            }
        },
        _ => match head.content_length() {
            Some(n) => Ok(Delivery::Stream { content_length: n as usize }),
            None => Err(ResponseError::NoContentLength),
        },
    }
}

/// Decides how the body of a response reaches the client.
pub fn delivery(head: &Head, capacity: Option<usize>) -> (r: Result<Delivery, ResponseError>)
    ensures
        r == delivered_by(head@, capacity),
{
    if let Some(cap) = capacity {
        if let Some(v) = head.header(HEADER) {
            match RdmaWriteStatus::parse(v) {
                Some(RdmaWriteStatus::Complete { bytes_written }) => {
                    let n: usize = bytes_written as usize;
                    if n > cap {
                        return Err(ResponseError::Overrun { reported: n, capacity: cap });
                    }
                    return Ok(Delivery::ZeroCopy { len: n });
                },
                _ => {},
            }
        }
    }
    match head.content_length() {
        Some(n) => Ok(Delivery::Stream { content_length: n }),
        None => Err(ResponseError::NoContentLength),
    }
}

/// Checks a body that the asynchronous client collected. `Ok(false)` means that
/// there is nothing to check: the response is no success or the path no test
/// object's.
pub fn verify_collected(body: &[u8], status: u16, path: &str) -> (r: Result<bool, Mismatch>)
    ensures
        status != 200 || !begins_with(path@, "/size/"@) ==> r == Ok::<bool, Mismatch>(false),
        status == 200 && begins_with(path@, "/size/"@) ==> match r {
            Ok(b) => b && body@ == pattern(0, body@.len()),
            Err(m) => first_mismatch(body@, 0, m),
        },
{
    let chars: Vec<char> = chars_of(path);
    if status != 200 || strip_prefix(chars.as_slice(), "/size/").is_none() {
        return Ok(false);
    }
    assert(body.len() <= usize::MAX);
    match check_pattern(body, 0) {
        Ok(()) => Ok(true),
        Err(m) => Err(m),
    }
}

/// A client never takes more bytes from its buffer than the buffer holds, whatever
/// the server reports.
pub proof fn law_delivery_stays_in_buffer(head: HeadView, capacity: Option<usize>)
    ensures
        delivered_by(head, capacity) matches Ok(Delivery::ZeroCopy { len }) ==> capacity
            matches Some(cap) && len <= cap,
{
}

/// What a client takes from its buffer is what the server reports to have written
/// there, byte for byte; a report of more than the buffer holds is an overrun.
pub proof fn law_delivery_takes_what_was_written(head: HeadView, capacity: usize, written: u64)
    requires
        head.header(HEADER@) matches Some(v) && RdmaWriteStatus::parsed(v) == Some(
            RdmaWriteStatus::Complete { bytes_written: written },
        ),
    ensures
        written <= capacity ==> (delivered_by(head, Some(capacity)) matches Ok(
            Delivery::ZeroCopy { len },
        ) && len == written),
        capacity < written <= usize::MAX ==> (delivered_by(head, Some(capacity)) matches Err(
            ResponseError::Overrun { reported, capacity: cap },
        ) && reported == written && cap == capacity),
{
}

/// A client falls back to the stream unless the server reports a completed write:
/// a body that was declined, or that does not fit the buffer, is read as if no
/// buffer had been advertised.
pub proof fn law_delivery_falls_back(head: HeadView, capacity: usize)
    ensures
        !(head.header(HEADER@) matches Some(v) && RdmaWriteStatus::parsed(v) matches Some(
            RdmaWriteStatus::Complete { .. },
        )) ==> delivered_by(head, Some(capacity)) == delivered_by(head, None),
        delivered_by(head, None) == (match head.content_length() {
            Some(n) => Ok::<Delivery, ResponseError>(
                Delivery::Stream { content_length: n as usize },
            ),
            None => Err(ResponseError::NoContentLength),
        }),
{
}

/// The value of a zero-copy header is a plain phrase.
proof fn lemma_value_plain(req: RdmaWriteReq)
    ensures
        plain_phrase(req.value()),
{
    reveal_strlit("addr=0x");
    reveal_strlit(";rkey=0x");
    reveal_strlit(";len=");
    reveal_strlit(";id=");
    let (da, dr, dl) = (digits(req.addr as nat, 16), digits(req.rkey as nat, 16), digits(
        req.len as nat,
        10,
    ));
    lemma_hex_one_line(req.addr as nat);
    lemma_hex_one_line(req.rkey as nat);
    lemma_digits_plain(req.len as nat);
    let v1 = "addr=0x"@ + da;
    lemma_concat_one_line("addr=0x"@, da);
    lemma_concat_one_line(v1, ";rkey=0x"@);
    let v2 = v1 + ";rkey=0x"@;
    lemma_concat_one_line(v2, dr);
    let v3 = v2 + dr;
    lemma_concat_one_line(v3, ";len="@);
    let v4 = v3 + ";len="@;
    lemma_concat_one_line(v4, dl);
    let v5 = v4 + dl;
    assert(v5[0] == 'a');
    assert(v5.last() == dl.last());
    if let Some(id) = req.id {
        let di = digits(id as nat, 10);
        lemma_digits_plain(id as nat);
        lemma_concat_one_line(v5, ";id="@);
        let v6 = v5 + ";id="@;
        lemma_concat_one_line(v6, di);
        assert((v6 + di)[0] == 'a');
        assert((v6 + di).last() == di.last());
    }
}

proof fn lemma_hex_one_line(n: nat)
    ensures
        one_line(digits(n, 16)),
{
    lemma_digits(n, 16);
    let d = digits(n, 16);
    assert forall|i: int| 0 <= i < d.len() implies #[trigger] d[i] != '\r' by {
        let c = d[i];
        assert(('0' <= c <= '9') || ('a' <= c <= 'f'));
    }
}

proof fn lemma_request_lines_plain(path: Seq<char>, server: Seq<char>, req: RdmaWriteReq)
    requires
        one_line(path),
        plain_phrase(server),
    ensures
        ({
            let ls = request_lines(path, server, Some(req));
            forall|i: int| 0 <= i < ls.len() ==> one_line(#[trigger] ls[i]) && ls[i].len() > 0
        }),
{
    reveal_strlit("GET ");
    reveal_strlit(" HTTP/1.1");
    reveal_strlit("Host: ");
    reveal_strlit("User-Agent: hord-client/0.1");
    reveal_strlit("Connection: close");
    reveal_strlit("X-HORD-RDMA-Write");
    reveal_strlit(": ");
    lemma_concat_one_line("GET "@, path);
    lemma_concat_one_line("GET "@ + path, " HTTP/1.1"@);
    lemma_concat_one_line("Host: "@, server);
    lemma_value_plain(req);
    lemma_concat_one_line(HEADER@, ": "@);
    lemma_concat_one_line(HEADER@ + ": "@, req.value());
}

proof fn lemma_request_line(path: Seq<char>)
    requires
        forall|i: int| 0 <= i < path.len() ==> #[trigger] path[i] != ' ',
    ensures
        words("GET "@ + path + " HTTP/1.1"@) == ("GET"@, path, "HTTP/1.1"@),
{
    reveal_strlit("GET ");
    reveal_strlit("GET");
    reveal_strlit(" HTTP/1.1");
    reveal_strlit("HTTP/1.1");
    let rest = path + seq![' '] + "HTTP/1.1"@;
    assert("GET "@ + path + " HTTP/1.1"@ =~= "GET"@ + seq![' '] + rest);
    lemma_split_first_is("GET"@, ' ', rest);
    lemma_split_first_is(path, ' ', "HTTP/1.1"@);
}

proof fn lemma_request_fields(path: Seq<char>, server: Seq<char>, req: RdmaWriteReq)
    requires
        plain_phrase(server),
    ensures
        ({
            let fs = fields(request_lines(path, server, Some(req)).drop_first());
            &&& first_field(fs, HEADER@) == Some(req.value())
            &&& first_field(fs, "Host"@) == Some(server)
            &&& first_field(fs, "Connection"@) == Some("close"@)
        }),
{
    reveal_strlit("Host: ");
    reveal_strlit("Host");
    reveal_strlit("User-Agent: hord-client/0.1");
    reveal_strlit("User-Agent");
    reveal_strlit("hord-client/0.1");
    reveal_strlit("Connection: close");
    reveal_strlit("Connection");
    reveal_strlit("close");
    reveal_strlit("X-HORD-RDMA-Write");
    reveal_strlit(": ");
    let sep = seq![':', ' '];
    let v = req.value();
    lemma_value_plain(req);
    let ls = request_lines(path, server, Some(req)).drop_first();
    let (l0, l1, l2, l3) = (ls[0], ls[1], ls[2], ls[3]);
    assert(l0 =~= "Host"@ + sep + server);
    assert(l1 =~= "User-Agent"@ + sep + "hord-client/0.1"@);
    assert(l2 =~= "Connection"@ + sep + "close"@);
    assert(l3 =~= HEADER@ + sep + v);
    lemma_field_line("Host"@, server);
    lemma_field_line("User-Agent"@, "hord-client/0.1"@);
    lemma_field_line("Connection"@, "close"@);
    lemma_field_line(HEADER@, v);
    reveal_with_fuel(fields, 5);
    assert(ls.drop_last() =~= seq![l0, l1, l2]);
    assert(ls.drop_last().drop_last() =~= seq![l0, l1]);
    assert(ls.drop_last().drop_last().drop_last() =~= seq![l0]);
    assert(ls.drop_last().drop_last().drop_last().drop_last() =~= seq![]);
    let fs = fields(ls);
    assert(fs =~= seq![
        ("Host"@, server),
        ("User-Agent"@, "hord-client/0.1"@),
        ("Connection"@, "close"@),
        (HEADER@, v),
    ]);
    assert(HEADER@.len() == 17 && "Host"@.len() == 4 && "User-Agent"@.len() == 10
        && "Connection"@.len() == 10);
    reveal_with_fuel(first_field, 5);
    assert(fs.drop_first()[0] == ("User-Agent"@, "hord-client/0.1"@));
    assert(fs.drop_first().drop_first()[0] == ("Connection"@, "close"@));
    assert(fs.drop_first().drop_first().drop_first()[0] == (HEADER@, v));
    assert(crate::text::same_text(HEADER@, HEADER@));
    assert(crate::text::same_text("Host"@, "Host"@));
    assert(crate::text::same_text("Connection"@, "Connection"@));
    assert("User-Agent"@[0] == 'U' && "Connection"@[0] == 'C');
    assert(!crate::text::same_letter('U', 'C'));
    assert(!crate::text::same_text("User-Agent"@, "Connection"@));
}

/// A server reads from a request the method, the path, the host and the zero-copy
/// request that the client wrote into it, and that the connection ends with the
/// response.
pub proof fn law_request_reads_back(path: Seq<char>, server: Seq<char>, req: RdmaWriteReq)
    requires
        one_line(path),
        forall|i: int| 0 <= i < path.len() ==> #[trigger] path[i] != ' ',
        plain_phrase(server),
    ensures
        ({
            let text = written(request_lines(path, server, Some(req))) + crlf();
            &&& HeadView::of(text) matches Some(head)
            &&& head.start == ("GET"@, path, "HTTP/1.1"@)
            &&& head.header("Host"@) == Some(server)
            &&& head.header("Connection"@) == Some("close"@)
            &&& head.header(HEADER@) matches Some(v)
            &&& RdmaWriteReq::parsed(v) == Some(req)
        }),
{
    let ls = request_lines(path, server, Some(req));
    lemma_request_lines_plain(path, server, req);
    lemma_written_head(ls);
    lemma_request_line(path);
    lemma_request_fields(path, server, req);
    law_request_round_trip(req);
}

/// The destination has the capacity that was asked for; else that of the object that
/// the path names; else a mebibyte.
pub proof fn law_capacity_follows_the_object(path: Seq<char>, asked: usize, n: usize)
    ensures
        chosen_capacity(Some(asked), path) == asked,
        chosen_capacity(None, "/size/"@ + digits(n as nat, 10)) == n,
        !begins_with(path, "/size/"@) ==> chosen_capacity(None, path) == 0x10_0000,
{
    crate::pattern::law_path_names_its_size(n as nat);
}

/// A buffer is advertised exactly if that is wished, negotiated and the buffer holds
/// anything, and then with all it holds.
pub proof fn law_offer_is_made_when_it_can(zero_copy: bool, negotiated: bool, capacity: usize)
    ensures
        offered(zero_copy, negotiated, capacity) is Advertise <==> zero_copy && negotiated
            && capacity > 0,
        offered(zero_copy, negotiated, capacity) matches Offer::Advertise { capacity: c } ==> c
            == capacity,
        !zero_copy ==> offered(zero_copy, negotiated, capacity) is NotAsked,
        zero_copy && !negotiated ==> offered(zero_copy, negotiated, capacity) is NotNegotiated,
{
}

} // verus!
