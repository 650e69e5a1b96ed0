//! Message heads and bodies, and the demonstration server and client.

use hord::client::{
    capacity, delivery, offer, request_text, verify_collected, Delivery, Offer, ResponseError,
    DEFAULT_ZC_BUF,
};
use hord::http::{
    find_double_crlf, BodyReader, Head, HeadReader, HeadStep, HttpError, BODY_CHUNK, MAX_HEAD_BYTES,
};
use hord::pattern::{pattern_byte, Mismatch, CHUNK};
use hord::server::{
    begin_zero_copy, finish_zero_copy, reason, response_head, serve, serve_one, Page, PatternBody,
    RangeHeader, Reply, ReplyBody, ServePlan, WriteOutcome, ZeroCopyStep, MAX_BODY,
};
use hord::zerocopy::{RdmaWriteReq, RdmaWriteStatus, HEADER};

#[test]
fn head_reader_finds_the_end_of_the_head() {
    assert_eq!(find_double_crlf(b"a\r\n\r\nb"), Some(1));
    assert_eq!(find_double_crlf(b"a\r\n\r"), None);
    assert_eq!(find_double_crlf(b""), None);
    assert_eq!(find_double_crlf(b"\r\n\r\n\r\n"), Some(0));

    let mut r = HeadReader::new();
    assert_eq!(r.step(), HeadStep::ReadMore);
    r.feed(b"GET / HTTP/1.1\r\n").unwrap();
    assert_eq!(r.step(), HeadStep::ReadMore);
    r.feed(b"\r\nbody").unwrap();
    assert_eq!(r.step(), HeadStep::Complete { body_start: 18 });
    let (head, rest) = r.finish(18);
    assert_eq!(head, b"GET / HTTP/1.1\r\n\r\n");
    assert_eq!(rest, b"body");
}

#[test]
fn head_reader_gives_up() {
    let mut r = HeadReader::new();
    r.feed(&vec![b'x'; MAX_HEAD_BYTES]).unwrap();
    assert_eq!(r.step(), HeadStep::ReadMore);
    assert_eq!(r.feed(b""), Err(HttpError::ClosedInHead));
    r.feed(b"y").unwrap();
    assert_eq!(r.step(), HeadStep::TooLarge);
}

#[test]
fn head_of_the_greatest_length_is_the_last_accepted() {
    let head = |len: usize| {
        let mut bytes = vec![b'x'; len - 4];
        bytes.extend_from_slice(b"\r\n\r\n");
        bytes
    };
    let mut r = HeadReader::new();
    r.feed(&head(MAX_HEAD_BYTES)).unwrap();
    r.feed(b"body").unwrap();
    assert_eq!(r.step(), HeadStep::Complete { body_start: MAX_HEAD_BYTES });
    assert_eq!(r.finish(MAX_HEAD_BYTES).1, b"body");
    // One byte more is refused, though its end has been read.
    let mut r = HeadReader::new();
    r.feed(&head(MAX_HEAD_BYTES + 1)).unwrap();
    assert_eq!(r.step(), HeadStep::TooLarge);
}

#[test]
fn body_reader_reads_exactly_what_is_missing() {
    let mut r = BodyReader::new(b"ab".to_vec(), 5);
    assert_eq!(r.want(), 3);
    r.feed(b"c").unwrap();
    assert_eq!(r.want(), 2);
    assert_eq!(r.feed(b""), Err(HttpError::ClosedInBody { got: 3, total: 5 }));
    r.feed(b"de").unwrap();
    assert_eq!(r.want(), 0);
    assert_eq!(r.finish(), b"abcde");
    assert_eq!(BodyReader::new(Vec::new(), 5 * BODY_CHUNK).want(), BODY_CHUNK);
    // What was read past the end of the body is not part of it.
    let long = BodyReader::new(b"abcdef".to_vec(), 4);
    assert_eq!(long.want(), 0);
    assert_eq!(long.finish(), b"abcd");
    assert_eq!(BodyReader::new(b"abcdef".to_vec(), 0).finish(), b"");
    assert_eq!(BodyReader::new(b"ab".to_vec(), 4).finish(), b"ab");
}

#[test]
fn head_parses() {
    let h = Head::parse(
        b"HTTP/1.1 404 Not Found\r\nContent-Length: 12 \r\nno colon\r\nx-a:b:c\r\nX-A: d\r\n\r\n",
    )
    .unwrap();
    assert_eq!(h.start.0, "HTTP/1.1");
    assert_eq!(h.start.1, "404");
    assert_eq!(h.start.2, "Not Found");
    assert_eq!(h.headers.len(), 3);
    assert_eq!(h.header("CONTENT-length"), Some("12"));
    assert_eq!(h.header("X-A"), Some("b:c"));
    assert_eq!(h.header("absent"), None);
    assert_eq!(h.content_length(), Some(12));

    let h = Head::parse(b"\r\nGET\r\nContent-Length: many\r\n").unwrap();
    assert_eq!((h.start.0.as_str(), h.start.1.as_str(), h.start.2.as_str()), ("GET", "", ""));
    assert_eq!(h.content_length(), None);

    assert!(matches!(Head::parse(b"\r\n\r\n"), Err(HttpError::EmptyHead)));
    assert!(matches!(Head::parse(b""), Err(HttpError::EmptyHead)));
}

#[test]
fn head_bytes_that_are_not_text_are_replaced() {
    let h = Head::parse(b"GET /\xFF HTTP/1.1\r\nh: \xC3\xA9\xE2\x82\r\n\r\n").unwrap();
    assert_eq!(h.start.1, "/\u{FFFD}");
    assert_eq!(h.header("H"), Some("\u{e9}\u{FFFD}"));
}

#[test]
fn blocking_server_routes() {
    let page = |status, page| {
        ServePlan::Answer(Reply {
            status,
            body: ReplyBody::Page(page),
            zc: None,
            range: RangeHeader::Absent,
        })
    };
    let one = |method, path| serve_one(method, path, None, true);
    assert_eq!(one("POST", "/"), page(405, Page::OnlyGet));
    assert_eq!(one("GET", "/"), page(200, Page::Greeting));
    assert_eq!(one("GET", "/size/x"), page(400, Page::BadSize));
    assert_eq!(one("GET", "/size/1073741825"), page(413, Page::SizeLimit));
    assert_eq!(one("GET", "/nothing"), page(404, Page::NotFound));
    let object = Reply {
        status: 200,
        body: ReplyBody::Pattern { start: 0, len: MAX_BODY },
        zc: None,
        range: RangeHeader::Absent,
    };
    assert_eq!(one("GET", "/size/1073741824"), ServePlan::Answer(object));
    assert_eq!(object.content_type(), "application/octet-stream");
    assert_eq!(Page::NotFound.text(), "not found\n");
    assert_eq!(reason(405), "Method Not Allowed");
    assert_eq!(reason(413), "Content Too Large");
    assert_eq!(reason(500), "Internal Server Error");
}

#[test]
fn blocking_server_writes_into_the_clients_buffer() {
    let v = zc_header().header_value();
    assert_eq!(
        serve_one("GET", "/size/64", Some(&v), true),
        ServePlan::ZeroCopy { req: zc_header(), base: 0, len: 64, total: 64, partial: false }
    );
    match serve_one("GET", "/size/64", Some(&v), false) {
        ServePlan::Answer(r) => {
            assert_eq!(r.body, ReplyBody::Pattern { start: 0, len: 64 });
            assert_eq!(r.zc, Some(RdmaWriteStatus::Declined));
        }
        other => panic!("{other:?}"),
    }
}

#[test]
fn response_head_reads_back() {
    let text = response_head(200, "OK", "text/plain", 5, None);
    assert_eq!(
        text,
        "HTTP/1.1 200 OK\r\nContent-Type: text/plain\r\nContent-Length: 5\r\nConnection: close\r\n\r\n"
    );
    let h = Head::parse(text.as_bytes()).unwrap();
    assert_eq!(h.start.1, "200");
    assert_eq!(h.start.2, "OK");
    assert_eq!(h.content_length(), Some(5));
    assert_eq!(h.header("content-type"), Some("text/plain"));
    assert_eq!(h.header(HEADER), None);
    let status = RdmaWriteStatus::Complete { bytes_written: 64 };
    let h = Head::parse(
        response_head(200, "OK", "application/octet-stream", 0, Some(status)).as_bytes(),
    )
    .unwrap();
    assert_eq!(h.content_length(), Some(0));
    assert_eq!(RdmaWriteStatus::parse(h.header(HEADER).unwrap()), Some(status));
}

fn zc_header() -> RdmaWriteReq {
    RdmaWriteReq { addr: 4096, rkey: 7, len: 1000, id: None }
}

#[test]
fn async_server_plans() {
    let v = zc_header().header_value();
    let plain = serve("GET", "/size/100", None, None, true);
    assert_eq!(
        plain,
        ServePlan::Answer(Reply {
            status: 200,
            body: ReplyBody::Pattern { start: 0, len: 100 },
            zc: None,
            range: RangeHeader::Absent,
        })
    );
    assert_eq!(
        serve("GET", "/size/100", Some(&v), None, true),
        ServePlan::ZeroCopy { req: zc_header(), base: 0, len: 100, total: 100, partial: false }
    );
    assert_eq!(
        serve("GET", "/size/100", Some(&v), Some("bytes=10-19"), true),
        ServePlan::ZeroCopy { req: zc_header(), base: 10, len: 10, total: 100, partial: true }
    );
    // Not negotiated, or malformed: the body goes on the stream and zero-copy is declined.
    for (header, negotiated) in [(v.as_str(), false), ("rubbish", true)] {
        assert_eq!(
            serve("GET", "/size/100", Some(header), Some("bytes=10-19"), negotiated),
            ServePlan::Answer(Reply {
                status: 206,
                body: ReplyBody::Pattern { start: 10, len: 10 },
                zc: Some(RdmaWriteStatus::Declined),
                range: RangeHeader::Satisfied { start: 10, end: 19, total: 100 },
            })
        );
    }
    assert_eq!(
        serve("GET", "/size/100", Some(&v), Some("bytes=100-"), true),
        ServePlan::Answer(Reply {
            status: 416,
            body: ReplyBody::Empty,
            zc: None,
            range: RangeHeader::Unsatisfied { size: 100 },
        })
    );
    for (method, path, status) in
        [("PUT", "/", 405), ("GET", "/", 200), ("GET", "/x", 404), ("GET", "/size/-", 400)]
    {
        match serve(method, path, Some(&v), None, true) {
            ServePlan::Answer(r) => {
                assert_eq!((r.status, r.zc), (status, Some(RdmaWriteStatus::Declined)))
            }
            other => panic!("{other:?}"),
        }
    }
    assert_eq!(
        RangeHeader::Satisfied { start: 10, end: 19, total: 100 }.header_value().unwrap(),
        "bytes 10-19/100"
    );
    assert_eq!(RangeHeader::Unsatisfied { size: 100 }.header_value().unwrap(), "bytes */100");
    assert_eq!(RangeHeader::Absent.header_value(), None);
}

#[test]
fn zero_copy_replies() {
    let req = zc_header();
    assert_eq!(
        begin_zero_copy(&req, 10, 20, 100, true, false),
        ZeroCopyStep::Write { payload_len: 20, source_len: 20, transfer_id: None }
    );
    match begin_zero_copy(&req, 0, 2000, 2000, false, false) {
        ZeroCopyStep::Answer(r) => {
            assert_eq!(r.status, 413);
            assert_eq!(r.zc, Some(RdmaWriteStatus::TooLarge { object_size: 2000 }));
        }
        other => panic!("{other:?}"),
    }
    let done = finish_zero_copy(WriteOutcome::Written { payload_len: 20 }, 10, 20, 100, true);
    assert_eq!(done.status, 206);
    assert_eq!(done.zc, Some(RdmaWriteStatus::Complete { bytes_written: 20 }));
    assert_eq!(done.range, RangeHeader::Satisfied { start: 10, end: 29, total: 100 });
    assert_eq!(done.body, ReplyBody::Empty);
    for (outcome, page) in
        [(WriteOutcome::NoSource, Page::InternalError), (WriteOutcome::Failed, Page::WriteFailed)]
    {
        let failed = finish_zero_copy(outcome, 0, 20, 20, false);
        assert_eq!((failed.status, failed.zc), (500, Some(RdmaWriteStatus::Declined)));
        assert_eq!(failed.body, ReplyBody::Page(page));
    }
}

#[test]
fn pattern_body_emits_the_object() {
    let mut b = PatternBody::range(5, CHUNK + 3);
    assert_eq!(b.remaining(), CHUNK + 3);
    let first = b.next_frame().unwrap();
    assert_eq!(first.len(), CHUNK);
    assert_eq!(first[0], pattern_byte(5));
    assert!(!b.is_end_stream());
    let last = b.next_frame().unwrap();
    assert_eq!(last, vec![pattern_byte(5 + CHUNK), pattern_byte(6 + CHUNK), pattern_byte(7 + CHUNK)]);
    assert!(b.is_end_stream());
    assert_eq!(b.next_frame(), None);
    assert_eq!(b.remaining(), 0);
    assert!(PatternBody::new(0).is_end_stream());
}

#[test]
fn client_offers_and_asks() {
    assert_eq!(capacity(Some(5), "/size/9"), 5);
    assert_eq!(capacity(None, "/size/9"), 9);
    assert_eq!(capacity(None, "/"), DEFAULT_ZC_BUF);
    assert_eq!(offer(false, true, 9), Offer::NotAsked);
    assert_eq!(offer(true, false, 9), Offer::NotNegotiated);
    assert_eq!(offer(true, true, 0), Offer::EmptyBuffer);
    assert_eq!(offer(true, true, 9), Offer::Advertise { capacity: 9 });
    assert_eq!(
        request_text("/size/9", "10.0.0.1", None),
        "GET /size/9 HTTP/1.1\r\nHost: 10.0.0.1\r\nUser-Agent: hord-client/0.1\r\nConnection: close\r\n\r\n"
    );
    let text = request_text("/size/9", "10.0.0.1", Some(zc_header()));
    let h = Head::parse(text.as_bytes()).unwrap();
    assert_eq!(h.start.0, "GET");
    assert_eq!(h.start.1, "/size/9");
    assert_eq!(
        RdmaWriteReq::parse(h.header("x-hord-rdma-write").unwrap()),
        Some(zc_header())
    );
}

fn head(fields: &str) -> Head {
    Head::parse(format!("HTTP/1.1 200 OK\r\n{fields}\r\n").as_bytes()).unwrap()
}

#[test]
fn client_reads_how_the_body_comes() {
    let complete = head("X-HORD-RDMA-Write: status=complete;bytes_written=10\r\nContent-Length: 0\r\n");
    assert_eq!(delivery(&complete, Some(10)), Ok(Delivery::ZeroCopy { len: 10 }));
    assert_eq!(
        delivery(&complete, Some(9)),
        Err(ResponseError::Overrun { reported: 10, capacity: 9 })
    );
    assert_eq!(delivery(&complete, None), Ok(Delivery::Stream { content_length: 0 }));
    let large = head("X-HORD-RDMA-Write: status=too_large;object_size=99\r\nContent-Length: 99\r\n");
    assert_eq!(delivery(&large, Some(10)), Ok(Delivery::Stream { content_length: 99 }));
    let bare = head("X-HORD-RDMA-Write: status=too_large;object_size=99\r\n");
    assert_eq!(delivery(&bare, Some(10)), Err(ResponseError::NoContentLength));
    let declined = head("X-HORD-RDMA-Write: status=declined\r\nContent-Length: 4\r\n");
    assert_eq!(delivery(&declined, Some(10)), Ok(Delivery::Stream { content_length: 4 }));
    assert_eq!(delivery(&head(""), Some(10)), Err(ResponseError::NoContentLength));
}

#[test]
fn client_checks_collected_bodies() {
    assert_eq!(verify_collected(&[0, 1, 2], 200, "/size/3"), Ok(true));
    assert_eq!(verify_collected(&[0, 1, 2], 404, "/size/3"), Ok(false));
    assert_eq!(verify_collected(&[9], 200, "/"), Ok(false));
    assert_eq!(
        verify_collected(&[0, 7], 200, "/size/2"),
        Err(Mismatch { at: 1, got: 7, want: 1 })
    );
}
