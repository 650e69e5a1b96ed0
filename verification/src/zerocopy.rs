//! The `X-HORD-RDMA-Write` header and the policy of a server that is asked for a
//! zero-copy response.
//!
//! A client names the memory that may receive the body; a server writes the body
//! there and answers with a status, or declines and sends the body on the stream.

use vstd::prelude::*;
use crate::text::{
    after_prefix, chars_of, digits, equals, is_space, law_number_round_trip,
    law_split_once_is_the_first, lemma_digits, lemma_parsed_bounds, lemma_pieces_append,
    lemma_pieces_cons, lemma_pieces_one, lemma_split_first_is,
    lemma_trimmed_is, parse_number, parsed_number, pieces, push_number, split, split_first,
    split_once, strip_prefix, trim, trimmed,
};

verus! {

/// The name of the header, in requests and responses.
pub const HEADER: &'static str = "X-HORD-RDMA-Write";

/// The parts of a header value that hold anything: those between semicolons,
/// trimmed, without the empty ones.
pub open spec fn parts_of(raw: Seq<Seq<char>>) -> Seq<Seq<char>>
    decreases raw.len(),
{
    if raw.len() == 0 {
        seq![]
    } else {
        let t = trimmed(raw.last());
        if t.len() == 0 {
            parts_of(raw.drop_last())
        } else {
            parts_of(raw.drop_last()).push(t)
        }
    }
}

/// The parts of a header value.
pub open spec fn parts(value: Seq<char>) -> Seq<Seq<char>> {
    parts_of(pieces(value, ';'))
}

/// The key and the value of a part, if it has an equals sign.
pub open spec fn key_value(part: Seq<char>) -> Option<(Seq<char>, Seq<char>)> {
    match split_first(part, '=') {
        Some((k, v)) => Some((trimmed(k), trimmed(v))),
        None => None,
    }
}

/// The value of the last part with the given key.
pub open spec fn last_value(ps: Seq<Seq<char>>, key: Seq<char>) -> Option<Seq<char>>
    decreases ps.len(),
{
    if ps.len() == 0 {
        None
    } else {
        match key_value(ps.last()) {
            Some((k, v)) => if k == key {
                Some(v)
            } else {
                last_value(ps.drop_last(), key)
            },
            None => last_value(ps.drop_last(), key),
        }
    }
}

/// Hexadecimal digits behind an optional `0x` or `0X`.
pub open spec fn hex_body(s: Seq<char>) -> Seq<char> {
    match after_prefix(s, "0x"@) {
        Some(t) => t,
        None => match after_prefix(s, "0X"@) {
            Some(t) => t,
            None => s,
        },
    }
}

/// The hexadecimal number of at most `max` that `s` writes.
pub open spec fn hex_number(s: Seq<char>, max: int) -> Option<int> {
    parsed_number(hex_body(s), 16, max)
}

/// The number that the value of `key` writes in a request header, by the key's
/// own notation and range: `addr` and `rkey` are hexadecimal, `len` and `id`
/// decimal.
pub open spec fn req_number(key: Seq<char>, v: Seq<char>) -> Option<int> {
    if key == "addr"@ {
        hex_number(v, u64::MAX as int)
    } else if key == "rkey"@ {
        hex_number(v, u32::MAX as int)
    } else if key == "len"@ {
        parsed_number(v, 10, u64::MAX as int)
    } else if key == "id"@ {
        parsed_number(v, 10, u32::MAX as int)
    } else {
        Some(0)
    }
}

/// Whether `key` is one that a request header knows.
pub open spec fn req_key(key: Seq<char>) -> bool {
    key == "addr"@ || key == "rkey"@ || key == "len"@ || key == "id"@
}

/// Whether a part of a request header is well formed: the value of a known key
/// writes its number, and no known key stands without a value.
pub open spec fn req_part_ok(part: Seq<char>) -> bool {
    match key_value(part) {
        Some((k, v)) => req_number(k, v) is Some,
        None => !req_key(part),
    }
}

/// Whether no known key of a request header has a malformed value or none.
pub open spec fn req_numbers_ok(ps: Seq<Seq<char>>) -> bool {
    forall|i: int| 0 <= i < ps.len() ==> req_part_ok(#[trigger] ps[i])
}

/// The number under the last `key` of a request header.
pub open spec fn req_last(ps: Seq<Seq<char>>, key: Seq<char>) -> Option<int> {
    match last_value(ps, key) {
        Some(v) => req_number(key, v),
        None => None,
    }
}

/// A client's request for a zero-copy response: the memory that may receive it.
#[derive(Debug, Clone, Copy, PartialEq, Eq)]
pub struct RdmaWriteReq {
    /// First byte of the client's buffer.
    pub addr: u64,
    /// Key that authorises writes into it.
    pub rkey: u32,
    /// Its capacity in bytes.
    pub len: u64,
    /// Transfer identifier, if the client asks for splitting.
    pub id: Option<u32>,
}

fn parse_hex(s: &[char], max: u64) -> (r: Option<u64>)
    ensures
        match r {
            Some(v) => hex_number(s@, max as int) == Some(v as int),
            None => hex_number(s@, max as int) is None,
        },
{
    let body: &[char] = match strip_prefix(s, "0x") {
        Some(t) => t,
        None => match strip_prefix(s, "0X") {
            Some(t) => t,
            None => s,
        },
    };
    parse_number(body, 16, max)
}

proof fn lemma_keys_differ()
    ensures
        "addr"@ != "rkey"@,
        "addr"@ != "len"@,
        "addr"@ != "id"@,
        "rkey"@ != "len"@,
        "rkey"@ != "id"@,
        "len"@ != "id"@,
{
    reveal_strlit("addr");
    reveal_strlit("rkey");
    reveal_strlit("len");
    reveal_strlit("id");
    assert("addr"@[0] != "rkey"@[0]);
    assert("len"@.len() == 3 && "id"@.len() == 2);
}

impl RdmaWriteReq {
    /// What a request header of the given value asks for, or `None`: no known key may
    /// have a malformed value or none, and `addr`, `rkey` and `len` must be there. Of
    /// a repeated key the last counts; unknown parameters are ignored, with or without
    /// a value.
    pub open spec fn parsed(value: Seq<char>) -> Option<RdmaWriteReq> {
        let ps = parts(value);
        if !req_numbers_ok(ps) {
            None
        } else {
            match (req_last(ps, "addr"@), req_last(ps, "rkey"@), req_last(ps, "len"@)) {
                (Some(addr), Some(rkey), Some(len)) => Some(
                    RdmaWriteReq {
                        addr: addr as u64,
                        rkey: rkey as u32,
                        len: len as u64,
                        id: match req_last(ps, "id"@) {
                            Some(id) => Some(id as u32),
                            None => None,
                        },
                    },
                ),
                _ => None,
            }
        }
    }

    /// The header value of the request.
    pub open spec fn value(self) -> Seq<char> {
        let base = "addr=0x"@ + digits(self.addr as nat, 16) + ";rkey=0x"@ + digits(
            self.rkey as nat,
            16,
        ) + ";len="@ + digits(self.len as nat, 10);
        match self.id {
            Some(id) => base + ";id="@ + digits(id as nat, 10),
            None => base,
        }
    }

    /// Parses a header value.
    pub fn parse(value: &str) -> (r: Option<Self>)
        ensures
            r == RdmaWriteReq::parsed(value@),
    {
        let chars: Vec<char> = chars_of(value);
        let raw: Vec<&[char]> = split(chars.as_slice(), ';');
        let ghost all = pieces(value@, ';');
        let mut addr: Option<u64> = None;
        let mut rkey: Option<u64> = None;
        let mut len: Option<u64> = None;
        let mut id: Option<u64> = None;
        let mut i: usize = 0;
        assert(all.take(0) =~= seq![]);
        while i < raw.len()
            invariant
                i <= raw@.len(),
                raw@.len() == all.len(),
                all == pieces(value@, ';'),
                forall|k: int| 0 <= k < raw@.len() ==> (#[trigger] raw@[k])@ == all[k],
                req_numbers_ok(parts_of(all.take(i as int))),
                agrees(addr, req_last(parts_of(all.take(i as int)), "addr"@)),
                agrees(rkey, req_last(parts_of(all.take(i as int)), "rkey"@)),
                agrees(len, req_last(parts_of(all.take(i as int)), "len"@)),
                agrees(id, req_last(parts_of(all.take(i as int)), "id"@)),
                rkey matches Some(x) ==> x <= u32::MAX,
                id matches Some(x) ==> x <= u32::MAX,
            decreases raw@.len() - i,
        {
            let ghost before = parts_of(all.take(i as int));
            let ghost after = parts_of(all.take(i + 1));
            proof {
                assert(all.take(i + 1).drop_last() =~= all.take(i as int));
                lemma_parts_monotone(all, i + 1);
                lemma_keys_differ();
            }
            let part: &[char] = trim(raw[i]);
            i = i + 1;
            if part.len() > 0 {
                assert(after == before.push(part@));
                assert(after.drop_last() =~= before);
                assert(after.last() == part@);
                assert(parts(value@)[before.len() as int] == part@);
                match split_once(part, '=') {
                    None => {
                        assert(key_value(part@) is None);
                        if equals(part, "addr") || equals(part, "rkey") || equals(part, "len")
                            || equals(part, "id") {
                            assert(!req_part_ok(part@));
                            return None;
                        }
                    },
                    Some((kk, vv)) => {
                        let k: &[char] = trim(kk);
                        let v: &[char] = trim(vv);
                        assert(key_value(part@) == Some((k@, v@)));
                        if equals(k, "addr") {
                            match parse_hex(v, u64::MAX) {
                                Some(x) => {
                                    addr = Some(x);
                                },
                                None => {
                                    assert(!req_numbers_ok(parts(value@)));
                                    return None;
                                },
                            }
                        } else if equals(k, "rkey") {
                            match parse_hex(v, u32::MAX as u64) {
                                Some(x) => {
                                    rkey = Some(x);
                                },
                                None => {
                                    assert(!req_numbers_ok(parts(value@)));
                                    return None;
                                },
                            }
                        } else if equals(k, "len") {
                            match parse_number(v, 10, u64::MAX) {
                                Some(x) => {
                                    len = Some(x);
                                },
                                None => {
                                    assert(!req_numbers_ok(parts(value@)));
                                    return None;
                                },
                            }
                        } else if equals(k, "id") {
                            match parse_number(v, 10, u32::MAX as u64) {
                                Some(x) => {
                                    id = Some(x);
                                },
                                None => {
                                    assert(!req_numbers_ok(parts(value@)));
                                    return None;
                                },
                            }
                        }
                    },
                }
                proof {
                    lemma_pushed(before, part@);
                }
            }
        }
        assert(all.take(all.len() as int) =~= all);
        match (addr, rkey, len) {
            (Some(a), Some(k), Some(l)) => Some(
                RdmaWriteReq {
                    addr: a,
                    rkey: k as u32,
                    len: l,
                    id: match id {
                        Some(x) => Some(x as u32),
                        None => None,
                    },
                },
            ),
            _ => None,
        }
    }

    /// The header value: `addr=0x..;rkey=0x..;len=N[;id=N]`.
    pub fn header_value(&self) -> (r: String)
        ensures
            r@ == self.value(),
    {
        let mut s: String = String::new();
        self.push_value(&mut s);
        assert(s@ =~= self.value());
        s
    }

    fn push_value(&self, s: &mut String)
        ensures
            final(s)@ == old(s)@ + self.value(),
    {
        s.append("addr=0x");
        push_number(s, self.addr, 16);
        s.append(";rkey=0x");
        push_number(s, self.rkey as u64, 16);
        s.append(";len=");
        push_number(s, self.len, 10);
        if let Some(id) = self.id {
            s.append(";id=");
            push_number(s, id as u64, 10);
        }
        assert(s@ =~= old(s)@ + self.value());
    }

    /// The whole header line.
    pub fn header_line(&self) -> (r: String)
        ensures
            r@ == HEADER@ + ": "@ + self.value(),
    {
        let mut s: String = String::new();
        s.append(HEADER);
        s.append(": ");
        self.push_value(&mut s);
        assert(s@ =~= HEADER@ + ": "@ + self.value());
        s
    }
}

spec fn agrees(exec: Option<u64>, model: Option<int>) -> bool {
    match (exec, model) {
        (Some(x), Some(y)) => x == y,
        (None, None) => true,
        _ => false,
    }
}

/// The parts of a prefix are a prefix of the parts.
proof fn lemma_parts_monotone(raw: Seq<Seq<char>>, k: int)
    requires
        0 <= k <= raw.len(),
    ensures
        parts_of(raw.take(k)).len() <= parts_of(raw).len(),
        forall|i: int|
            0 <= i < parts_of(raw.take(k)).len() ==> parts_of(raw)[i] == #[trigger] parts_of(
                raw.take(k),
            )[i],
    decreases raw.len() - k,
{
    if k < raw.len() {
        lemma_parts_monotone(raw, k + 1);
        assert(raw.take(k + 1).drop_last() =~= raw.take(k));
        let a = parts_of(raw.take(k));
        let b = parts_of(raw.take(k + 1));
        assert forall|i: int| 0 <= i < a.len() implies parts_of(raw)[i] == #[trigger] a[i] by {
            assert(b[i] == a[i]);
        }
    } else {
        assert(raw.take(k) =~= raw);
    }
}

/// Adding a well-formed part keeps a header well formed.
proof fn lemma_pushed(ps: Seq<Seq<char>>, part: Seq<char>)
    requires
        req_numbers_ok(ps),
        req_part_ok(part),
    ensures
        req_numbers_ok(ps.push(part)),
{
    let qs = ps.push(part);
    assert forall|i: int| 0 <= i < qs.len() implies req_part_ok(#[trigger] qs[i]) by {
        if i < ps.len() {
            assert(qs[i] == ps[i]);
        }
    }
}

/// A key without equals sign and a value, neither empty nor padded, make a part
/// that reads back as they are.
proof fn lemma_part(key: Seq<char>, v: Seq<char>)
    requires
        key.len() > 0,
        v.len() > 0,
        forall|i: int| 0 <= i < key.len() ==> #[trigger] key[i] != '=' && !is_space(key[i]),
        !is_space(v[0]),
        !is_space(v.last()),
    ensures
        trimmed(key + seq!['='] + v) == key + seq!['='] + v,
        key_value(key + seq!['='] + v) == Some((key, v)),
{
    let part = key + seq!['='] + v;
    assert(part[0] == key[0]);
    assert(part.last() == v.last());
    assert(key[key.len() - 1] == key.last());
    lemma_trimmed_is(part);
    lemma_trimmed_is(key);
    lemma_trimmed_is(v);
    lemma_split_first_is(key, '=', v);
}

proof fn lemma_digit_ends(n: nat, radix: nat)
    requires
        2 <= radix <= 16,
    ensures
        ({
            let d = digits(n, radix);
            &&& d.len() > 0
            &&& forall|i: int|
                0 <= i < d.len() ==> !is_space(#[trigger] d[i]) && d[i] != ';' && d[i] != 'x'
        }),
{
    lemma_digits(n, radix);
    let d = digits(n, radix);
    assert forall|i: int| 0 <= i < d.len() implies !is_space(#[trigger] d[i]) && d[i] != ';' && d[i]
        != 'x' by {
        let c = d[i];
        assert(('0' <= c <= '9') || ('a' <= c <= 'f'));
    }
}

/// A hexadecimal value with its prefix reads back as the number.
proof fn lemma_hex_value(n: nat, max: int)
    requires
        n <= max,
    ensures
        ({
            let v = "0x"@ + digits(n, 16);
            &&& hex_number(v, max) == Some(n as int)
            &&& v.len() > 0
            &&& forall|i: int| 0 <= i < v.len() ==> !is_space(#[trigger] v[i]) && v[i] != ';'
        }),
{
    reveal_strlit("0x");
    reveal_strlit("0X");
    lemma_digit_ends(n, 16);
    law_number_round_trip(n, 16, max);
    let v = "0x"@ + digits(n, 16);
    assert(v.take("0x"@.len() as int) =~= "0x"@);
    assert(v.skip("0x"@.len() as int) =~= digits(n, 16));
    assert forall|i: int| 0 <= i < v.len() implies !is_space(#[trigger] v[i]) && v[i] != ';' by {
        if i >= 2 {
            assert(v[i] == digits(n, 16)[i - 2]);
        }
    }
}

/// A key and a value that hold neither semicolons nor white space make a part that
/// holds no semicolon.
proof fn lemma_part_plain(key: Seq<char>, v: Seq<char>)
    requires
        forall|i: int| 0 <= i < key.len() ==> #[trigger] key[i] != ';',
        forall|i: int| 0 <= i < v.len() ==> #[trigger] v[i] != ';',
    ensures
        forall|i: int|
            0 <= i < (key + seq!['='] + v).len() ==> #[trigger] (key + seq!['='] + v)[i] != ';',
{
    let part = key + seq!['='] + v;
    assert forall|i: int| 0 <= i < part.len() implies #[trigger] part[i] != ';' by {
        if i < key.len() {
            assert(part[i] == key[i]);
        } else if i > key.len() {
            assert(part[i] == v[i - key.len() - 1]);
        }
    }
}

/// The parts of a value made of parts that need no trimming.
proof fn lemma_parts_of_trimmed(ps: Seq<Seq<char>>)
    requires
        forall|i: int| 0 <= i < ps.len() ==> trimmed(#[trigger] ps[i]) == ps[i] && ps[i].len() > 0,
    ensures
        parts_of(ps) == ps,
    decreases ps.len(),
{
    if ps.len() > 0 {
        let init = ps.drop_last();
        assert forall|i: int| 0 <= i < init.len() implies trimmed(#[trigger] init[i]) == init[i]
            && init[i].len() > 0 by {
            assert(init[i] == ps[i]);
        }
        lemma_parts_of_trimmed(init);
        assert(trimmed(ps[ps.len() - 1]) == ps[ps.len() - 1]);
        assert(init.push(ps.last()) =~= ps);
    }
}

/// Whether `part` is a plain part of the given key and value: it holds no
/// semicolon, needs no trimming and reads back as they are.
spec fn plain_part(part: Seq<char>, key: Seq<char>, v: Seq<char>) -> bool {
    &&& part.len() > 0
    &&& trimmed(part) == part
    &&& key_value(part) == Some((key, v))
    &&& forall|i: int| 0 <= i < part.len() ==> #[trigger] part[i] != ';'
}

spec fn part_of(key: Seq<char>, v: Seq<char>) -> Seq<char> {
    key + seq!['='] + v
}

proof fn lemma_addr_part(n: u64)
    ensures
        plain_part(
            part_of("addr"@, "0x"@ + digits(n as nat, 16)),
            "addr"@,
            "0x"@ + digits(n as nat, 16),
        ),
        req_number("addr"@, "0x"@ + digits(n as nat, 16)) == Some(n as int),
{
    reveal_strlit("addr");
    let v = "0x"@ + digits(n as nat, 16);
    lemma_hex_value(n as nat, u64::MAX as int);
    lemma_part("addr"@, v);
    lemma_part_plain("addr"@, v);
}

proof fn lemma_rkey_part(n: u32)
    ensures
        plain_part(
            part_of("rkey"@, "0x"@ + digits(n as nat, 16)),
            "rkey"@,
            "0x"@ + digits(n as nat, 16),
        ),
        req_number("rkey"@, "0x"@ + digits(n as nat, 16)) == Some(n as int),
{
    reveal_strlit("rkey");
    lemma_keys_differ();
    let v = "0x"@ + digits(n as nat, 16);
    lemma_hex_value(n as nat, u32::MAX as int);
    lemma_part("rkey"@, v);
    lemma_part_plain("rkey"@, v);
}

proof fn lemma_len_part(n: u64)
    ensures
        plain_part(part_of("len"@, digits(n as nat, 10)), "len"@, digits(n as nat, 10)),
        req_number("len"@, digits(n as nat, 10)) == Some(n as int),
{
    reveal_strlit("len");
    lemma_keys_differ();
    let v = digits(n as nat, 10);
    lemma_digit_ends(n as nat, 10);
    law_number_round_trip(n as nat, 10, u64::MAX as int);
    lemma_part("len"@, v);
    lemma_part_plain("len"@, v);
}

proof fn lemma_id_part(n: u32)
    ensures
        plain_part(part_of("id"@, digits(n as nat, 10)), "id"@, digits(n as nat, 10)),
        req_number("id"@, digits(n as nat, 10)) == Some(n as int),
{
    reveal_strlit("id");
    lemma_keys_differ();
    let v = digits(n as nat, 10);
    lemma_digit_ends(n as nat, 10);
    law_number_round_trip(n as nat, 10, u32::MAX as int);
    lemma_part("id"@, v);
    lemma_part_plain("id"@, v);
}

/// The parts that a request is written as.
spec fn written_parts(req: RdmaWriteReq) -> Seq<Seq<char>> {
    let base = seq![
        part_of("addr"@, "0x"@ + digits(req.addr as nat, 16)),
        part_of("rkey"@, "0x"@ + digits(req.rkey as nat, 16)),
        part_of("len"@, digits(req.len as nat, 10)),
    ];
    match req.id {
        Some(id) => base.push(part_of("id"@, digits(id as nat, 10))),
        None => base,
    }
}

proof fn lemma_value_shape(req: RdmaWriteReq)
    ensures
        ({
            let ps = written_parts(req);
            let semi = seq![';'];
            req.value() == (match req.id {
                Some(id) => ps[0] + semi + (ps[1] + semi + (ps[2] + semi + ps[3])),
                None => ps[0] + semi + (ps[1] + semi + ps[2]),
            })
        }),
{
    reveal_strlit("addr");
    reveal_strlit("rkey");
    reveal_strlit("len");
    reveal_strlit("id");
    reveal_strlit("0x");
    reveal_strlit("addr=0x");
    reveal_strlit(";rkey=0x");
    reveal_strlit(";len=");
    reveal_strlit(";id=");
    assert("addr=0x"@ =~= "addr"@ + seq!['='] + "0x"@);
    assert(";rkey=0x"@ =~= seq![';'] + "rkey"@ + seq!['='] + "0x"@);
    assert(";len="@ =~= seq![';'] + "len"@ + seq!['=']);
    assert(";id="@ =~= seq![';'] + "id"@ + seq!['=']);
    let ps = written_parts(req);
    let semi = seq![';'];
    match req.id {
        Some(id) => {
            assert(req.value() =~= ps[0] + semi + (ps[1] + semi + (ps[2] + semi + ps[3])));
        },
        None => {
            assert(req.value() =~= ps[0] + semi + (ps[1] + semi + ps[2]));
        },
    }
}

proof fn lemma_written_parts(req: RdmaWriteReq)
    ensures
        parts(req.value()) == written_parts(req),
{
    lemma_value_shape(req);
    lemma_addr_part(req.addr);
    lemma_rkey_part(req.rkey);
    lemma_len_part(req.len);
    let ps = written_parts(req);
    let semi = seq![';'];
    match req.id {
        Some(id) => {
            lemma_id_part(id);
            lemma_pieces_cons(ps[0], ';', ps[1] + semi + (ps[2] + semi + ps[3]));
            lemma_pieces_cons(ps[1], ';', ps[2] + semi + ps[3]);
            lemma_pieces_cons(ps[2], ';', ps[3]);
            lemma_pieces_one(ps[3], ';');
        },
        None => {
            lemma_pieces_cons(ps[0], ';', ps[1] + semi + ps[2]);
            lemma_pieces_cons(ps[1], ';', ps[2]);
            lemma_pieces_one(ps[2], ';');
        },
    }
    assert(pieces(req.value(), ';') =~= ps);
    lemma_parts_of_trimmed(ps);
}

/// Adding a part makes its value the last one of its key and changes no other.
proof fn lemma_last_pushed(
    ps: Seq<Seq<char>>,
    part: Seq<char>,
    key: Seq<char>,
    v: Seq<char>,
    wanted: Seq<char>,
)
    requires
        key_value(part) == Some((key, v)),
    ensures
        last_value(ps.push(part), wanted) == (if key == wanted {
            Some(v)
        } else {
            last_value(ps, wanted)
        }),
{
    assert(ps.push(part).drop_last() =~= ps);
    assert(ps.push(part).last() == part);
}

/// The numbers that a written request reads back as.
proof fn lemma_written_number(req: RdmaWriteReq, wanted: Seq<char>)
    ensures
        last_value(written_parts(req), wanted) == (if wanted == "addr"@ {
            Some("0x"@ + digits(req.addr as nat, 16))
        } else if wanted == "rkey"@ {
            Some("0x"@ + digits(req.rkey as nat, 16))
        } else if wanted == "len"@ {
            Some(digits(req.len as nat, 10))
        } else if wanted == "id"@ && req.id is Some {
            Some(digits(req.id->0 as nat, 10))
        } else {
            None
        }),
{
    lemma_keys_differ();
    let a = part_of("addr"@, "0x"@ + digits(req.addr as nat, 16));
    let r = part_of("rkey"@, "0x"@ + digits(req.rkey as nat, 16));
    let l = part_of("len"@, digits(req.len as nat, 10));
    lemma_addr_part(req.addr);
    lemma_rkey_part(req.rkey);
    lemma_len_part(req.len);
    let none: Seq<Seq<char>> = seq![];
    lemma_last_pushed(none, a, "addr"@, "0x"@ + digits(req.addr as nat, 16), wanted);
    lemma_last_pushed(none.push(a), r, "rkey"@, "0x"@ + digits(req.rkey as nat, 16), wanted);
    lemma_last_pushed(none.push(a).push(r), l, "len"@, digits(req.len as nat, 10), wanted);
    let base = none.push(a).push(r).push(l);
    assert(seq![a, r, l] =~= base);
    match req.id {
        Some(id) => {
            lemma_id_part(id);
            lemma_last_pushed(
                base,
                part_of("id"@, digits(id as nat, 10)),
                "id"@,
                digits(id as nat, 10),
                wanted,
            );
        },
        None => {},
    }
}

/// Every known value of a written request is well formed.
proof fn lemma_written_well_formed(req: RdmaWriteReq)
    ensures
        req_numbers_ok(written_parts(req)),
{
    let hex_addr = "0x"@ + digits(req.addr as nat, 16);
    let hex_rkey = "0x"@ + digits(req.rkey as nat, 16);
    let len = digits(req.len as nat, 10);
    let a = part_of("addr"@, hex_addr);
    let r = part_of("rkey"@, hex_rkey);
    let l = part_of("len"@, len);
    lemma_addr_part(req.addr);
    lemma_rkey_part(req.rkey);
    lemma_len_part(req.len);
    let none: Seq<Seq<char>> = seq![];
    lemma_pushed(none, a);
    lemma_pushed(none.push(a), r);
    lemma_pushed(none.push(a).push(r), l);
    let base = none.push(a).push(r).push(l);
    assert(seq![a, r, l] =~= base);
    match req.id {
        Some(id) => {
            lemma_id_part(id);
            lemma_pushed(base, part_of("id"@, digits(id as nat, 10)));
        },
        None => {},
    }
}

/// A server reads from the header exactly what the client wrote into it.
pub proof fn law_request_round_trip(req: RdmaWriteReq)
    ensures
        RdmaWriteReq::parsed(req.value()) == Some(req),
{
    lemma_written_parts(req);
    lemma_written_well_formed(req);
    lemma_keys_differ();
    lemma_written_number(req, "addr"@);
    lemma_written_number(req, "rkey"@);
    lemma_written_number(req, "len"@);
    lemma_written_number(req, "id"@);
    lemma_addr_part(req.addr);
    lemma_rkey_part(req.rkey);
    lemma_len_part(req.len);
    match req.id {
        Some(id) => lemma_id_part(id),
        None => {},
    }
}

/// Whether `part` is a parameter that a request header does not know, with or
/// without a value.
pub open spec fn unknown_parameter(part: Seq<char>) -> bool {
    match key_value(trimmed(part)) {
        Some((k, _)) => !req_key(k),
        None => !req_key(trimmed(part)),
    }
}

proof fn lemma_parts_append(a: Seq<Seq<char>>, b: Seq<Seq<char>>)
    ensures
        parts_of(a + b) == parts_of(a) + parts_of(b),
    decreases b.len(),
{
    if b.len() == 0 {
        assert(a + b =~= a);
        assert(parts_of(a) + parts_of(b) =~= parts_of(a));
    } else {
        assert((a + b).drop_last() =~= a + b.drop_last());
        assert((a + b).last() == b.last());
        lemma_parts_append(a, b.drop_last());
        assert(parts_of(a + b) =~= parts_of(a) + parts_of(b));
    }
}

/// The last value of a key among the parts of two lists.
proof fn lemma_last_value_append(a: Seq<Seq<char>>, b: Seq<Seq<char>>, key: Seq<char>)
    ensures
        last_value(a + b, key) == (match last_value(b, key) {
            Some(v) => Some(v),
            None => last_value(a, key),
        }),
    decreases b.len(),
{
    if b.len() == 0 {
        assert(a + b =~= a);
    } else {
        assert((a + b).drop_last() =~= a + b.drop_last());
        assert((a + b).last() == b.last());
        lemma_last_value_append(a, b.drop_last(), key);
    }
}

proof fn lemma_numbers_ok_append(a: Seq<Seq<char>>, b: Seq<Seq<char>>)
    ensures
        req_numbers_ok(a + b) <==> req_numbers_ok(a) && req_numbers_ok(b),
{
    let ab = a + b;
    if req_numbers_ok(ab) {
        assert forall|i: int| 0 <= i < a.len() implies req_part_ok(#[trigger] a[i]) by {
            assert(ab[i] == a[i]);
        }
        assert forall|i: int| 0 <= i < b.len() implies req_part_ok(#[trigger] b[i]) by {
            assert(ab[a.len() + i] == b[i]);
        }
    }
    if req_numbers_ok(a) && req_numbers_ok(b) {
        assert forall|i: int| 0 <= i < ab.len() implies req_part_ok(#[trigger] ab[i]) by {
            if i < a.len() {
                assert(ab[i] == a[i]);
            } else {
                assert(ab[i] == b[i - a.len()]);
            }
        }
    }
}

/// An unknown parameter on its own is well formed and gives no known key a value.
proof fn lemma_unknown_alone(part: Seq<char>, key: Seq<char>)
    requires
        unknown_parameter(part),
        req_key(key),
    ensures
        req_numbers_ok(parts_of(seq![part])),
        last_value(parts_of(seq![part]), key) is None,
{
    let t = trimmed(part);
    assert(seq![part].drop_last() =~= seq![]);
    assert(parts_of(seq![part].drop_last()) =~= seq![]);
    let ps = parts_of(seq![part]);
    if t.len() == 0 {
        assert(ps =~= seq![]);
    } else {
        assert(ps =~= seq![t]);
        assert(ps.drop_last() =~= seq![]);
        assert(last_value(ps.drop_last(), key) is None);
    }
}

/// Unknown parameters are ignored, with or without a value: a request header asks
/// for the same with one at its end, or in the middle, as without it.
pub proof fn law_unknown_parameters_are_ignored(
    front: Seq<char>,
    part: Seq<char>,
    back: Seq<char>,
)
    requires
        unknown_parameter(part),
        forall|i: int| 0 <= i < part.len() ==> #[trigger] part[i] != ';',
    ensures
        RdmaWriteReq::parsed(front + seq![';'] + part) == RdmaWriteReq::parsed(front),
        RdmaWriteReq::parsed(front + seq![';'] + (part + seq![';'] + back))
            == RdmaWriteReq::parsed(front + seq![';'] + back),
{
    let (f, b) = (pieces(front, ';'), pieces(back, ';'));
    lemma_pieces_one(part, ';');
    lemma_pieces_append(front, ';', part);
    lemma_pieces_append(front, ';', back);
    lemma_pieces_append(part, ';', back);
    lemma_pieces_append(front, ';', part + seq![';'] + back);
    let p = seq![part];
    lemma_parts_append(f, p);
    lemma_parts_append(f, b);
    lemma_parts_append(p, b);
    lemma_parts_append(f, p + b);
    lemma_ignored(parts_of(f), part, parts_of(b));
}

/// What reading ignores, wherever it stands.
proof fn lemma_ignored(f: Seq<Seq<char>>, part: Seq<char>, b: Seq<Seq<char>>)
    requires
        unknown_parameter(part),
    ensures
        ({
            let u = parts_of(seq![part]);
            &&& req_numbers_ok(f + u) == req_numbers_ok(f)
            &&& req_numbers_ok(f + (u + b)) == req_numbers_ok(f + b)
            &&& forall|key: Seq<char>|
                req_key(key) ==> {
                    &&& #[trigger] req_last(f + u, key) == req_last(f, key)
                    &&& req_last(f + (u + b), key) == req_last(f + b, key)
                }
        }),
{
    let u = parts_of(seq![part]);
    lemma_unknown_alone(part, "id"@);
    lemma_numbers_ok_append(f, u);
    lemma_numbers_ok_append(u, b);
    lemma_numbers_ok_append(f, b);
    lemma_numbers_ok_append(f, u + b);
    assert forall|key: Seq<char>|
        req_key(key) implies {
        &&& #[trigger] req_last(f + u, key) == req_last(f, key)
        &&& req_last(f + (u + b), key) == req_last(f + b, key)
    } by {
        lemma_unknown_alone(part, key);
        lemma_last_value_append(f, u, key);
        lemma_last_value_append(u, b, key);
        lemma_last_value_append(f, b, key);
        lemma_last_value_append(f, u + b, key);
    }
}

/// A server's answer to a request for a zero-copy response.
#[derive(Debug, Clone, Copy, PartialEq, Eq, Structural)]
pub enum RdmaWriteStatus {
    /// The body was written into the client's buffer.
    Complete {
        /// Its length.
        bytes_written: u64,
    },
    /// The body exceeds the client's buffer; nothing was written.
    TooLarge {
        /// Its length.
        object_size: u64,
    },
    /// The body is sent on the stream.
    Declined,
}

/// The decimal number under the last `key`, if it is well formed.
pub open spec fn status_last(ps: Seq<Seq<char>>, key: Seq<char>) -> Option<int> {
    match last_value(ps, key) {
        Some(v) => parsed_number(v, 10, u64::MAX as int),
        None => None,
    }
}

/// Whether `key` is one that a response header knows.
pub open spec fn status_key(key: Seq<char>) -> bool {
    key == "status"@ || key == "bytes_written"@ || key == "object_size"@
}

/// Whether no known key of a response header stands without a value.
pub open spec fn status_parts_ok(ps: Seq<Seq<char>>) -> bool {
    forall|i: int| 0 <= i < ps.len() && key_value(#[trigger] ps[i]) is None ==> !status_key(ps[i])
}

proof fn lemma_status_keys_differ()
    ensures
        "status"@ != "bytes_written"@,
        "status"@ != "object_size"@,
        "bytes_written"@ != "object_size"@,
        "complete"@ != "too_large"@,
        "complete"@ != "declined"@,
        "too_large"@ != "declined"@,
{
    reveal_strlit("status");
    reveal_strlit("bytes_written");
    reveal_strlit("object_size");
    reveal_strlit("complete");
    reveal_strlit("too_large");
    reveal_strlit("declined");
    assert("status"@.len() == 6 && "bytes_written"@.len() == 13 && "object_size"@.len() == 11);
    assert("complete"@[0] != "declined"@[0] && "too_large"@.len() == 9 && "complete"@.len() == 8);
    assert("declined"@.len() == 8);
}

impl RdmaWriteStatus {
    /// The status that a response header of the given value reports, or `None`: no
    /// known key may stand without a value, the last `status` must be a known word,
    /// and the number that goes with it must be there and well formed. Unknown
    /// parameters are ignored, with or without a value.
    pub open spec fn parsed(value: Seq<char>) -> Option<RdmaWriteStatus> {
        let ps = parts(value);
        if !status_parts_ok(ps) {
            None
        } else {
            match last_value(ps, "status"@) {
                None => None,
                Some(word) => if word == "complete"@ {
                    match status_last(ps, "bytes_written"@) {
                        Some(n) => Some(RdmaWriteStatus::Complete { bytes_written: n as u64 }),
                        None => None,
                    }
                } else if word == "too_large"@ {
                    match status_last(ps, "object_size"@) {
                        Some(n) => Some(RdmaWriteStatus::TooLarge { object_size: n as u64 }),
                        None => None,
                    }
                } else if word == "declined"@ {
                    Some(RdmaWriteStatus::Declined)
                } else {
                    None
                },
            }
        }
    }

    /// The header value of the status.
    pub open spec fn value(self) -> Seq<char> {
        match self {
            RdmaWriteStatus::Complete { bytes_written } => "status=complete;bytes_written="@
                + digits(bytes_written as nat, 10),
            RdmaWriteStatus::TooLarge { object_size } => "status=too_large;object_size="@ + digits(
                object_size as nat,
                10,
            ),
            RdmaWriteStatus::Declined => "status=declined"@,
        }
    }

    /// Parses a header value.
    pub fn parse(value: &str) -> (r: Option<Self>)
        ensures
            r == RdmaWriteStatus::parsed(value@),
    {
        let chars: Vec<char> = chars_of(value);
        let raw: Vec<&[char]> = split(chars.as_slice(), ';');
        let ghost all = pieces(value@, ';');
        let mut status: Option<&[char]> = None;
        let mut bytes_written: Option<u64> = None;
        let mut object_size: Option<u64> = None;
        let mut i: usize = 0;
        assert(all.take(0) =~= seq![]);
        while i < raw.len()
            invariant
                i <= raw@.len(),
                raw@.len() == all.len(),
                all == pieces(value@, ';'),
                forall|k: int| 0 <= k < raw@.len() ==> (#[trigger] raw@[k])@ == all[k],
                status_parts_ok(parts_of(all.take(i as int))),
                match status {
                    Some(w) => last_value(parts_of(all.take(i as int)), "status"@) == Some(w@),
                    None => last_value(parts_of(all.take(i as int)), "status"@) is None,
                },
                agrees(bytes_written, status_last(parts_of(all.take(i as int)), "bytes_written"@)),
                agrees(object_size, status_last(parts_of(all.take(i as int)), "object_size"@)),
            decreases raw@.len() - i,
        {
            let ghost before = parts_of(all.take(i as int));
            let ghost after = parts_of(all.take(i + 1));
            proof {
                assert(all.take(i + 1).drop_last() =~= all.take(i as int));
                lemma_parts_monotone(all, i + 1);
                lemma_status_keys_differ();
            }
            let part: &[char] = trim(raw[i]);
            i = i + 1;
            if part.len() > 0 {
                assert(after == before.push(part@));
                assert(after.drop_last() =~= before);
                assert(after.last() == part@);
                assert(parts(value@)[before.len() as int] == part@);
                match split_once(part, '=') {
                    None => {
                        assert(key_value(part@) is None);
                        if equals(part, "status") || equals(part, "bytes_written") || equals(
                            part,
                            "object_size",
                        ) {
                            assert(!status_parts_ok(parts(value@)));
                            return None;
                        }
                    },
                    Some((kk, vv)) => {
                        let k: &[char] = trim(kk);
                        let v: &[char] = trim(vv);
                        assert(key_value(part@) == Some((k@, v@)));
                        if equals(k, "status") {
                            status = Some(v);
                        } else if equals(k, "bytes_written") {
                            bytes_written = parse_number(v, 10, u64::MAX);
                        } else if equals(k, "object_size") {
                            object_size = parse_number(v, 10, u64::MAX);
                        }
                    },
                }
                assert forall|k: int|
                    0 <= k < after.len() && key_value(#[trigger] after[k]) is None implies !status_key(
                    after[k],
                ) by {
                    if k < before.len() {
                        assert(after[k] == before[k]);
                    }
                }
            }
        }
        assert(all.take(all.len() as int) =~= all);
        proof {
            lemma_status_keys_differ();
        }
        match status {
            None => None,
            Some(word) => {
                if equals(word, "complete") {
                    match bytes_written {
                        Some(n) => Some(RdmaWriteStatus::Complete { bytes_written: n }),
                        None => None,
                    }
                } else if equals(word, "too_large") {
                    match object_size {
                        Some(n) => Some(RdmaWriteStatus::TooLarge { object_size: n }),
                        None => None,
                    }
                } else if equals(word, "declined") {
                    Some(RdmaWriteStatus::Declined)
                } else {
                    None
                }
            },
        }
    }

    fn push_value(&self, s: &mut String)
        ensures
            final(s)@ == old(s)@ + self.value(),
    {
        match self {
            RdmaWriteStatus::Complete { bytes_written } => {
                s.append("status=complete;bytes_written=");
                push_number(s, *bytes_written, 10);
            },
            RdmaWriteStatus::TooLarge { object_size } => {
                s.append("status=too_large;object_size=");
                push_number(s, *object_size, 10);
            },
            RdmaWriteStatus::Declined => {
                s.append("status=declined");
            },
        }
        assert(s@ =~= old(s)@ + self.value());
    }

    /// The header value, such as `status=complete;bytes_written=N`.
    pub fn header_value(&self) -> (r: String)
        ensures
            r@ == self.value(),
    {
        let mut s: String = String::new();
        self.push_value(&mut s);
        assert(s@ =~= self.value());
        s
    }

    /// The whole header line.
    pub fn header_line(&self) -> (r: String)
        ensures
            r@ == HEADER@ + ": "@ + self.value(),
    {
        let mut s: String = String::new();
        s.append(HEADER);
        s.append(": ");
        self.push_value(&mut s);
        assert(s@ =~= HEADER@ + ": "@ + self.value());
        s
    }
}

/// A word of lower-case letters and underscores.
spec fn plain_word(w: Seq<char>) -> bool {
    &&& w.len() > 0
    &&& forall|i: int| 0 <= i < w.len() ==> ('a' <= #[trigger] w[i] <= 'z') || w[i] == '_'
}

proof fn lemma_word_part(key: Seq<char>, v: Seq<char>)
    requires
        plain_word(key),
        plain_word(v),
    ensures
        plain_part(part_of(key, v), key, v),
{
    assert(v[v.len() - 1] == v.last());
    lemma_part(key, v);
    lemma_part_plain(key, v);
}

proof fn lemma_number_part(key: Seq<char>, n: nat)
    requires
        plain_word(key),
    ensures
        plain_part(part_of(key, digits(n, 10)), key, digits(n, 10)),
{
    lemma_digit_ends(n, 10);
    lemma_part(key, digits(n, 10));
    lemma_part_plain(key, digits(n, 10));
}

/// Two plain parts with a semicolon between them read back as they are.
proof fn lemma_two_parts(p: Seq<char>, q: Seq<char>, k: Seq<char>, v: Seq<char>, l: Seq<char>, w: Seq<char>)
    requires
        plain_part(p, k, v),
        plain_part(q, l, w),
        k != l,
    ensures
        ({
            let ps = parts(p + seq![';'] + q);
            &&& status_parts_ok(ps)
            &&& last_value(ps, k) == Some(v)
            &&& last_value(ps, l) == Some(w)
        }),
{
    lemma_pieces_cons(p, ';', q);
    lemma_pieces_one(q, ';');
    let ps = seq![p, q];
    assert(pieces(p + seq![';'] + q, ';') =~= ps);
    lemma_parts_of_trimmed(ps);
    assert(ps.drop_last() =~= seq![p]);
    assert(ps.drop_last().drop_last() =~= seq![]);
    reveal_with_fuel(last_value, 3);
}

/// A client reads from the header exactly the status that the server wrote into
/// it.
pub proof fn law_status_round_trip(status: RdmaWriteStatus)
    ensures
        RdmaWriteStatus::parsed(status.value()) == Some(status),
{
    lemma_status_keys_differ();
    reveal_strlit("status");
    match status {
        RdmaWriteStatus::Complete { bytes_written } => {
            reveal_strlit("complete");
            reveal_strlit("bytes_written");
            reveal_strlit("status=complete;bytes_written=");
            let n = bytes_written as nat;
            let p = part_of("status"@, "complete"@);
            let q = part_of("bytes_written"@, digits(n, 10));
            lemma_word_part("status"@, "complete"@);
            lemma_number_part("bytes_written"@, n);
            law_number_round_trip(n, 10, u64::MAX as int);
            lemma_two_parts(p, q, "status"@, "complete"@, "bytes_written"@, digits(n, 10));
            assert("status=complete;bytes_written="@ =~= "status"@ + seq!['='] + "complete"@ + seq![
                ';',
            ] + "bytes_written"@ + seq!['=']);
            assert(status.value() =~= p + seq![';'] + q);
        },
        RdmaWriteStatus::TooLarge { object_size } => {
            reveal_strlit("too_large");
            reveal_strlit("object_size");
            reveal_strlit("status=too_large;object_size=");
            let n = object_size as nat;
            let p = part_of("status"@, "too_large"@);
            let q = part_of("object_size"@, digits(n, 10));
            lemma_word_part("status"@, "too_large"@);
            lemma_number_part("object_size"@, n);
            law_number_round_trip(n, 10, u64::MAX as int);
            lemma_two_parts(p, q, "status"@, "too_large"@, "object_size"@, digits(n, 10));
            assert("status=too_large;object_size="@ =~= "status"@ + seq!['='] + "too_large"@ + seq![
                ';',
            ] + "object_size"@ + seq!['=']);
            assert(status.value() =~= p + seq![';'] + q);
        },
        RdmaWriteStatus::Declined => {
            reveal_strlit("declined");
            reveal_strlit("status=declined");
            let p = part_of("status"@, "declined"@);
            lemma_word_part("status"@, "declined"@);
            assert(status.value() =~= p);
            lemma_pieces_one(p, ';');
            let ps = seq![p];
            lemma_parts_of_trimmed(ps);
            assert(ps.drop_last() =~= seq![]);
            reveal_with_fuel(last_value, 2);
        },
    }
}

/// What a server does about a request for a zero-copy response.
#[derive(Debug, Clone, Copy, PartialEq, Eq)]
pub enum RdmaWriteAction {
    /// Answer without writing anything.
    Respond(RdmaWriteStatus),
    /// Write the body, then answer that it is complete.
    Write {
        /// Bytes to write.
        payload_len: usize,
        /// Bytes to register as the source; never zero.
        source_len: usize,
        /// The transfer identifier to deliver with the body, if splitting.
        transfer_id: Option<u32>,
    },
}

impl RdmaWriteAction {
    /// The transfer identifier that counts: the client's, if splitting negotiated.
    pub open spec fn split_id(req: RdmaWriteReq, split_negotiated: bool) -> Option<u32> {
        if split_negotiated {
            req.id
        } else {
            None
        }
    }

    /// The policy: a body that does not fit is refused; an empty body needs no
    /// write unless an identifier has to be delivered with it; anything else is
    /// written.
    pub open spec fn decided(req: RdmaWriteReq, object_size: u64, split_negotiated: bool) -> Self {
        let id = Self::split_id(req, split_negotiated);
        if object_size > req.len || object_size > usize::MAX {
            RdmaWriteAction::Respond(RdmaWriteStatus::TooLarge { object_size })
        } else if id is None && object_size == 0 {
            RdmaWriteAction::Respond(RdmaWriteStatus::Complete { bytes_written: 0 })
        } else {
            RdmaWriteAction::Write {
                payload_len: object_size as usize,
                source_len: if object_size == 0 {
                    1
                } else {
                    object_size as usize
                },
                transfer_id: id,
            }
        }
    }

    /// Decides what to do with a body of `object_size` bytes.
    pub fn decide(req: &RdmaWriteReq, object_size: u64, split_negotiated: bool) -> (r: Self)
        ensures
            r == RdmaWriteAction::decided(*req, object_size, split_negotiated),
    {
        if object_size > req.len {
            return RdmaWriteAction::Respond(RdmaWriteStatus::TooLarge { object_size });
        }
        if object_size > usize::MAX as u64 {
            return RdmaWriteAction::Respond(RdmaWriteStatus::TooLarge { object_size });
        }
        let n: usize = object_size as usize;
        let split_id: Option<u32> = if split_negotiated {
            req.id
        } else {
            None
        };
        match split_id {
            Some(transfer_id) => RdmaWriteAction::Write {
                payload_len: n,
                source_len: if n == 0 {
                    1
                } else {
                    n
                },
                transfer_id: Some(transfer_id),
            },
            None => if n == 0 {
                RdmaWriteAction::Respond(RdmaWriteStatus::Complete { bytes_written: 0 })
            } else {
                RdmaWriteAction::Write { payload_len: n, source_len: n, transfer_id: None }
            },
        }
    }

    /// The status to answer with once the action has been carried out.
    pub fn status(&self) -> (r: RdmaWriteStatus)
        ensures
            r == self.answer(),
    {
        match self {
            RdmaWriteAction::Respond(status) => *status,
            RdmaWriteAction::Write { payload_len, .. } => RdmaWriteStatus::Complete {
                bytes_written: *payload_len as u64,
            },
        }
    }

    /// The status that goes with the action.
    pub open spec fn answer(self) -> RdmaWriteStatus {
        match self {
            RdmaWriteAction::Respond(status) => status,
            RdmaWriteAction::Write { payload_len, .. } => RdmaWriteStatus::Complete {
                bytes_written: payload_len as u64,
            },
        }
    }
}

/// Whatever is asked, a server never writes past the client's buffer, never
/// registers an empty source, and reports as written exactly the size of the body,
/// or that it is too large exactly when it does not fit.
pub proof fn law_policy_is_safe(req: RdmaWriteReq, object_size: u64, split_negotiated: bool)
    ensures
        ({
            let action = RdmaWriteAction::decided(req, object_size, split_negotiated);
            &&& action matches RdmaWriteAction::Write { payload_len, source_len, transfer_id } ==> {
                &&& payload_len == object_size && payload_len <= req.len
                &&& 1 <= source_len && payload_len <= source_len
                &&& transfer_id is Some <==> split_negotiated && req.id is Some
                &&& transfer_id is Some ==> transfer_id == req.id
            }
            &&& object_size > req.len ==> action.answer() == (RdmaWriteStatus::TooLarge {
                object_size,
            })
            &&& object_size <= req.len && object_size <= usize::MAX ==> action.answer() == (
            RdmaWriteStatus::Complete { bytes_written: object_size })
            &&& action.answer() !is Declined
        }),
{
}

/// A body that fits is written, all of it, from a source of its length; only an empty
/// one is answered without a write, and that only if no identifier has to be
/// delivered. A body that does not fit is never written.
pub proof fn law_policy_writes_what_fits(req: RdmaWriteReq, object_size: u64, split_negotiated: bool)
    ensures
        ({
            let action = RdmaWriteAction::decided(req, object_size, split_negotiated);
            let fits = object_size <= req.len && object_size <= usize::MAX;
            let identified = split_negotiated && req.id is Some;
            &&& action is Write <==> fits && (object_size > 0 || identified)
            &&& action matches RdmaWriteAction::Write { payload_len, source_len, .. } ==> {
                &&& payload_len == object_size
                &&& object_size > 0 ==> source_len == object_size
                &&& object_size == 0 ==> source_len == 1
            }
            &&& action matches RdmaWriteAction::Respond(status) ==> {
                &&& !fits ==> status == (RdmaWriteStatus::TooLarge { object_size })
                &&& fits ==> status == (RdmaWriteStatus::Complete { bytes_written: 0 })
            }
        }),
{
}

/// A request header in its written form reads as the numbers it holds, whatever their
/// order of magnitude: `addr` and `rkey` in hexadecimal, `len` and `id` in decimal.
pub proof fn law_request_header_reads_its_numbers(addr: u64, rkey: u32, len: u64, id: u32)
    ensures
        ({
            let base = "addr=0x"@ + digits(addr as nat, 16) + ";rkey=0x"@ + digits(rkey as nat, 16)
                + ";len="@ + digits(len as nat, 10);
            &&& RdmaWriteReq::parsed(base) == Some(RdmaWriteReq { addr, rkey, len, id: None })
            &&& RdmaWriteReq::parsed(base + ";id="@ + digits(id as nat, 10)) == Some(
                RdmaWriteReq { addr, rkey, len, id: Some(id) },
            )
        }),
{
    law_request_round_trip(RdmaWriteReq { addr, rkey, len, id: None });
    law_request_round_trip(RdmaWriteReq { addr, rkey, len, id: Some(id) });
}

/// A response header in its written form reads as the status it reports.
pub proof fn law_status_header_reads_its_number(n: u64)
    ensures
        RdmaWriteStatus::parsed("status=complete;bytes_written="@ + digits(n as nat, 10)) == Some(
            RdmaWriteStatus::Complete { bytes_written: n },
        ),
        RdmaWriteStatus::parsed("status=too_large;object_size="@ + digits(n as nat, 10)) == Some(
            RdmaWriteStatus::TooLarge { object_size: n },
        ),
        RdmaWriteStatus::parsed("status=declined"@) == Some(RdmaWriteStatus::Declined),
{
    law_status_round_trip(RdmaWriteStatus::Complete { bytes_written: n });
    law_status_round_trip(RdmaWriteStatus::TooLarge { object_size: n });
    law_status_round_trip(RdmaWriteStatus::Declined);
}

/// Whether a part has the given key.
pub open spec fn has_key(part: Seq<char>, key: Seq<char>) -> bool {
    key_value(part) matches Some((k, _)) && k == key
}

/// Of several parts with one key the last counts: what stands before it, and parts of
/// other keys behind it, make no difference.
pub proof fn law_last_value_counts(ps: Seq<Seq<char>>, key: Seq<char>, v: Seq<char>, i: int)
    requires
        0 <= i < ps.len(),
        key_value(ps[i]) == Some((key, v)),
        forall|j: int| i < j < ps.len() ==> !has_key(#[trigger] ps[j], key),
    ensures
        last_value(ps, key) == Some(v),
    decreases ps.len(),
{
    if i < ps.len() - 1 {
        let front = ps.drop_last();
        assert(front[i] == ps[i]);
        assert forall|j: int| i < j < front.len() implies !has_key(#[trigger] front[j], key) by {
            assert(front[j] == ps[j]);
        }
        law_last_value_counts(front, key, v, i);
        assert(!has_key(ps[ps.len() - 1], key));
    }
}

/// The value of a key is that of a part of this key.
proof fn lemma_last_value_is_there(ps: Seq<Seq<char>>, key: Seq<char>) -> (i: int)
    requires
        last_value(ps, key) is Some,
    ensures
        0 <= i < ps.len(),
        key_value(ps[i]) == Some((key, last_value(ps, key)->Some_0)),
    decreases ps.len(),
{
    match key_value(ps.last()) {
        Some((k, v)) if k == key => ps.len() - 1,
        _ => {
            let i = lemma_last_value_is_there(ps.drop_last(), key);
            assert(ps.drop_last()[i] == ps[i]);
            i
        },
    }
}

/// A request header with a known key that has no value, or one that is no number of
/// its notation and range, asks for nothing, whatever else it holds.
pub proof fn law_malformed_request_asks_for_nothing(value: Seq<char>, i: int)
    requires
        0 <= i < parts(value).len(),
    ensures
        ({
            let part = parts(value)[i];
            &&& part == "addr"@ || part == "rkey"@ || part == "len"@ || part == "id"@
                ==> RdmaWriteReq::parsed(value) is None
            &&& key_value(part) matches Some((k, v)) ==> {
                &&& k == "addr"@ && hex_number(v, 0xFFFF_FFFF_FFFF_FFFF) is None
                    ==> RdmaWriteReq::parsed(value) is None
                &&& k == "rkey"@ && hex_number(v, 0xFFFF_FFFF) is None ==> RdmaWriteReq::parsed(
                    value,
                ) is None
                &&& k == "len"@ && parsed_number(v, 10, 0xFFFF_FFFF_FFFF_FFFF) is None
                    ==> RdmaWriteReq::parsed(value) is None
                &&& k == "id"@ && parsed_number(v, 10, 0xFFFF_FFFF) is None
                    ==> RdmaWriteReq::parsed(value) is None
            }
        }),
{
    let part = parts(value)[i];
    lemma_keys_differ();
    lemma_bare_keys();
    if RdmaWriteReq::parsed(value) is Some {
        assert(req_part_ok(part));
    }
}

/// A key without a value has no equals sign.
proof fn lemma_bare_keys()
    ensures
        key_value("addr"@) is None,
        key_value("rkey"@) is None,
        key_value("len"@) is None,
        key_value("id"@) is None,
        key_value("status"@) is None,
        key_value("bytes_written"@) is None,
        key_value("object_size"@) is None,
{
    reveal_strlit("addr");
    reveal_strlit("rkey");
    reveal_strlit("len");
    reveal_strlit("id");
    reveal_strlit("status");
    reveal_strlit("bytes_written");
    reveal_strlit("object_size");
    law_split_once_is_the_first("addr"@, '=');
    law_split_once_is_the_first("rkey"@, '=');
    law_split_once_is_the_first("len"@, '=');
    law_split_once_is_the_first("id"@, '=');
    law_split_once_is_the_first("status"@, '=');
    law_split_once_is_the_first("bytes_written"@, '=');
    law_split_once_is_the_first("object_size"@, '=');
}

/// A request that is read has all its fields from the header: `addr`, `rkey` and `len`
/// are each the number of a part of that key, and `id` is there exactly if a part has
/// it.
pub proof fn law_request_fields_are_in_the_header(value: Seq<char>)
    requires
        RdmaWriteReq::parsed(value) is Some,
    ensures
        ({
            let ps = parts(value);
            let req = RdmaWriteReq::parsed(value)->Some_0;
            &&& last_value(ps, "addr"@) matches Some(v) && hex_number(v, 0xFFFF_FFFF_FFFF_FFFF)
                == Some(req.addr as int)
            &&& last_value(ps, "rkey"@) matches Some(v) && hex_number(v, 0xFFFF_FFFF) == Some(
                req.rkey as int,
            )
            &&& last_value(ps, "len"@) matches Some(v) && parsed_number(
                v,
                10,
                0xFFFF_FFFF_FFFF_FFFF,
            ) == Some(req.len as int)
            &&& req.id is Some <==> last_value(ps, "id"@) is Some
            &&& req.id matches Some(id) ==> (last_value(ps, "id"@) matches Some(v)
                && parsed_number(v, 10, 0xFFFF_FFFF) == Some(id as int))
        }),
{
    let ps = parts(value);
    lemma_keys_differ();
    lemma_number_bounds(ps, "addr"@);
    lemma_number_bounds(ps, "rkey"@);
    lemma_number_bounds(ps, "len"@);
    if last_value(ps, "id"@) is Some {
        let i = lemma_last_value_is_there(ps, "id"@);
        assert(req_part_ok(ps[i]));
        lemma_number_bounds(ps, "id"@);
    }
}

proof fn lemma_number_bounds(ps: Seq<Seq<char>>, key: Seq<char>)
    requires
        req_last(ps, key) is Some,
        key == "addr"@ || key == "rkey"@ || key == "len"@ || key == "id"@,
    ensures
        0 <= req_last(ps, key)->Some_0 <= u64::MAX,
        key == "rkey"@ || key == "id"@ ==> req_last(ps, key)->Some_0 <= u32::MAX,
{
    lemma_keys_differ();
    let v = last_value(ps, key)->Some_0;
    lemma_parsed_bounds(hex_body(v), 16, u64::MAX as int);
    lemma_parsed_bounds(hex_body(v), 16, u32::MAX as int);
    lemma_parsed_bounds(v, 10, u64::MAX as int);
    lemma_parsed_bounds(v, 10, u32::MAX as int);
}

/// A response header with a known key that has no value reports nothing, whatever else
/// it holds. One that is read has its status and number from the header: the word says
/// which number goes with it.
pub proof fn law_status_is_in_the_header(value: Seq<char>, i: int)
    ensures
        ({
            let ps = parts(value);
            let status = RdmaWriteStatus::parsed(value);
            let word = last_value(ps, "status"@);
            &&& 0 <= i < ps.len() && (ps[i] == "status"@ || ps[i] == "bytes_written"@ || ps[i]
                == "object_size"@) ==> status is None
            &&& word is None ==> status is None
            &&& status matches Some(RdmaWriteStatus::Complete { bytes_written }) ==> {
                &&& word == Some("complete"@)
                &&& last_value(ps, "bytes_written"@) matches Some(v) && parsed_number(
                    v,
                    10,
                    0xFFFF_FFFF_FFFF_FFFF,
                ) == Some(bytes_written as int)
            }
            &&& status matches Some(RdmaWriteStatus::TooLarge { object_size }) ==> {
                &&& word == Some("too_large"@)
                &&& last_value(ps, "object_size"@) matches Some(v) && parsed_number(
                    v,
                    10,
                    0xFFFF_FFFF_FFFF_FFFF,
                ) == Some(object_size as int)
            }
            &&& status == Some(RdmaWriteStatus::Declined) ==> word == Some("declined"@)
        }),
{
    let ps = parts(value);
    lemma_status_keys_differ();
    lemma_bare_keys();
    if 0 <= i < ps.len() && status_parts_ok(ps) {
        assert(key_value(ps[i]) is None ==> !status_key(ps[i]));
    }
    if let Some(v) = last_value(ps, "bytes_written"@) {
        lemma_parsed_bounds(v, 10, u64::MAX as int);
    }
    if let Some(v) = last_value(ps, "object_size"@) {
        lemma_parsed_bounds(v, 10, u64::MAX as int);
    }
}

} // verus!
