//! Single byte ranges: the `Range` request header and `Content-Range`.

use vstd::prelude::*;
use crate::text::{
    after_prefix, begins_with, chars_of, digit_value, digits, digits_number, find_char,
    first_index, is_space, law_number_round_trip, lemma_digits, lemma_digits_bounds,
    lemma_first_index, lemma_first_index_is, lemma_split_first_is, lemma_trimmed_is,
    lemma_trimmed_keeps, parse_digits, push_number, split_first, split_once, strip_prefix, trim,
    trimmed,
};

verus! {

/// What a `Range` header means for an object of known size.
#[derive(Debug, Clone, Copy, PartialEq, Eq, Structural)]
pub enum RangeSpec {
    /// The bytes from `start` to `end`, both included.
    Range {
        /// First byte.
        start: usize,
        /// Last byte.
        end: usize,
    },
    /// A well-formed range that lies past the end of the object.
    Unsatisfiable,
    /// No usable single range; the whole object is served.
    Full,
}

/// The `usize` that a run of decimal digits writes. A sign, or anything else that
/// is not a digit, makes it no number.
pub open spec fn size_number(s: Seq<char>) -> Option<int> {
    digits_number(s, 10, usize::MAX as int)
}

/// The last `n` bytes of an object.
pub open spec fn suffix_range(n: int, total: usize) -> RangeSpec {
    if n == 0 || total == 0 {
        RangeSpec::Unsatisfiable
    } else {
        RangeSpec::Range {
            start: if n >= total {
                0
            } else {
                (total - n) as usize
            },
            end: (total - 1) as usize,
        }
    }
}

/// The bytes of an object from `start` on, up to `last` if that is given.
pub open spec fn bounded_range(start: int, last: Option<int>, total: usize) -> RangeSpec {
    if last matches Some(l) && start > l {
        RangeSpec::Full
    } else if start >= total {
        RangeSpec::Unsatisfiable
    } else {
        RangeSpec::Range {
            start: start as usize,
            end: match last {
                Some(l) => if l < total {
                    l as usize
                } else {
                    (total - 1) as usize
                },
                None => (total - 1) as usize,
            },
        }
    }
}

/// The two ends that a `Range` value names: the trimmed texts around the first
/// hyphen, when the unit is bytes and there is no comma.
pub open spec fn range_ends(value: Seq<char>) -> Option<(Seq<char>, Seq<char>)> {
    match after_prefix(trimmed(value), "bytes="@) {
        None => None,
        Some(s) => if first_index(trimmed(s), ',') < trimmed(s).len() {
            None
        } else {
            match split_first(trimmed(s), '-') {
                None => None,
                Some((a, b)) => Some((trimmed(a), trimmed(b))),
            }
        },
    }
}

/// What a `Range` value means for an object of `total` bytes: `a-b` clamps `b` to
/// the object, `a-` runs to its end, `-n` is its last `n` bytes. Each position, and
/// the length `n`, is a run of digits. Everything else asks for the whole object.
pub open spec fn resolved(value: Seq<char>, total: usize) -> RangeSpec {
    match range_ends(value) {
        None => RangeSpec::Full,
        Some((a, b)) => if a.len() == 0 && b.len() == 0 {
            RangeSpec::Full
        } else if a.len() == 0 {
            match size_number(b) {
                Some(n) => suffix_range(n, total),
                None => RangeSpec::Full,
            }
        } else if b.len() == 0 {
            match size_number(a) {
                Some(s) => bounded_range(s, None, total),
                None => RangeSpec::Full,
            }
        } else {
            match (size_number(a), size_number(b)) {
                (Some(s), Some(e)) => bounded_range(s, Some(e), total),
                _ => RangeSpec::Full,
            }
        },
    }
}

/// Resolves a `Range` header value against an object of `total` bytes.
pub fn parse_range(value: &str, total: usize) -> (r: RangeSpec)
    ensures
        r == resolved(value@, total),
{
    let chars: Vec<char> = chars_of(value);
    let spec: &[char] = match strip_prefix(trim(chars.as_slice()), "bytes=") {
        Some(s) => trim(s),
        None => {
            return RangeSpec::Full;
        },
    };
    if find_char(spec, ',') < spec.len() {
        return RangeSpec::Full;
    }
    let (a, b): (&[char], &[char]) = match split_once(spec, '-') {
        Some((x, y)) => (trim(x), trim(y)),
        None => {
            return RangeSpec::Full;
        },
    };
    let max: u64 = usize::MAX as u64;
    if a.len() == 0 && b.len() == 0 {
        return RangeSpec::Full;
    }
    if a.len() == 0 {
        let n: usize = match parse_digits(b, 10, max) {
            Some(n) => n as usize,
            None => {
                return RangeSpec::Full;
            },
        };
        if n == 0 || total == 0 {
            return RangeSpec::Unsatisfiable;
        }
        return RangeSpec::Range { start: total.saturating_sub(n), end: total - 1 };
    }
    let start: usize = match parse_digits(a, 10, max) {
        Some(s) => s as usize,
        None => {
            return RangeSpec::Full;
        },
    };
    if b.len() == 0 {
        if start >= total {
            return RangeSpec::Unsatisfiable;
        }
        return RangeSpec::Range { start, end: total - 1 };
    }
    let last: usize = match parse_digits(b, 10, max) {
        Some(e) => e as usize,
        None => {
            return RangeSpec::Full;
        },
    };
    if start > last {
        return RangeSpec::Full;
    }
    if start >= total {
        return RangeSpec::Unsatisfiable;
    }
    RangeSpec::Range {
        start,
        end: if last < total {
            last
        } else {
            total - 1
        },
    }
}

/// A satisfiable range lies inside the object and holds one byte at least; a range
/// of an empty object is never satisfiable.
pub proof fn law_range_within_object(value: Seq<char>, total: usize)
    ensures
        resolved(value, total) matches RangeSpec::Range { start, end } ==> start <= end < total,
{
    match range_ends(value) {
        Some((a, b)) => {
            lemma_digits_bounds(a, 10, usize::MAX as int);
            lemma_digits_bounds(b, 10, usize::MAX as int);
        },
        None => {},
    }
}

/// The value of a satisfied `Content-Range`.
pub open spec fn content_range_text(start: usize, end: usize, total: usize) -> Seq<char> {
    "bytes "@ + digits(start as nat, 10) + "-"@ + digits(end as nat, 10) + "/"@ + digits(
        total as nat,
        10,
    )
}

/// Formats a satisfied `Content-Range`: `bytes start-end/total`.
pub fn content_range(start: usize, end: usize, total: usize) -> (r: String)
    ensures
        r@ == content_range_text(start, end, total),
{
    let mut s: String = String::new();
    s.append("bytes ");
    push_number(&mut s, start as u64, 10);
    s.append("-");
    push_number(&mut s, end as u64, 10);
    s.append("/");
    push_number(&mut s, total as u64, 10);
    assert(s@ =~= content_range_text(start, end, total));
    s
}

/// The value of an unsatisfied `Content-Range`.
pub open spec fn unsatisfied_text(total: usize) -> Seq<char> {
    "bytes */"@ + digits(total as nat, 10)
}

/// Formats an unsatisfied `Content-Range`: `bytes */total`.
pub fn content_range_unsatisfied(total: usize) -> (r: String)
    ensures
        r@ == unsatisfied_text(total),
{
    let mut s: String = String::new();
    s.append("bytes */");
    push_number(&mut s, total as u64, 10);
    assert(s@ =~= unsatisfied_text(total));
    s
}

/// The start, end and total of a satisfied `Content-Range` value.
pub open spec fn content_range_of(value: Seq<char>) -> Option<(usize, usize, usize)> {
    match after_prefix(trimmed(value), "bytes "@) {
        None => None,
        Some(rest) => match split_first(rest, '/') {
            None => None,
            Some((range, total)) => match split_first(trimmed(range), '-') {
                None => None,
                Some((start, end)) => match (
                    size_number(trimmed(start)),
                    size_number(trimmed(end)),
                    size_number(trimmed(total)),
                ) {
                    (Some(s), Some(e), Some(t)) => Some((s as usize, e as usize, t as usize)),
                    _ => None,
                },
            },
        },
    }
}

/// Parses a satisfied `Content-Range` value; the unsatisfied form and anything
/// malformed give `None`.
pub fn parse_content_range(value: &str) -> (r: Option<(usize, usize, usize)>)
    ensures
        r == content_range_of(value@),
{
    let chars: Vec<char> = chars_of(value);
    let max: u64 = usize::MAX as u64;
    let rest: &[char] = match strip_prefix(trim(chars.as_slice()), "bytes ") {
        Some(s) => s,
        None => {
            return None;
        },
    };
    let (range, total): (&[char], &[char]) = match split_once(rest, '/') {
        Some(p) => p,
        None => {
            return None;
        },
    };
    let (start, end): (&[char], &[char]) = match split_once(trim(range), '-') {
        Some(p) => p,
        None => {
            return None;
        },
    };
    match (
        parse_digits(trim(start), 10, max),
        parse_digits(trim(end), 10, max),
        parse_digits(trim(total), 10, max),
    ) {
        (Some(s), Some(e), Some(t)) => Some((s as usize, e as usize, t as usize)),
        _ => None,
    }
}

/// The digits of a number are neither white space nor punctuation.
proof fn lemma_plain_digits(n: nat)
    ensures
        ({
            let d = digits(n, 10);
            &&& d.len() > 0
            &&& trimmed(d) == d
            &&& forall|i: int|
                0 <= i < d.len() ==> !is_space(#[trigger] d[i]) && d[i] != '-' && d[i] != '/'
        }),
{
    lemma_digits(n, 10);
    let d = digits(n, 10);
    assert forall|i: int| 0 <= i < d.len() implies !is_space(#[trigger] d[i]) && d[i] != '-' && d[i]
        != '/' by {
        let c = d[i];
        assert(('0' <= c <= '9') || ('a' <= c <= 'f'));
    }
    assert(d[d.len() - 1] == d.last());
    lemma_trimmed_is(d);
}

/// A client reads from `Content-Range` exactly the range that the server wrote.
pub proof fn law_content_range_round_trip(start: usize, end: usize, total: usize)
    ensures
        content_range_of(content_range_text(start, end, total)) == Some((start, end, total)),
{
    reveal_strlit("bytes ");
    reveal_strlit("-");
    reveal_strlit("/");
    let (ds, de, dt) = (digits(start as nat, 10), digits(end as nat, 10), digits(total as nat, 10));
    lemma_plain_digits(start as nat);
    lemma_plain_digits(end as nat);
    lemma_plain_digits(total as nat);
    law_number_round_trip(start as nat, 10, usize::MAX as int);
    law_number_round_trip(end as nat, 10, usize::MAX as int);
    law_number_round_trip(total as nat, 10, usize::MAX as int);
    let value = content_range_text(start, end, total);
    let range = ds + seq!['-'] + de;
    let rest = range + seq!['/'] + dt;
    assert("-"@ =~= seq!['-']);
    assert("/"@ =~= seq!['/']);
    assert(value =~= "bytes "@ + rest);
    assert(value[0] == 'b');
    assert(value.last() == dt[dt.len() - 1]);
    lemma_trimmed_is(value);
    assert(value.take("bytes "@.len() as int) =~= "bytes "@);
    assert(value.skip("bytes "@.len() as int) =~= rest);
    assert forall|i: int| 0 <= i < range.len() implies #[trigger] range[i] != '/' by {
        if i < ds.len() {
            assert(range[i] == ds[i]);
        } else if i > ds.len() {
            assert(range[i] == de[i - ds.len() - 1]);
        }
    }
    lemma_split_first_is(range, '/', dt);
    assert(range[0] == ds[0]);
    assert(range.last() == de[de.len() - 1]);
    lemma_trimmed_is(range);
    lemma_split_first_is(ds, '-', de);
}

/// The unsatisfied form never reads as a range.
pub proof fn law_unsatisfied_is_no_range(total: usize)
    ensures
        content_range_of(unsatisfied_text(total)) is None,
{
    reveal_strlit("bytes ");
    reveal_strlit("bytes */");
    let dt = digits(total as nat, 10);
    lemma_plain_digits(total as nat);
    let value = unsatisfied_text(total);
    let star = seq!['*'];
    assert(value =~= "bytes "@ + (star + seq!['/'] + dt));
    assert(value[0] == 'b');
    assert(value.last() == dt[dt.len() - 1]);
    lemma_trimmed_is(value);
    assert(value.take("bytes "@.len() as int) =~= "bytes "@);
    assert(value.skip("bytes "@.len() as int) =~= star + seq!['/'] + dt);
    lemma_split_first_is(star, '/', dt);
    lemma_trimmed_is(star);
    lemma_first_index_is(star, '-', 1);
}

/// Two runs of characters around a hyphen, neither of which holds white space, a
/// comma or a hyphen, are the two ends of the range that they write.
proof fn lemma_written_ends(a: Seq<char>, b: Seq<char>)
    requires
        forall|i: int|
            0 <= i < a.len() ==> !is_space(#[trigger] a[i]) && a[i] != '-' && a[i] != ',',
        forall|i: int|
            0 <= i < b.len() ==> !is_space(#[trigger] b[i]) && b[i] != '-' && b[i] != ',',
    ensures
        range_ends("bytes="@ + a + "-"@ + b) == Some((a, b)),
{
    reveal_strlit("bytes=");
    reveal_strlit("-");
    assert("-"@ =~= seq!['-']);
    let value = "bytes="@ + a + "-"@ + b;
    let spec = a + seq!['-'] + b;
    assert(value =~= "bytes="@ + spec);
    assert forall|i: int| 0 <= i < spec.len() implies !is_space(#[trigger] spec[i]) && spec[i]
        != ',' by {
        if i < a.len() {
            assert(spec[i] == a[i]);
        } else if i > a.len() {
            assert(spec[i] == b[i - a.len() - 1]);
        }
    }
    assert(value[0] == 'b');
    assert(spec[spec.len() - 1] == spec.last());
    assert(value.last() == spec.last());
    lemma_trimmed_is(value);
    assert(value.take("bytes="@.len() as int) =~= "bytes="@);
    assert(value.skip("bytes="@.len() as int) =~= spec);
    assert(spec[0] == spec.first());
    lemma_trimmed_is(spec);
    lemma_first_index_is(spec, ',', spec.len() as int);
    lemma_split_first_is(a, '-', b);
    if a.len() > 0 {
        assert(a[a.len() - 1] == a.last());
    }
    if b.len() > 0 {
        assert(b[b.len() - 1] == b.last());
    }
    lemma_trimmed_is(a);
    lemma_trimmed_is(b);
}

/// What the digits of a number are, for a range.
proof fn lemma_range_digits(n: nat)
    ensures
        ({
            let d = digits(n, 10);
            &&& d.len() > 0
            &&& forall|i: int|
                0 <= i < d.len() ==> !is_space(#[trigger] d[i]) && d[i] != '-' && d[i] != ','
            &&& size_number(d) == (if n <= usize::MAX {
                Some(n as int)
            } else {
                None
            })
        }),
{
    lemma_plain_digits(n);
    lemma_digits(n, 10);
    let d = digits(n, 10);
    assert forall|i: int| 0 <= i < d.len() implies !is_space(#[trigger] d[i]) && d[i] != '-' && d[i]
        != ',' by {
        let c = d[i];
        assert(('0' <= c <= '9') || ('a' <= c <= 'f'));
    }
}

/// `bytes=-n` asks for the last `n` bytes: it ends with the object and holds `n`
/// bytes, or the whole object if that has fewer. Nothing of an object, or anything
/// of an empty one, cannot be had; a number that no size reaches is no range.
pub proof fn law_suffix_is_the_last_bytes(n: nat, total: usize)
    ensures
        ({
            let r = resolved("bytes=-"@ + digits(n, 10), total);
            &&& 0 < n <= usize::MAX && total > 0 ==> (r matches RangeSpec::Range { start, end }
                && end == total - 1 && end - start + 1 == (if n <= total {
                n as int
            } else {
                total as int
            }))
            &&& n <= usize::MAX && (n == 0 || total == 0) ==> r is Unsatisfiable
            &&& n > usize::MAX ==> r is Full
        }),
{
    reveal_strlit("bytes=");
    reveal_strlit("-");
    reveal_strlit("bytes=-");
    let none = Seq::<char>::empty();
    lemma_range_digits(n);
    lemma_written_ends(none, digits(n, 10));
    assert("bytes=-"@ + digits(n, 10) =~= "bytes="@ + none + "-"@ + digits(n, 10));
}

/// `bytes=first-` asks for everything from `first` on: it starts there and ends with
/// the object. A start that is not inside the object cannot be had.
pub proof fn law_open_range_runs_to_the_end(first: nat, total: usize)
    ensures
        ({
            let r = resolved("bytes="@ + digits(first, 10) + "-"@, total);
            &&& first < total ==> (r matches RangeSpec::Range { start, end } && start == first
                && end + 1 == total)
            &&& total <= first <= usize::MAX ==> r is Unsatisfiable
            &&& first > usize::MAX ==> r is Full
        }),
{
    let none = Seq::<char>::empty();
    lemma_range_digits(first);
    lemma_written_ends(digits(first, 10), none);
    assert("bytes="@ + digits(first, 10) + "-"@ + none =~= "bytes="@ + digits(first, 10) + "-"@);
}

/// `bytes=first-last` asks for the bytes from `first` to `last`, both included, as
/// far as the object has them. A range that runs backwards is none, and one that
/// starts behind the object cannot be had.
pub proof fn law_bounded_range_is_cut_to_the_object(first: nat, last: nat, total: usize)
    ensures
        ({
            let r = resolved("bytes="@ + digits(first, 10) + "-"@ + digits(last, 10), total);
            &&& first <= last <= usize::MAX && first < total ==> (r matches RangeSpec::Range {
                start,
                end,
            } && start == first && end <= last && end < total && (end == last || end + 1 == total))
            &&& total <= first <= last <= usize::MAX ==> r is Unsatisfiable
            &&& first > last || last > usize::MAX ==> r is Full
        }),
{
    lemma_range_digits(first);
    lemma_range_digits(last);
    lemma_written_ends(digits(first, 10), digits(last, 10));
}

/// Whether a character can stand in a byte range: a digit, the hyphen or white space.
pub open spec fn range_char(c: char) -> bool {
    ('0' <= c <= '9') || c == '-' || is_space(c)
}

/// Only a value in bytes that holds nothing but digits, a hyphen and white space is
/// a range: several ranges, other units, signs and words ask for the whole object.
pub proof fn law_only_plain_ranges_count(value: Seq<char>, total: usize, i: int)
    requires
        resolved(value, total) !is Full,
    ensures
        begins_with(trimmed(value), "bytes="@),
        "bytes="@.len() <= i < trimmed(value).len() ==> range_char(trimmed(value)[i]),
{
    let spec = trimmed(value).skip("bytes="@.len() as int);
    let s = trimmed(spec);
    let k = first_index(s, '-');
    lemma_first_index(s, '-');
    let (a, b) = (s.take(k), s.skip(k + 1));
    if "bytes="@.len() <= i < trimmed(value).len() {
        let j = i - "bytes="@.len();
        let c = trimmed(value)[i];
        assert(spec[j] == c);
        lemma_trimmed_keeps(spec, j);
        if !is_space(c) {
            let m = choose|m: int| 0 <= m < s.len() && s[m] == c;
            if m < k {
                assert(a[m] == c);
                lemma_trimmed_keeps(a, m);
                assert(trimmed(a).len() > 0);
                assert(size_number(trimmed(a)) is Some);
                let q = choose|q: int| 0 <= q < trimmed(a).len() && trimmed(a)[q] == c;
                assert(digit_value(trimmed(a)[q]) < 10);
            } else if m > k {
                assert(b[m - k - 1] == c);
                lemma_trimmed_keeps(b, m - k - 1);
                assert(trimmed(b).len() > 0);
                assert(size_number(trimmed(b)) is Some);
                let q = choose|q: int| 0 <= q < trimmed(b).len() && trimmed(b)[q] == c;
                assert(digit_value(trimmed(b)[q]) < 10);
            }
        }
    }
}

/// Reading back a `Content-Range` in its written form gives its three numbers.
pub proof fn law_content_range_reads_its_numbers(start: usize, end: usize, total: usize)
    ensures
        content_range_of(
            "bytes "@ + digits(start as nat, 10) + "-"@ + digits(end as nat, 10) + "/"@ + digits(
                total as nat,
                10,
            ),
        ) == Some((start, end, total)),
        content_range_of("bytes */"@ + digits(total as nat, 10)) is None,
{
    law_content_range_round_trip(start, end, total);
    law_unsatisfied_is_no_range(total);
}

} // verus!
