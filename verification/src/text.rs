//! Text as sequences of characters: trimming, splitting and numbers.

use vstd::prelude::*;

verus! {

/// `String::push` appends one character.
pub assume_specification[ String::push ](s: &mut String, ch: char)
    ensures
        final(s)@ == old(s)@.push(ch),
;

/// The characters of `s`.
pub fn chars_of(s: &str) -> (r: Vec<char>)
    ensures
        r@ == s@,
{
    let mut v: Vec<char> = Vec::new();
    for c in it: s.chars()
        invariant
            v@ == it.seq().take(it.index() as int),
            it.seq() == s@,
    {
        v.push(c);
        assert(v@ =~= it.seq().take(it.index() + 1));
    }
    assert(v@ =~= s@);
    v
}

/// The string of the given characters.
pub fn string_of(chars: &[char]) -> (r: String)
    ensures
        r@ == chars@,
{
    let mut s: String = String::new();
    let mut i: usize = 0;
    while i < chars.len()
        invariant
            i <= chars@.len(),
            s@ == chars@.take(i as int),
        decreases chars@.len() - i,
    {
        s.push(chars[i]);
        i = i + 1;
        assert(s@ =~= chars@.take(i as int));
    }
    assert(s@ =~= chars@);
    s
}

/// Whether a character is white space in the sense of Unicode's `White_Space`
/// property.
pub open spec fn is_space(c: char) -> bool {
    let u = c as u32;
    ||| 0x09 <= u <= 0x0D
    ||| u == 0x20
    ||| u == 0x85
    ||| u == 0xA0
    ||| u == 0x1680
    ||| 0x2000 <= u <= 0x200A
    ||| u == 0x2028
    ||| u == 0x2029
    ||| u == 0x202F
    ||| u == 0x205F
    ||| u == 0x3000
}

/// Whether a character is white space.
pub fn is_whitespace(c: char) -> (r: bool)
    ensures
        r == is_space(c),
{
    let u: u32 = c as u32;
    (0x09 <= u && u <= 0x0D) || u == 0x20 || u == 0x85 || u == 0xA0 || u == 0x1680 || (0x2000 <= u
        && u <= 0x200A) || u == 0x2028 || u == 0x2029 || u == 0x202F || u == 0x205F || u == 0x3000
}

/// `s` without its leading white space.
pub open spec fn trimmed_start(s: Seq<char>) -> Seq<char>
    decreases s.len(),
{
    if s.len() > 0 && is_space(s[0]) {
        trimmed_start(s.drop_first())
    } else {
        s
    }
}

/// `s` without its trailing white space.
pub open spec fn trimmed_end(s: Seq<char>) -> Seq<char>
    decreases s.len(),
{
    if s.len() > 0 && is_space(s.last()) {
        trimmed_end(s.drop_last())
    } else {
        s
    }
}

/// `s` without its leading and trailing white space.
pub open spec fn trimmed(s: Seq<char>) -> Seq<char> {
    trimmed_end(trimmed_start(s))
}

/// Removes leading and trailing white space.
pub fn trim(s: &[char]) -> (r: &[char])
    ensures
        r@ == trimmed(s@),
{
    let mut i: usize = 0;
    let len: usize = s.len();
    assert(s@.skip(0) =~= s@);
    while i < len && is_whitespace(s[i])
        invariant
            i <= len,
            len == s@.len(),
            trimmed_start(s@.skip(i as int)) == trimmed_start(s@),
        decreases len - i,
    {
        assert(s@.skip(i as int).drop_first() =~= s@.skip(i + 1));
        i = i + 1;
    }
    let mut j: usize = len;
    assert(s@.subrange(i as int, len as int) =~= s@.skip(i as int));
    while j > i && is_whitespace(s[j - 1])
        invariant
            i <= j <= len,
            len == s@.len(),
            trimmed_end(s@.subrange(i as int, j as int)) == trimmed(s@),
        decreases j,
    {
        assert(s@.subrange(i as int, j as int).drop_last() =~= s@.subrange(i as int, j - 1));
        j = j - 1;
    }
    vstd::slice::slice_subrange(s, i, j)
}

/// The position of the first `c` in `s`, or the length of `s` if there is none.
pub open spec fn first_index(s: Seq<char>, c: char) -> int
    decreases s.len(),
{
    if s.len() == 0 || s[0] == c {
        0
    } else {
        1 + first_index(s.drop_first(), c)
    }
}

/// What the first position says.
pub proof fn lemma_first_index(s: Seq<char>, c: char)
    ensures
        0 <= first_index(s, c) <= s.len(),
        first_index(s, c) < s.len() ==> s[first_index(s, c)] == c,
        forall|i: int| 0 <= i < first_index(s, c) ==> #[trigger] s[i] != c,
    decreases s.len(),
{
    if s.len() > 0 && s[0] != c {
        let rest = s.drop_first();
        lemma_first_index(rest, c);
        assert forall|i: int| 0 <= i < first_index(s, c) implies #[trigger] s[i] != c by {
            if i > 0 {
                assert(rest[i - 1] == s[i]);
            }
        }
    }
}

/// The first position is determined by what stands before and at it.
pub proof fn lemma_first_index_is(s: Seq<char>, c: char, i: int)
    requires
        0 <= i <= s.len(),
        i < s.len() ==> s[i] == c,
        forall|j: int| 0 <= j < i ==> #[trigger] s[j] != c,
    ensures
        first_index(s, c) == i,
{
    lemma_first_index(s, c);
    let k = first_index(s, c);
    if k < i {
        assert(s[k] != c);
    }
    if k > i {
        assert(s[i] != c);
    }
}

/// Finds the first `c`, or gives the length.
pub fn find_char(s: &[char], c: char) -> (r: usize)
    ensures
        r == first_index(s@, c),
        r <= s@.len(),
{
    let mut i: usize = 0;
    while i < s.len() && s[i] != c
        invariant
            i <= s@.len(),
            forall|j: int| 0 <= j < i ==> #[trigger] s@[j] != c,
        decreases s@.len() - i,
    {
        i = i + 1;
    }
    proof {
        lemma_first_index_is(s@, c, i as int);
    }
    i
}

/// `s` split at the first `c`, if it holds one.
pub open spec fn split_first(s: Seq<char>, c: char) -> Option<(Seq<char>, Seq<char>)> {
    let i = first_index(s, c);
    if i < s.len() {
        Some((s.take(i), s.skip(i + 1)))
    } else {
        None
    }
}

/// Splits at the first `c`.
pub fn split_once(s: &[char], c: char) -> (r: Option<(&[char], &[char])>)
    ensures
        match r {
            Some((a, b)) => split_first(s@, c) == Some((a@, b@)),
            None => split_first(s@, c) is None,
        },
{
    let i: usize = find_char(s, c);
    if i < s.len() {
        let a: &[char] = vstd::slice::slice_subrange(s, 0, i);
        let b: &[char] = vstd::slice::slice_subrange(s, i + 1, s.len());
        assert(a@ =~= s@.take(i as int));
        assert(b@ =~= s@.skip(i + 1));
        Some((a, b))
    } else {
        None
    }
}

/// The pieces of `s` between the occurrences of `c`; there is always one at least.
pub open spec fn pieces(s: Seq<char>, c: char) -> Seq<Seq<char>>
    decreases s.len(),
{
    let i = first_index(s, c);
    if 0 <= i < s.len() {
        seq![s.take(i)] + pieces(s.skip(i + 1), c)
    } else {
        seq![s]
    }
}

/// Splits at every `c`.
pub fn split<'a>(s: &'a [char], c: char) -> (r: Vec<&'a [char]>)
    ensures
        r@.len() == pieces(s@, c).len(),
        forall|k: int| 0 <= k < r@.len() ==> (#[trigger] r@[k])@ == pieces(s@, c)[k],
{
    let mut out: Vec<&'a [char]> = Vec::new();
    let mut rest: &'a [char] = s;
    let ghost mut done: Seq<Seq<char>> = seq![];
    assert(seq![] + pieces(s@, c) =~= pieces(s@, c));
    let mut i: usize = find_char(rest, c);
    while i < rest.len()
        invariant
            i == first_index(rest@, c),
            i <= rest@.len(),
            pieces(s@, c) == done + pieces(rest@, c),
            out@.len() == done.len(),
            forall|k: int| 0 <= k < out@.len() ==> (#[trigger] out@[k])@ == done[k],
        decreases rest@.len(),
    {
        let head: &'a [char] = vstd::slice::slice_subrange(rest, 0, i);
        let tail: &'a [char] = vstd::slice::slice_subrange(rest, i + 1, rest.len());
        proof {
            let before = done;
            assert(head@ =~= rest@.take(i as int));
            assert(tail@ =~= rest@.skip(i + 1));
            done = before.push(head@);
            assert(before + (seq![head@] + pieces(tail@, c)) =~= done + pieces(tail@, c));
        }
        out.push(head);
        rest = tail;
        i = find_char(rest, c);
    }
    assert(done + seq![rest@] =~= done.push(rest@));
    out.push(rest);
    out
}

/// A text without `c`, then `c`, then anything: the first piece is that text.
pub proof fn lemma_pieces_cons(a: Seq<char>, c: char, b: Seq<char>)
    requires
        forall|i: int| 0 <= i < a.len() ==> #[trigger] a[i] != c,
    ensures
        pieces(a + seq![c] + b, c) == seq![a] + pieces(b, c),
{
    let s = a + seq![c] + b;
    assert forall|j: int| 0 <= j < a.len() implies #[trigger] s[j] != c by {
        assert(s[j] == a[j]);
    }
    lemma_first_index_is(s, c, a.len() as int);
    assert(s.take(a.len() as int) =~= a);
    assert(s.skip(a.len() as int + 1) =~= b);
}

/// The pieces of `a`, then `c`, then `b` are those of `a` and those of `b`.
pub proof fn lemma_pieces_append(a: Seq<char>, c: char, b: Seq<char>)
    ensures
        pieces(a + seq![c] + b, c) == pieces(a, c) + pieces(b, c),
    decreases a.len(),
{
    lemma_first_index(a, c);
    let i = first_index(a, c);
    if i < a.len() {
        let (front, back) = (a.take(i), a.skip(i + 1));
        assert forall|j: int| 0 <= j < front.len() implies #[trigger] front[j] != c by {
            assert(front[j] == a[j]);
        }
        lemma_pieces_append(back, c, b);
        lemma_pieces_cons(front, c, back + seq![c] + b);
        assert(a + seq![c] + b =~= front + seq![c] + (back + seq![c] + b));
        assert(pieces(a + seq![c] + b, c) =~= pieces(a, c) + pieces(b, c));
    } else {
        lemma_pieces_cons(a, c, b);
        lemma_pieces_one(a, c);
    }
}

/// A text without `c` is its own only piece.
pub proof fn lemma_pieces_one(a: Seq<char>, c: char)
    requires
        forall|i: int| 0 <= i < a.len() ==> #[trigger] a[i] != c,
    ensures
        pieces(a, c) == seq![a],
{
    lemma_first_index_is(a, c, a.len() as int);
}

/// Splitting `a`, then `c`, then `b` at the first `c` gives `a` and `b` when `a`
/// holds no `c`.
pub proof fn lemma_split_first_is(a: Seq<char>, c: char, b: Seq<char>)
    requires
        forall|i: int| 0 <= i < a.len() ==> #[trigger] a[i] != c,
    ensures
        split_first(a + seq![c] + b, c) == Some((a, b)),
{
    let s = a + seq![c] + b;
    assert forall|j: int| 0 <= j < a.len() implies #[trigger] s[j] != c by {
        assert(s[j] == a[j]);
    }
    lemma_first_index_is(s, c, a.len() as int);
    assert(s.take(a.len() as int) =~= a);
    assert(s.skip(a.len() as int + 1) =~= b);
}

/// A text whose ends are not white space is left alone by trimming.
pub proof fn lemma_trimmed_is(s: Seq<char>)
    requires
        s.len() > 0 ==> !is_space(s[0]) && !is_space(s.last()),
    ensures
        trimmed(s) == s,
{
}

proof fn lemma_trimmed_start_keeps(s: Seq<char>, i: int)
    requires
        0 <= i < s.len(),
        !is_space(s[i]),
    ensures
        trimmed_start(s).contains(s[i]),
    decreases s.len(),
{
    if is_space(s[0]) {
        lemma_trimmed_start_keeps(s.drop_first(), i - 1);
        assert(s.drop_first()[i - 1] == s[i]);
    } else {
        assert(s.contains(s[i]));
    }
}

proof fn lemma_trimmed_end_keeps(s: Seq<char>, i: int)
    requires
        0 <= i < s.len(),
        !is_space(s[i]),
    ensures
        trimmed_end(s).contains(s[i]),
    decreases s.len(),
{
    if is_space(s.last()) {
        lemma_trimmed_end_keeps(s.drop_last(), i);
        assert(s.drop_last()[i] == s[i]);
    } else {
        assert(s.contains(s[i]));
    }
}

/// Trimming removes white space only.
pub proof fn lemma_trimmed_keeps(s: Seq<char>, i: int)
    requires
        0 <= i < s.len(),
    ensures
        is_space(s[i]) || trimmed(s).contains(s[i]),
{
    if !is_space(s[i]) {
        lemma_trimmed_start_keeps(s, i);
        let t = trimmed_start(s);
        let k = choose|k: int| 0 <= k < t.len() && t[k] == s[i];
        lemma_trimmed_end_keeps(t, k);
    }
}

/// Whether the text `s` begins with `prefix`.
pub open spec fn begins_with(s: Seq<char>, prefix: Seq<char>) -> bool {
    prefix.len() <= s.len() && s.take(prefix.len() as int) == prefix
}

/// Whether `s` is the text `t`.
pub fn equals(s: &[char], t: &str) -> (r: bool)
    ensures
        r == (s@ == t@),
{
    let u: Vec<char> = chars_of(t);
    if u.len() != s.len() {
        return false;
    }
    starts_with(s, u.as_slice())
}

fn starts_with(s: &[char], prefix: &[char]) -> (r: bool)
    ensures
        r == begins_with(s@, prefix@),
        s@.len() == prefix@.len() ==> r == (s@ == prefix@),
{
    if prefix.len() > s.len() {
        return false;
    }
    let mut i: usize = 0;
    while i < prefix.len()
        invariant
            i <= prefix@.len() <= s@.len(),
            forall|j: int| 0 <= j < i ==> s@[j] == #[trigger] prefix@[j],
        decreases prefix@.len() - i,
    {
        if s[i] != prefix[i] {
            assert(s@[i as int] != prefix@[i as int]);
            assert(s@.take(prefix@.len() as int)[i as int] == s@[i as int]);
            return false;
        }
        i = i + 1;
    }
    assert(s@.take(prefix@.len() as int) =~= prefix@);
    assert(s@.len() == prefix@.len() ==> s@ =~= prefix@);
    true
}

/// What follows `prefix` in `s`, if `s` begins with it.
pub open spec fn after_prefix(s: Seq<char>, prefix: Seq<char>) -> Option<Seq<char>> {
    if begins_with(s, prefix) {
        Some(s.skip(prefix.len() as int))
    } else {
        None
    }
}

/// Strips a prefix.
pub fn strip_prefix<'a>(s: &'a [char], prefix: &str) -> (r: Option<&'a [char]>)
    ensures
        match r {
            Some(t) => after_prefix(s@, prefix@) == Some(t@),
            None => after_prefix(s@, prefix@) is None,
        },
{
    let p: Vec<char> = chars_of(prefix);
    if starts_with(s, p.as_slice()) {
        let t: &'a [char] = vstd::slice::slice_subrange(s, p.len(), s.len());
        assert(t@ =~= s@.skip(p@.len() as int));
        Some(t)
    } else {
        None
    }
}

/// The value of a hexadecimal digit, or 16 for any other character.
pub open spec fn digit_value(c: char) -> int {
    if '0' <= c <= '9' {
        c as int - '0' as int
    } else if 'a' <= c <= 'f' {
        c as int - 'a' as int + 10
    } else if 'A' <= c <= 'F' {
        c as int - 'A' as int + 10
    } else {
        16
    }
}

fn digit_of(c: char) -> (r: u64)
    ensures
        r == digit_value(c),
{
    let u: u64 = c as u64;
    if 0x30 <= u && u <= 0x39 {
        u - 0x30
    } else if 0x61 <= u && u <= 0x66 {
        u - 0x61 + 10
    } else if 0x41 <= u && u <= 0x46 {
        u - 0x41 + 10
    } else {
        16
    }
}

/// Whether every character of `s` is a digit of the given radix.
pub open spec fn all_digits(s: Seq<char>, radix: int) -> bool {
    forall|i: int| 0 <= i < s.len() ==> digit_value(#[trigger] s[i]) < radix
}

/// The number that the digits `s` write in the given radix.
pub open spec fn number(s: Seq<char>, radix: int) -> int
    decreases s.len(),
{
    if s.len() == 0 {
        0
    } else {
        number(s.drop_last(), radix) * radix + digit_value(s.last())
    }
}

/// The digits of an unsigned number: what follows a leading plus sign, unless the
/// sign is all there is.
pub open spec fn unsigned_part(s: Seq<char>) -> Seq<char> {
    if s.len() > 1 && s[0] == '+' {
        s.drop_first()
    } else {
        s
    }
}

/// The number of at most `max` that the digits `s` write: one digit at least, and
/// nothing but digits.
pub open spec fn digits_number(s: Seq<char>, radix: int, max: int) -> Option<int> {
    if s.len() > 0 && all_digits(s, radix) && number(s, radix) <= max {
        Some(number(s, radix))
    } else {
        None
    }
}

/// The unsigned number of at most `max` that `s` writes: an optional plus sign and
/// one digit at least.
pub open spec fn parsed_number(s: Seq<char>, radix: int, max: int) -> Option<int> {
    digits_number(unsigned_part(s), radix, max)
}

proof fn lemma_number_grows(s: Seq<char>, radix: int, k: int)
    requires
        1 <= radix,
        0 <= k <= s.len(),
        all_digits(s, radix),
    ensures
        0 <= number(s.take(k), radix) <= number(s, radix),
    decreases s.len(),
{
    if k == s.len() {
        assert(s.take(k) =~= s);
        if s.len() > 0 {
            let init = s.drop_last();
            assert forall|i: int| 0 <= i < init.len() implies digit_value(#[trigger] init[i])
                < radix by {
                assert(init[i] == s[i]);
            }
            lemma_number_grows(init, radix, init.len() as int);
            assert(init.take(init.len() as int) =~= init);
            assert(number(init, radix) * radix >= 0) by (nonlinear_arith)
                requires
                    number(init, radix) >= 0,
                    radix >= 1,
            ;
        }
    } else {
        let init = s.drop_last();
        assert forall|i: int| 0 <= i < init.len() implies digit_value(#[trigger] init[i]) < radix by {
            assert(init[i] == s[i]);
        }
        lemma_number_grows(init, radix, k);
        assert(init.take(k) =~= s.take(k));
        assert(number(init, radix) * radix >= number(init, radix)) by (nonlinear_arith)
            requires
                number(init, radix) >= 0,
                radix >= 1,
        ;
    }
}

/// A number that was read lies between zero and the limit.
pub proof fn lemma_digits_bounds(s: Seq<char>, radix: int, max: int)
    requires
        1 <= radix,
    ensures
        digits_number(s, radix, max) matches Some(n) ==> 0 <= n <= max,
{
    if all_digits(s, radix) {
        lemma_number_grows(s, radix, s.len() as int);
        assert(s.take(s.len() as int) =~= s);
    }
}

/// A number that was read lies between zero and the limit, with a sign or without.
pub proof fn lemma_parsed_bounds(s: Seq<char>, radix: int, max: int)
    requires
        1 <= radix,
    ensures
        parsed_number(s, radix, max) matches Some(n) ==> 0 <= n <= max,
{
    lemma_digits_bounds(unsigned_part(s), radix, max);
}

/// Parses an unsigned number of at most `max`, with an optional plus sign.
pub fn parse_number(s: &[char], radix: u64, max: u64) -> (r: Option<u64>)
    requires
        2 <= radix <= 16,
    ensures
        match r {
            Some(v) => parsed_number(s@, radix as int, max as int) == Some(v as int),
            None => parsed_number(s@, radix as int, max as int) is None,
        },
{
    let start: usize = if s.len() > 1 && s[0] == '+' {
        1
    } else {
        0
    };
    let d: &[char] = vstd::slice::slice_subrange(s, start, s.len());
    assert(d@ =~= unsigned_part(s@));
    parse_digits(d, radix, max)
}

/// Parses a run of digits that writes a number of at most `max`.
pub fn parse_digits(s: &[char], radix: u64, max: u64) -> (r: Option<u64>)
    requires
        2 <= radix <= 16,
    ensures
        match r {
            Some(v) => digits_number(s@, radix as int, max as int) == Some(v as int),
            None => digits_number(s@, radix as int, max as int) is None,
        },
{
    if s.len() == 0 {
        return None;
    }
    let mut v: u64 = 0;
    let mut i: usize = 0;
    assert(s@.take(0) =~= seq![]);
    while i < s.len()
        invariant
            i <= s@.len(),
            2 <= radix <= 16,
            all_digits(s@.take(i as int), radix as int),
            v == number(s@.take(i as int), radix as int),
            v <= max,
        decreases s@.len() - i,
    {
        let g: u64 = digit_of(s[i]);
        if g >= radix {
            assert(!all_digits(s@, radix as int)) by {
                assert(digit_value(s@[i as int]) >= radix);
            }
            return None;
        }
        let ghost next = s@.take(i + 1);
        proof {
            assert(next.drop_last() =~= s@.take(i as int));
            assert forall|k: int| 0 <= k < next.len() implies digit_value(#[trigger] next[k])
                < radix by {
                if k < i {
                    assert(s@.take(i as int)[k] == next[k]);
                }
            }
        }
        assert(0 <= v * radix <= 0xFFFF_FFFF_FFFF_FFFF * 16) by (nonlinear_arith)
            requires
                0 <= v <= 0xFFFF_FFFF_FFFF_FFFF,
                0 <= radix <= 16,
        ;
        let wide: u128 = v as u128 * radix as u128 + g as u128;
        assert(wide == number(next, radix as int));
        if wide > max as u128 {
            proof {
                if all_digits(s@, radix as int) {
                    lemma_number_grows(s@, radix as int, i + 1);
                }
            }
            return None;
        }
        v = wide as u64;
        i = i + 1;
    }
    assert(s@.take(s@.len() as int) =~= s@);
    Some(v)
}

/// The character of a digit below 16, in lower case.
pub open spec fn digit_char(d: int) -> char {
    if d < 10 {
        (('0' as int) + d) as char
    } else {
        (('a' as int) + d - 10) as char
    }
}

/// `n` written in the given radix, without leading zeros.
pub open spec fn digits(n: nat, radix: nat) -> Seq<char>
    decreases n,
{
    if radix < 2 || n < radix {
        seq![digit_char(n as int)]
    } else {
        proof {
            assert(n / radix < n) by (nonlinear_arith)
                requires
                    n >= radix,
                    radix >= 2,
            ;
        }
        digits(n / radix, radix).push(digit_char((n % radix) as int))
    }
}

fn char_of_digit(d: u64) -> (r: char)
    requires
        d < 16,
    ensures
        r == digit_char(d as int),
{
    let c: u8 = if d < 10 {
        0x30 + d as u8
    } else {
        0x61 + d as u8 - 10
    };
    c as char
}

/// Writes `n` in the given radix.
pub fn format_number(n: u64, radix: u64) -> (r: Vec<char>)
    requires
        2 <= radix <= 16,
    ensures
        r@ == digits(n as nat, radix as nat),
    decreases n,
{
    if n < radix {
        let mut v: Vec<char> = Vec::new();
        v.push(char_of_digit(n));
        assert(v@ =~= digits(n as nat, radix as nat));
        v
    } else {
        assert(n / radix < n) by (nonlinear_arith)
            requires
                n >= radix,
                radix >= 2,
        ;
        let mut v: Vec<char> = format_number(n / radix, radix);
        assert(n % radix < radix) by (nonlinear_arith)
            requires
                radix >= 2,
        ;
        v.push(char_of_digit(n % radix));
        v
    }
}

/// Appends the number `n`.
pub fn push_number(s: &mut String, n: u64, radix: u64)
    requires
        2 <= radix <= 16,
    ensures
        final(s)@ == old(s)@ + digits(n as nat, radix as nat),
{
    let v: Vec<char> = format_number(n, radix);
    let mut i: usize = 0;
    assert(v@.take(0) =~= seq![]);
    assert(s@ =~= old(s)@ + v@.take(0));
    while i < v.len()
        invariant
            i <= v@.len(),
            s@ == old(s)@ + v@.take(i as int),
        decreases v@.len() - i,
    {
        s.push(v[i]);
        i = i + 1;
        assert(s@ =~= old(s)@ + v@.take(i as int));
    }
    assert(v@.take(v@.len() as int) =~= v@);
}

/// What the digits of a number are: digits of the radix that write the number, and
/// neither signs nor white space.
pub proof fn lemma_digits(n: nat, radix: nat)
    requires
        2 <= radix <= 16,
    ensures
        digits(n, radix).len() > 0,
        all_digits(digits(n, radix), radix as int),
        number(digits(n, radix), radix as int) == n,
        forall|i: int|
            #![trigger digits(n, radix)[i]]
            0 <= i < digits(n, radix).len() ==> {
                let c = digits(n, radix)[i];
                ('0' <= c <= '9') || ('a' <= c <= 'f')
            },
    decreases n,
{
    let s = digits(n, radix);
    if n < radix {
        assert(s.drop_last() =~= seq![]);
        assert(number(s.drop_last(), radix as int) == 0);
        assert(s[0] == digit_char(n as int));
    } else {
        assert(n / radix < n && n % radix < radix && (n / radix) * radix + n % radix == n)
            by (nonlinear_arith)
            requires
                n >= radix,
                radix >= 2,
        ;
        lemma_digits(n / radix, radix);
        let init = digits(n / radix, radix);
        assert(s.drop_last() =~= init);
        assert forall|i: int| 0 <= i < s.len() implies digit_value(#[trigger] s[i]) < radix by {
            if i < init.len() {
                assert(s[i] == init[i]);
            }
        }
        assert forall|i: int| #![trigger s[i]] 0 <= i < s.len() implies {
            let c = s[i];
            ('0' <= c <= '9') || ('a' <= c <= 'f')
        } by {
            if i < init.len() {
                assert(s[i] == init[i]);
            }
        }
    }
}

/// Reading back a written number gives the number.
pub proof fn law_number_round_trip(n: nat, radix: nat, max: int)
    requires
        2 <= radix <= 16,
        n <= max,
    ensures
        parsed_number(digits(n, radix), radix as int, max) == Some(n as int),
        digits_number(digits(n, radix), radix as int, max) == Some(n as int),
{
    lemma_digits(n, radix);
    assert(digits(n, radix)[0] != '+');
}

/// Whether two characters are equal up to ASCII case.
pub open spec fn same_letter(a: char, b: char) -> bool {
    lower(a) == lower(b)
}

/// A character with ASCII capitals made small.
pub open spec fn lower(c: char) -> int {
    if 'A' <= c <= 'Z' {
        c as int + 32
    } else {
        c as int
    }
}

/// Whether two texts are equal up to ASCII case.
pub open spec fn same_text(a: Seq<char>, b: Seq<char>) -> bool {
    a.len() == b.len() && forall|i: int| 0 <= i < a.len() ==> same_letter(#[trigger] a[i], b[i])
}

fn lower_of(c: char) -> (r: u32)
    ensures
        r == lower(c),
{
    let u: u32 = c as u32;
    if 0x41 <= u && u <= 0x5A {
        u + 32
    } else {
        u
    }
}

/// Compares two texts up to ASCII case.
pub fn eq_ignore_ascii_case(a: &[char], b: &[char]) -> (r: bool)
    ensures
        r == same_text(a@, b@),
{
    if a.len() != b.len() {
        return false;
    }
    let mut i: usize = 0;
    while i < a.len()
        invariant
            i <= a@.len(),
            a@.len() == b@.len(),
            forall|j: int| 0 <= j < i ==> same_letter(#[trigger] a@[j], b@[j]),
        decreases a@.len() - i,
    {
        if lower_of(a[i]) != lower_of(b[i]) {
            assert(!same_letter(a@[i as int], b@[i as int]));
            return false;
        }
        i = i + 1;
    }
    true
}

/// Whether a text is nothing but white space.
pub open spec fn blank(s: Seq<char>) -> bool {
    forall|i: int| 0 <= i < s.len() ==> is_space(#[trigger] s[i])
}

proof fn lemma_trimmed_start_skips(a: Seq<char>, t: Seq<char>)
    requires
        blank(a),
    ensures
        trimmed_start(a + t) == trimmed_start(t),
    decreases a.len(),
{
    if a.len() == 0 {
        assert(a + t =~= t);
    } else {
        let rest = a.drop_first();
        assert forall|i: int| 0 <= i < rest.len() implies is_space(#[trigger] rest[i]) by {
            assert(rest[i] == a[i + 1]);
        }
        assert((a + t).drop_first() =~= rest + t);
        assert(is_space(a[0]));
        lemma_trimmed_start_skips(rest, t);
    }
}

proof fn lemma_trimmed_end_skips(t: Seq<char>, b: Seq<char>)
    requires
        blank(b),
    ensures
        trimmed_end(t + b) == trimmed_end(t),
    decreases b.len(),
{
    if b.len() == 0 {
        assert(t + b =~= t);
    } else {
        let rest = b.drop_last();
        assert forall|i: int| 0 <= i < rest.len() implies is_space(#[trigger] rest[i]) by {
            assert(rest[i] == b[i]);
        }
        assert((t + b).drop_last() =~= t + rest);
        assert(is_space(b[b.len() - 1]));
        lemma_trimmed_end_skips(t, rest);
    }
}

/// Trimming gives back what stands between white space, whatever white space that is
/// and however much of it.
pub proof fn law_trim_removes_the_padding(a: Seq<char>, t: Seq<char>, b: Seq<char>)
    requires
        blank(a),
        blank(b),
        t.len() > 0 ==> !is_space(t[0]) && !is_space(t.last()),
    ensures
        trimmed(a + t + b) == t,
{
    assert(a + t + b =~= a + (t + b));
    lemma_trimmed_start_skips(a, t + b);
    if t.len() > 0 {
        assert((t + b)[0] == t[0]);
        lemma_trimmed_end_skips(t, b);
    } else {
        let none = Seq::<char>::empty();
        assert(t + b =~= b + none);
        lemma_trimmed_start_skips(b, none);
        assert(t =~= none);
    }
}

/// Among the ASCII characters the blank and the five controls from tab to carriage
/// return are white space, and no others.
pub proof fn law_ascii_white_space(c: char)
    requires
        (c as u32) < 0x80,
    ensures
        is_space(c) <==> c == ' ' || c == '\t' || c == '\n' || c == '\r' || c as u32 == 0x0B
            || c as u32 == 0x0C,
{
}

/// Pieces with `c` between them.
pub open spec fn joined(ps: Seq<Seq<char>>, c: char) -> Seq<char>
    decreases ps.len(),
{
    if ps.len() == 0 {
        seq![]
    } else if ps.len() == 1 {
        ps[0]
    } else {
        ps[0] + seq![c] + joined(ps.drop_first(), c)
    }
}

/// Splitting at every `c` loses nothing but these characters and leaves none of them:
/// the pieces with `c` between them are the text, and no piece holds a `c`.
pub proof fn law_pieces_make_up_the_text(s: Seq<char>, c: char)
    ensures
        pieces(s, c).len() >= 1,
        joined(pieces(s, c), c) == s,
        forall|k: int|
            0 <= k < pieces(s, c).len() ==> !(#[trigger] pieces(s, c)[k]).contains(c),
    decreases s.len(),
{
    lemma_first_index(s, c);
    let i = first_index(s, c);
    let ps = pieces(s, c);
    if i < s.len() {
        let (front, back) = (s.take(i), s.skip(i + 1));
        law_pieces_make_up_the_text(back, c);
        let rest = pieces(back, c);
        assert(ps.drop_first() =~= rest);
        assert(front + seq![c] + back =~= s);
        assert(!front.contains(c)) by {
            if front.contains(c) {
                let j = choose|j: int| 0 <= j < front.len() && front[j] == c;
                assert(s[j] != c);
            }
        }
        assert forall|k: int| 0 <= k < ps.len() implies !(#[trigger] ps[k]).contains(c) by {
            if k > 0 {
                assert(ps[k] == rest[k - 1]);
            }
        }
    } else {
        assert(!s.contains(c)) by {
            if s.contains(c) {
                let j = choose|j: int| 0 <= j < s.len() && s[j] == c;
                assert(s[j] != c);
            }
        }
    }
}

/// Splitting once gives what stands before and behind the first `c`.
pub proof fn law_split_once_is_the_first(s: Seq<char>, c: char)
    ensures
        split_first(s, c) is Some <==> s.contains(c),
        split_first(s, c) matches Some((a, b)) ==> a + seq![c] + b == s && !a.contains(c),
{
    lemma_first_index(s, c);
    let i = first_index(s, c);
    if i < s.len() {
        assert(s.take(i) + seq![c] + s.skip(i + 1) =~= s);
        assert(s.contains(c));
        assert(!s.take(i).contains(c)) by {
            if s.take(i).contains(c) {
                let j = choose|j: int| 0 <= j < i && s.take(i)[j] == c;
                assert(s[j] != c);
            }
        }
    } else if s.contains(c) {
        let j = choose|j: int| 0 <= j < s.len() && s[j] == c;
        assert(s[j] != c);
    }
}

/// What digits count: the decimal ones from zero to nine, the letters from ten to
/// fifteen in either case, and nothing else is a digit.
pub proof fn law_digit_values(c: char)
    ensures
        digit_value('0') == 0 && digit_value('9') == 9 && digit_value('a') == 10 && digit_value('f')
            == 15,
        '0' <= c < '9' || 'a' <= c < 'f' || 'A' <= c < 'F' ==> digit_value((c as u32 + 1) as char)
            == digit_value(c) + 1,
        'A' <= c <= 'F' ==> digit_value(c) == digit_value((c as u32 + 32) as char),
        digit_value(c) < 10 <==> '0' <= c <= '9',
        digit_value(c) < 16 <==> ('0' <= c <= '9') || ('a' <= c <= 'f') || ('A' <= c <= 'F'),
{
}

proof fn lemma_leading_zero(s: Seq<char>, radix: int)
    ensures
        number(seq!['0'] + s, radix) == number(s, radix),
    decreases s.len(),
{
    let z = seq!['0'] + s;
    if s.len() == 0 {
        assert(z =~= seq!['0']);
        assert(z.drop_last() =~= seq![]);
        assert(number(z.drop_last(), radix) == 0);
        assert(0 * radix == 0) by (nonlinear_arith);
    } else {
        assert(z.drop_last() =~= seq!['0'] + s.drop_last());
        lemma_leading_zero(s.drop_last(), radix);
    }
}

/// The forms of a number: leading zeros change nothing, a plus sign is allowed where
/// a sign is, nowhere else, and only once; a minus sign, blanks and no digits at all
/// are no number, and neither is one above the limit.
pub proof fn law_number_forms(n: nat, max: int)
    requires
        n <= max,
    ensures
        ({
            let d = digits(n, 10);
            &&& digits_number(seq!['0'] + d, 10, max) == Some(n as int)
            &&& parsed_number(seq!['+'] + d, 10, max) == Some(n as int)
            &&& digits_number(seq!['+'] + d, 10, max) is None
            &&& parsed_number(seq!['+', '+'] + d, 10, max) is None
            &&& parsed_number(seq!['-'] + d, 10, max) is None
            &&& parsed_number(d + seq![' '], 10, max) is None
            &&& parsed_number(seq![], 10, max) is None
            &&& parsed_number(seq!['+'], 10, max) is None
            &&& parsed_number(d, 10, n - 1) is None
        }),
{
    let d = digits(n, 10);
    lemma_digits(n, 10);
    let zero = seq!['0'] + d;
    assert forall|i: int| 0 <= i < zero.len() implies digit_value(#[trigger] zero[i]) < 10 by {
        if i > 0 {
            assert(zero[i] == d[i - 1]);
        }
    }
    lemma_leading_zero(d, 10);
    let plus = seq!['+'] + d;
    assert(plus.drop_first() =~= d);
    assert(digit_value(plus[0]) >= 10);
    let twice = seq!['+', '+'] + d;
    assert(twice.drop_first()[0] == '+');
    assert(digit_value(twice.drop_first()[0]) >= 10);
    let minus = seq!['-'] + d;
    assert(digit_value(minus[0]) >= 10);
    let tail = d + seq![' '];
    assert(d[0] != '+');
    assert(tail[0] == d[0]);
    assert(digit_value(tail[tail.len() - 1]) >= 10);
    assert(digit_value(seq!['+'][0]) >= 10);
}

/// Texts are compared up to the case of ASCII letters, and only of those.
pub proof fn law_case_of_ascii_letters_only(a: char, b: char, s: Seq<char>)
    ensures
        'A' <= a <= 'Z' ==> same_letter(a, (a as u32 + 32) as char),
        same_letter(a, b) && a != b ==> {
            ||| 'A' <= a <= 'Z' && b as u32 == a as u32 + 32
            ||| 'A' <= b <= 'Z' && a as u32 == b as u32 + 32
        },
        same_letter(a, a),
        same_text(s, s),
{
}

proof fn lemma_same_letter(a: char, b: char)
    ensures
        same_letter(a, b) == ({
            ||| a == b
            ||| 'A' <= a <= 'Z' && b as u32 == a as u32 + 32
            ||| 'A' <= b <= 'Z' && a as u32 == b as u32 + 32
        }),
{
}

/// Two texts are the same up to case exactly if they are equally long and each pair of
/// characters is equal or a capital and its small letter.
pub proof fn law_same_text_is_letter_by_letter(a: Seq<char>, b: Seq<char>)
    ensures
        same_text(a, b) <==> a.len() == b.len() && forall|i: int|
            0 <= i < a.len() ==> {
                ||| #[trigger] a[i] == b[i]
                ||| 'A' <= a[i] <= 'Z' && b[i] as u32 == a[i] as u32 + 32
                ||| 'A' <= b[i] <= 'Z' && a[i] as u32 == b[i] as u32 + 32
            },
        same_text(a, b) <==> same_text(b, a),
{
    if a.len() == b.len() {
        assert forall|i: int| 0 <= i < a.len() implies same_letter(#[trigger] a[i], b[i]) == ({
            ||| a[i] == b[i]
            ||| 'A' <= a[i] <= 'Z' && b[i] as u32 == a[i] as u32 + 32
            ||| 'A' <= b[i] <= 'Z' && a[i] as u32 == b[i] as u32 + 32
        }) by {
            lemma_same_letter(a[i], b[i]);
        }
        if same_text(a, b) {
            assert forall|i: int| 0 <= i < b.len() implies same_letter(#[trigger] b[i], a[i]) by {
                assert(same_letter(a[i], b[i]));
            }
        }
        if same_text(b, a) {
            assert forall|i: int| 0 <= i < a.len() implies same_letter(#[trigger] a[i], b[i]) by {
                assert(same_letter(b[i], a[i]));
            }
        }
    }
}

/// A text begins with a prefix exactly if it is the prefix and something behind it, and
/// that is what is left without the prefix.
pub proof fn law_prefix_and_rest_make_up_the_text(s: Seq<char>, prefix: Seq<char>, rest: Seq<char>)
    ensures
        after_prefix(prefix + rest, prefix) == Some(rest),
        after_prefix(s, prefix) matches Some(r) ==> s == prefix + r,
        after_prefix(s, prefix) is Some <==> begins_with(s, prefix),
        after_prefix(s, s) == Some(Seq::<char>::empty()),
{
    assert((prefix + rest).take(prefix.len() as int) =~= prefix);
    assert((prefix + rest).skip(prefix.len() as int) =~= rest);
    if begins_with(s, prefix) {
        assert(s =~= prefix + s.skip(prefix.len() as int));
    }
    assert(s.take(s.len() as int) =~= s);
    assert(s.skip(s.len() as int) =~= Seq::<char>::empty());
}

/// Beyond ASCII, white space is the next-line character, the no-break spaces U+00A0 and
/// U+202F, the Ogham space mark, the eleven spaces from U+2000 on, the line and
/// paragraph separators, and the mathematical and ideographic spaces.
pub proof fn law_wide_white_space(c: char)
    requires
        c as u32 >= 0x80,
    ensures
        ({
            let u = c as u32;
            is_space(c) <==> u == 0x85 || u == 0xA0 || u == 0x1680 || (0x1FFF < u && u < 0x200B)
                || u == 0x2028 || u == 0x2029 || u == 0x202F || u == 0x205F || u == 0x3000
        }),
{
}

} // verus!
