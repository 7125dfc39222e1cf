//! Verified text helpers shared by the document codec, path validation and
//! process-listing parsing: conversion between strings and character vectors,
//! decimal numerals, and substring search.

use vstd::prelude::*;

verus! {

/// The characters of `s`, in order.
pub fn to_char_vec(s: &str) -> (r: Vec<char>)
    ensures
        r@ == s@,
{
    let n = s.unicode_len();
    let mut r: Vec<char> = Vec::new();
    for i in 0..n
        invariant
            n == s@.len(),
            r@ =~= s@.subrange(0, i as int),
    {
        r.push(s.get_char(i));
    }
    proof {
        assert(r@ =~= s@);
    }
    r
}

/// Whether `c` is a decimal digit.
pub open spec fn spec_is_digit(c: char) -> bool {
    48 <= c as u32 <= 57
}

#[verifier::when_used_as_spec(spec_is_digit)]
pub fn is_digit(c: char) -> (r: bool)
    ensures
        r == spec_is_digit(c),
{
    let v = c as u32;
    48 <= v && v <= 57
}

/// Numeric value of a digit character.
pub open spec fn spec_digit_val(c: char) -> int {
    c as u32 - 48
}

/// The digit character for a value below ten.
pub open spec fn spec_digit_char(d: int) -> char {
    if d == 0 {
        '0'
    } else if d == 1 {
        '1'
    } else if d == 2 {
        '2'
    } else if d == 3 {
        '3'
    } else if d == 4 {
        '4'
    } else if d == 5 {
        '5'
    } else if d == 6 {
        '6'
    } else if d == 7 {
        '7'
    } else if d == 8 {
        '8'
    } else {
        '9'
    }
}

pub proof fn lemma_digit_char_is_digit(d: int)
    requires
        0 <= d < 10,
    ensures
        spec_is_digit(spec_digit_char(d)),
        spec_digit_val(spec_digit_char(d)) == d,
{
}

fn digit_char(d: u64) -> (c: char)
    requires
        d < 10,
    ensures
        c == spec_digit_char(d as int),
{
    match d {
        0 => '0',
        1 => '1',
        2 => '2',
        3 => '3',
        4 => '4',
        5 => '5',
        6 => '6',
        7 => '7',
        8 => '8',
        _ => '9',
    }
}

/// Decimal numeral of a natural number, most significant digit first, with no
/// leading zero (except for zero itself).
pub open spec fn spec_u64_dec(n: nat) -> Seq<char>
    decreases n,
{
    if n < 10 {
        seq![spec_digit_char(n as int)]
    } else {
        spec_u64_dec(n / 10) + seq![spec_digit_char((n % 10) as int)]
    }
}

/// Decimal numeral of an integer: a minus sign for negative values, then the
/// numeral of the magnitude.
pub open spec fn spec_i64_dec(v: int) -> Seq<char> {
    if v < 0 {
        seq!['-'] + spec_u64_dec((-v) as nat)
    } else {
        spec_u64_dec(v as nat)
    }
}

/// Every character of a decimal numeral is a digit, and the numeral is
/// nonempty.
pub proof fn lemma_u64_dec_digits(n: nat)
    ensures
        spec_u64_dec(n).len() >= 1,
        forall|i: int| 0 <= i < spec_u64_dec(n).len() ==> spec_is_digit(#[trigger] spec_u64_dec(n)[i]),
    decreases n,
{
    if n < 10 {
        lemma_digit_char_is_digit(n as int);
    } else {
        lemma_u64_dec_digits(n / 10);
        lemma_digit_char_is_digit((n % 10) as int);
    }
}

/// Value of a digit sequence read as a decimal numeral.
pub open spec fn spec_dec_val(s: Seq<char>) -> int
    decreases s.len(),
{
    if s.len() == 0 {
        0
    } else {
        spec_dec_val(s.drop_last()) * 10 + spec_digit_val(s.last())
    }
}

/// Reading back the numeral of `n` yields `n`: the decimal round trip.
pub proof fn lemma_u64_dec_val(n: nat)
    ensures
        spec_dec_val(spec_u64_dec(n)) == n,
    decreases n,
{
    if n < 10 {
        let s = spec_u64_dec(n);
        assert(s == seq![spec_digit_char(n as int)]);
        assert(s.last() == spec_digit_char(n as int));
        assert(s.drop_last() =~= Seq::<char>::empty());
        lemma_digit_char_is_digit(n as int);
        assert(spec_dec_val(s) == spec_dec_val(s.drop_last()) * 10 + spec_digit_val(s.last()));
    } else {
        lemma_u64_dec_val(n / 10);
        let s = spec_u64_dec(n);
        lemma_u64_dec_digits(n / 10);
        assert(s == spec_u64_dec(n / 10) + seq![spec_digit_char((n % 10) as int)]);
        assert(s.last() == spec_digit_char((n % 10) as int));
        assert(s.drop_last() =~= spec_u64_dec(n / 10));
        lemma_digit_char_is_digit((n % 10) as int);
        assert(n / 10 * 10 + n % 10 == n) by (nonlinear_arith);
    }
}

/// The value of a run of digits is not negative.
pub proof fn lemma_dec_val_nonneg(s: Seq<char>)
    requires
        forall|i: int| 0 <= i < s.len() ==> spec_is_digit(#[trigger] s[i]),
    ensures
        spec_dec_val(s) >= 0,
    decreases s.len(),
{
    if s.len() > 0 {
        lemma_dec_val_nonneg(s.drop_last());
        assert(spec_dec_val(s.drop_last()) * 10 >= 0) by (nonlinear_arith)
            requires
                spec_dec_val(s.drop_last()) >= 0,
        ;
    }
}

/// Extending a run of digits never shrinks its value.
pub proof fn lemma_dec_val_prefix_le(s: Seq<char>, i: int, j: int)
    requires
        0 <= i <= j <= s.len(),
        forall|x: int| 0 <= x < s.len() ==> spec_is_digit(#[trigger] s[x]),
    ensures
        spec_dec_val(s.subrange(0, i)) <= spec_dec_val(s.subrange(0, j)),
    decreases j - i,
{
    if i < j {
        lemma_dec_val_prefix_le(s, i, j - 1);
        let a = s.subrange(0, j - 1);
        let b = s.subrange(0, j);
        assert(b.drop_last() =~= a);
        assert(b.last() == s[j - 1]);
        assert(forall|x: int| 0 <= x < a.len() ==> spec_is_digit(#[trigger] a[x]));
        lemma_dec_val_nonneg(a);
        assert(spec_dec_val(a) * 10 >= spec_dec_val(a)) by (nonlinear_arith)
            requires
                spec_dec_val(a) >= 0,
        ;
        assert(spec_dec_val(b) == spec_dec_val(a) * 10 + spec_digit_val(s[j - 1]));
    }
}

/// Append the decimal numeral of `n` to `out`.
pub fn push_u64_dec(out: &mut Vec<char>, n: u64)
    ensures
        final(out)@ == old(out)@ + spec_u64_dec(n as nat),
{
    let ghost base = out@;
    let start = out.len();
    let mut m = n;
    if m == 0 {
        out.push('0');
        proof {
            assert(final(out)@ =~= base + spec_u64_dec(0));
        }
        return ;
    }
    while m > 0
        invariant
            out@.len() >= start == base.len(),
            out@.subrange(0, start as int) == base,
            m > 0 ==> spec_u64_dec(n as nat) == spec_u64_dec(m as nat) + out@.subrange(
                start as int,
                out@.len() as int,
            ),
            m == 0 ==> spec_u64_dec(n as nat) == out@.subrange(start as int, out@.len() as int),
        decreases m,
    {
        let ghost before = out@;
        let d = m % 10;
        out.insert(start, digit_char(d));
        proof {
            let tail_before = before.subrange(start as int, before.len() as int);
            let tail_after = out@.subrange(start as int, out@.len() as int);
            assert(tail_after =~= seq![spec_digit_char(d as int)] + tail_before);
            assert(out@.subrange(0, start as int) =~= base);
            if m >= 10 {
                assert(spec_u64_dec(m as nat) == spec_u64_dec((m / 10) as nat) + seq![
                    spec_digit_char((m % 10) as int),
                ]);
                assert(spec_u64_dec((m / 10) as nat) + tail_after =~= spec_u64_dec(m as nat)
                    + tail_before);
            } else {
                assert(spec_u64_dec(m as nat) == seq![spec_digit_char(d as int)]);
                assert(tail_after =~= spec_u64_dec(m as nat) + tail_before);
            }
        }
        m = m / 10;
    }
    proof {
        assert(final(out)@ =~= base + spec_u64_dec(n as nat));
    }
}

/// Append the decimal numeral of `v` to `out`.
pub fn push_i64_dec(out: &mut Vec<char>, v: i64)
    ensures
        final(out)@ == old(out)@ + spec_i64_dec(v as int),
{
    if v < 0 {
        out.push('-');
        let m: u64 = if v == i64::MIN {
            9223372036854775808u64
        } else {
            (-v) as u64
        };
        proof {
            assert(m as nat == (-(v as int)) as nat);
        }
        let ghost mid = out@;
        push_u64_dec(out, m);
        proof {
            assert(final(out)@ =~= old(out)@ + spec_i64_dec(v as int));
        }
    } else {
        push_u64_dec(out, v as u64);
    }
}

/// `needle` occurs in `hay` starting at position `i`.
pub open spec fn spec_occurs_at(hay: Seq<char>, needle: Seq<char>, i: int) -> bool {
    &&& 0 <= i
    &&& i + needle.len() <= hay.len()
    &&& hay.subrange(i, i + needle.len() as int) == needle
}

/// `needle` occurs somewhere in `hay`.
pub open spec fn spec_contains_seq(hay: Seq<char>, needle: Seq<char>) -> bool {
    exists|i: int| spec_occurs_at(hay, needle, i)
}

/// Whether `needle` occurs in `hay` starting at `i`.
fn occurs_at(hay: &Vec<char>, needle: &Vec<char>, i: usize) -> (r: bool)
    requires
        i + needle@.len() <= hay@.len(),
    ensures
        r == spec_occurs_at(hay@, needle@, i as int),
{
    let n = needle.len();
    let hlen = hay.len();
    for j in 0..n
        invariant
            n == needle@.len(),
            hlen == hay@.len(),
            i + n <= hlen,
            forall|k: int| 0 <= k < j ==> hay@[i + k] == needle@[k],
    {
        if hay[i + j] != needle[j] {
            proof {
                assert(hay@.subrange(i as int, i + needle@.len() as int)[j as int] == hay@[i + j]);
            }
            return false;
        }
    }
    proof {
        assert(hay@.subrange(i as int, i + needle@.len() as int) =~= needle@);
    }
    true
}

/// Whether `needle` occurs anywhere in `hay`.
pub fn contains_seq(hay: &Vec<char>, needle: &Vec<char>) -> (r: bool)
    ensures
        r == spec_contains_seq(hay@, needle@),
{
    if needle.len() > hay.len() {
        proof {
            assert(forall|i: int| !spec_occurs_at(hay@, needle@, i));
        }
        return false;
    }
    if needle.len() == 0 {
        proof {
            assert(hay@.subrange(0, 0) =~= needle@);
            assert(spec_occurs_at(hay@, needle@, 0));
        }
        return true;
    }
    let hlen = hay.len();
    let last = hlen - needle.len();
    let mut i: usize = 0;
    while i <= last
        invariant
            1 <= needle@.len() <= hay@.len(),
            hlen == hay@.len(),
            last == hay@.len() - needle@.len(),
            i <= last + 1,
            forall|k: int| 0 <= k < i ==> !spec_occurs_at(hay@, needle@, k),
        decreases last + 1 - i,
    {
        if occurs_at(hay, needle, i) {
            return true;
        }
        i = i + 1;
    }
    proof {
        assert(forall|k: int| spec_occurs_at(hay@, needle@, k) ==> 0 <= k <= last);
    }
    false
}

/// Relies on `String`'s `FromIterator<char>`: collecting characters yields
/// the string with exactly those characters in order.
#[verifier::external_body]
pub fn chars_to_string(v: &Vec<char>) -> (r: String)
    ensures
        r@ == v@,
{
    v.iter().collect()
}

/// Whether the characters of `a` equal those of `b`.
pub fn chars_eq(a: &Vec<char>, b: &Vec<char>) -> (r: bool)
    ensures
        r == (a@ == b@),
{
    if a.len() != b.len() {
        return false;
    }
    let n = a.len();
    for i in 0..n
        invariant
            n == a@.len() == b@.len(),
            forall|k: int| 0 <= k < i ==> a@[k] == b@[k],
    {
        if a[i] != b[i] {
            return false;
        }
    }
    proof {
        assert(a@ =~= b@);
    }
    true
}

/// Whether `prefix` is a prefix of `s`.
pub fn chars_start_with(s: &Vec<char>, prefix: &Vec<char>) -> (r: bool)
    ensures
        r == prefix@.is_prefix_of(s@),
{
    if prefix.len() > s.len() {
        return false;
    }
    occurs_at(s, prefix, 0)
}

/// An ASCII blank.
pub open spec fn spec_is_space(c: char) -> bool {
    c == ' ' || c == '\t' || c == '\n' || c == '\r'
}

/// First non-blank position at or after `i`.
pub open spec fn spec_trim_start(s: Seq<char>, i: int) -> int
    decreases s.len() - i,
{
    if 0 <= i < s.len() && spec_is_space(s[i]) {
        spec_trim_start(s, i + 1)
    } else {
        i
    }
}

/// Position after the last non-blank before `j`, stopping at `lo`.
pub open spec fn spec_trim_end(s: Seq<char>, j: int, lo: int) -> int
    decreases j,
{
    if lo < j <= s.len() && 0 < j && spec_is_space(s[j - 1]) {
        spec_trim_end(s, j - 1, lo)
    } else {
        j
    }
}

/// The string with leading and trailing blanks removed.
pub open spec fn spec_trim(s: Seq<char>) -> Seq<char> {
    let a = spec_trim_start(s, 0);
    let b = spec_trim_end(s, s.len() as int, a);
    s.subrange(a, b)
}

/// Whether `c` is an ASCII blank; mirrors [`spec_is_space`].
pub fn is_space(c: char) -> (r: bool)
    ensures
        r == spec_is_space(c),
{
    c == ' ' || c == '\t' || c == '\n' || c == '\r'
}

/// Position of the first comma at or after `i`, or the end of the text.
pub open spec fn spec_comma_end(s: Seq<char>, i: int) -> int
    decreases s.len() - i,
{
    if 0 <= i < s.len() && s[i] != ',' {
        spec_comma_end(s, i + 1)
    } else {
        i
    }
}

/// The comma-separated segments from position `i` on, each trimmed of
/// blanks. Splitting always yields at least one segment, as an empty text
/// yields one empty segment.
pub open spec fn spec_split_trimmed_from(s: Seq<char>, i: int) -> Seq<Seq<char>>
    decreases s.len() - i,
{
    if 0 <= i <= s.len() {
        let e = spec_comma_end(s, i);
        if i <= e <= s.len() {
            let seg = spec_trim(s.subrange(i, e));
            if e < s.len() {
                seq![seg] + spec_split_trimmed_from(s, e + 1)
            } else {
                seq![seg]
            }
        } else {
            Seq::empty()
        }
    } else {
        Seq::empty()
    }
}

/// The comma-separated segments of the whole text, each trimmed.
pub open spec fn spec_split_trimmed(s: Seq<char>) -> Seq<Seq<char>> {
    spec_split_trimmed_from(s, 0)
}

/// Find the end of the comma-free run starting at `i`; mirrors
/// [`spec_comma_end`].
fn comma_end(s: &Vec<char>, i: usize) -> (e: usize)
    requires
        i <= s@.len(),
    ensures
        e == spec_comma_end(s@, i as int),
        i <= e <= s@.len(),
{
    let n = s.len();
    let mut e: usize = i;
    while e < n && s[e] != ','
        invariant
            i <= e <= n,
            n == s@.len(),
            spec_comma_end(s@, i as int) == spec_comma_end(s@, e as int),
        decreases n - e,
    {
        e = e + 1;
    }
    e
}

/// The segment of `s` between `from` and `to`, trimmed of blanks.
fn trimmed_segment(s: &Vec<char>, from: usize, to: usize) -> (r: String)
    requires
        from <= to <= s@.len(),
    ensures
        r@ == spec_trim(s@.subrange(from as int, to as int)),
{
    let ghost seg = s@.subrange(from as int, to as int);
    let mut a: usize = from;
    while a < to && is_space(s[a])
        invariant
            from <= a <= to <= s@.len(),
            spec_trim_start(seg, 0) == spec_trim_start(seg, a - from),
            seg == s@.subrange(from as int, to as int),
        decreases to - a,
    {
        proof {
            assert(seg[a - from] == s@[a as int]);
        }
        a = a + 1;
    }
    proof {
        if a < to {
            assert(seg[a - from] == s@[a as int]);
        }
        assert(spec_trim_start(seg, a - from) == a - from);
    }
    let mut b: usize = to;
    while b > a && is_space(s[b - 1])
        invariant
            a <= b <= to,
            from <= a,
            to <= s@.len(),
            seg == s@.subrange(from as int, to as int),
            spec_trim_end(seg, to - from, a - from) == spec_trim_end(seg, b - from, a - from),
        decreases b,
    {
        proof {
            assert(seg[b - 1 - from] == s@[b - 1]);
        }
        b = b - 1;
    }
    proof {
        if b > a {
            assert(seg[b - 1 - from] == s@[b - 1]);
        }
        assert(spec_trim_end(seg, b - from, a - from) == b - from);
    }
    let mut out: Vec<char> = Vec::new();
    for j in a..b
        invariant
            from <= a <= b <= to <= s@.len(),
            out@ =~= s@.subrange(a as int, j as int),
    {
        out.push(s[j]);
        proof {
            assert(out@ =~= s@.subrange(a as int, j + 1));
        }
    }
    proof {
        assert(out@ =~= seg.subrange(a - from, b - from));
        assert(spec_trim(seg) == seg.subrange(a - from, b - from));
    }
    chars_to_string(&out)
}

/// Split on commas and trim each segment: how a comma-separated rule list
/// from the command line becomes individual rules.
pub fn split_trimmed(s: &str) -> (r: Vec<String>)
    ensures
        Seq::new(r@.len(), |i: int| r@[i]@) == spec_split_trimmed(s@),
{
    let cs = to_char_vec(s);
    let n = cs.len();
    let mut out: Vec<String> = Vec::new();
    let mut cur: usize = 0;
    loop
        invariant
            cur <= n,
            n == cs@.len(),
            cs@ == s@,
            spec_split_trimmed(s@) == Seq::new(out@.len(), |i: int| out@[i]@)
                + spec_split_trimmed_from(cs@, cur as int),
        decreases n - cur,
    {
        let e = comma_end(&cs, cur);
        let seg = trimmed_segment(&cs, cur, e);
        let ghost segs0 = Seq::new(out@.len(), |i: int| out@[i]@);
        out.push(seg);
        proof {
            assert(Seq::new(out@.len(), |i: int| out@[i]@) =~= segs0.push(
                spec_trim(cs@.subrange(cur as int, e as int)),
            ));
        }
        if e < n {
            proof {
                assert(segs0 + (seq![spec_trim(cs@.subrange(cur as int, e as int))]
                    + spec_split_trimmed_from(cs@, e + 1)) =~= Seq::new(
                    out@.len(),
                    |i: int| out@[i]@,
                ) + spec_split_trimmed_from(cs@, e + 1));
            }
            cur = e + 1;
        } else {
            proof {
                assert(segs0 + seq![spec_trim(cs@.subrange(cur as int, e as int))] =~= Seq::new(
                    out@.len(),
                    |i: int| out@[i]@,
                ));
                assert(spec_split_trimmed_from(cs@, cur as int) == seq![
                    spec_trim(cs@.subrange(cur as int, e as int)),
                ]);
            }
            return out;
        }
    }
}

} // verus!
