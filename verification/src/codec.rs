//! The persisted document format: a JSON rendering of the registry with a
//! fixed key order, one task per line. The encoder and the parser are both
//! specified as pure functions on character sequences, and parsing is proved
//! to invert encoding, so a registry written by one daemon instance is read
//! back identically by the next (see [`lemma_registry_round_trip`]).

use vstd::prelude::*;

use crate::strutil::{
    chars_eq, chars_to_string, is_digit, spec_dec_val, spec_digit_val, spec_i64_dec,
    spec_is_digit, spec_u64_dec, lemma_dec_val_prefix_le,
    lemma_u64_dec_digits, lemma_u64_dec_val, push_i64_dec, to_char_vec,
};
use crate::types::{
    DockerTask, DockerTaskView, ExecutionMode, NativeTask, NativeTaskView, ResourceLimits,
    ResourceLimitsView, TaskInfo, TaskInfoView, TaskStatus,
};
use crate::registry::{
    entries_view, ids_unique, reg_wf, ProcessRegistry, RegView, TaskEntry,
};

verus! {

// ---------------------------------------------------------------------------
// String escaping
// ---------------------------------------------------------------------------

/// A character that is written as itself inside a quoted string.
pub open spec fn spec_plain_char(c: char) -> bool {
    c != '"' && c != '\\' && c != '\n' && c != '\r' && c != '\t'
}

/// How one character is written inside a quoted string.
pub open spec fn esc_char(c: char) -> Seq<char> {
    if c == '"' {
        seq!['\\', '"']
    } else if c == '\\' {
        seq!['\\', '\\']
    } else if c == '\n' {
        seq!['\\', 'n']
    } else if c == '\r' {
        seq!['\\', 'r']
    } else if c == '\t' {
        seq!['\\', 't']
    } else {
        seq![c]
    }
}

/// The body of a quoted string: each character escaped.
pub open spec fn esc_str(s: Seq<char>) -> Seq<char>
    decreases s.len(),
{
    if s.len() == 0 {
        Seq::empty()
    } else {
        esc_char(s[0]) + esc_str(s.drop_first())
    }
}

/// A quoted string: the escaped body between double quotes.
pub open spec fn enc_string(s: Seq<char>) -> Seq<char> {
    seq!['"'] + esc_str(s) + seq!['"']
}

/// Escaping distributes over appending one character.
pub proof fn lemma_esc_snoc(s: Seq<char>, c: char)
    ensures
        esc_str(s.push(c)) == esc_str(s) + esc_char(c),
    decreases s.len(),
{
    if s.len() == 0 {
        assert(s.push(c)[0] == c);
        assert(s.push(c).drop_first() =~= Seq::<char>::empty());
        assert(esc_str(Seq::<char>::empty()) == Seq::<char>::empty());
        assert(esc_str(s.push(c)) == esc_char(c) + esc_str(s.push(c).drop_first()));
        assert(esc_str(s.push(c)) =~= esc_char(c));
        assert(esc_str(s) + esc_char(c) =~= esc_char(c));
    } else {
        assert(s.push(c)[0] == s[0]);
        assert(s.push(c).drop_first() =~= s.drop_first().push(c));
        lemma_esc_snoc(s.drop_first(), c);
        assert(esc_str(s.push(c)) == esc_char(s[0]) + (esc_str(s.drop_first()) + esc_char(c)));
        assert(esc_char(s[0]) + (esc_str(s.drop_first()) + esc_char(c)) =~= (esc_char(s[0])
            + esc_str(s.drop_first())) + esc_char(c));
    }
}

/// Append the quoted form of `x` to `out`.
fn push_enc_string(out: &mut Vec<char>, x: &str)
    ensures
        final(out)@ == old(out)@ + enc_string(x@),
{
    let ghost base = out@;
    out.push('"');
    let n = x.unicode_len();
    for i in 0..n
        invariant
            n == x@.len(),
            out@ == base + seq!['"'] + esc_str(x@.subrange(0, i as int)),
    {
        let c = x.get_char(i);
        proof {
            assert(x@.subrange(0, i as int).push(c) =~= x@.subrange(0, i + 1));
            lemma_esc_snoc(x@.subrange(0, i as int), c);
        }
        if c == '"' {
            out.push('\\');
            out.push('"');
        } else if c == '\\' {
            out.push('\\');
            out.push('\\');
        } else if c == '\n' {
            out.push('\\');
            out.push('n');
        } else if c == '\r' {
            out.push('\\');
            out.push('r');
        } else if c == '\t' {
            out.push('\\');
            out.push('t');
        } else {
            out.push(c);
        }
        proof {
            assert(out@ =~= base + seq!['"'] + esc_str(x@.subrange(0, i + 1)));
        }
    }
    proof {
        assert(x@.subrange(0, n as int) =~= x@);
    }
    out.push('"');
    proof {
        assert(final(out)@ =~= base + enc_string(x@));
    }
}

// ---------------------------------------------------------------------------
// Parsing: quoted strings
// ---------------------------------------------------------------------------

/// Decoded character for an escape introducer, if legal.
pub open spec fn unesc_char(c: char) -> Option<char> {
    if c == '"' {
        Some('"')
    } else if c == '\\' {
        Some('\\')
    } else if c == 'n' {
        Some('\n')
    } else if c == 'r' {
        Some('\r')
    } else if c == 't' {
        Some('\t')
    } else {
        None
    }
}

/// Parse the body of a quoted string from `pos` up to and past the closing
/// quote; yields the decoded characters and the position after the quote.
pub open spec fn sp_str_body(s: Seq<char>, pos: int) -> Option<(Seq<char>, int)>
    decreases s.len() - pos,
{
    if pos < 0 || pos >= s.len() {
        None
    } else if s[pos] == '"' {
        Some((Seq::empty(), pos + 1))
    } else if s[pos] == '\\' {
        if pos + 1 < s.len() {
            match unesc_char(s[pos + 1]) {
                Some(d) => match sp_str_body(s, pos + 2) {
                    Some((v, p)) => Some((seq![d] + v, p)),
                    None => None,
                },
                None => None,
            }
        } else {
            None
        }
    } else if s[pos] == '\n' || s[pos] == '\r' || s[pos] == '\t' {
        None
    } else {
        match sp_str_body(s, pos + 1) {
            Some((v, p)) => Some((seq![s[pos]] + v, p)),
            None => None,
        }
    }
}

/// Parse a quoted string starting at `pos`.
pub open spec fn sp_string(s: Seq<char>, pos: int) -> Option<(Seq<char>, int)> {
    if 0 <= pos < s.len() && s[pos] == '"' {
        sp_str_body(s, pos + 1)
    } else {
        None
    }
}

/// Parsing the body inverts escaping: on `esc_str(v)` followed by a closing
/// quote and anything at all, the parse yields `v` and stops past the quote.
pub proof fn lemma_sp_str_body_inverts(s: Seq<char>, pos: int, v: Seq<char>)
    requires
        0 <= pos,
        pos + esc_str(v).len() + 1 <= s.len(),
        s.subrange(pos, pos + esc_str(v).len() + 1) == esc_str(v) + seq!['"'],
    ensures
        sp_str_body(s, pos) == Some((v, pos + esc_str(v).len() + 1)),
    decreases v.len(),
{
    let e = esc_str(v);
    let sub = s.subrange(pos, pos + e.len() + 1);
    if v.len() == 0 {
        assert(e.len() == 0);
        assert(s[pos] == sub[0]);
        assert(sub[0] == '"');
    } else {
        let c = v[0];
        let e0 = esc_char(c);
        let rest = esc_str(v.drop_first());
        assert(e == e0 + rest);
        assert(s[pos] == sub[0]);
        assert(sub[0] == e0[0]);
        let pos2 = pos + e0.len();
        assert(s.subrange(pos2, pos2 + rest.len() + 1) =~= rest + seq!['"']) by {
            assert forall|j: int| 0 <= j < rest.len() + 1 implies s.subrange(
                pos2,
                pos2 + rest.len() + 1,
            )[j] == (rest + seq!['"'])[j] by {
                assert(s.subrange(pos2, pos2 + rest.len() + 1)[j] == s[pos2 + j]);
                assert(s[pos2 + j] == sub[e0.len() + j]);
                assert(sub[e0.len() + j] == (e + seq!['"'])[e0.len() + j]);
            }
        }
        lemma_sp_str_body_inverts(s, pos2, v.drop_first());
        if spec_plain_char(c) {
            assert(e0 == seq![c]);
            assert(s[pos] == c);
            assert(sp_str_body(s, pos) == Some((seq![c] + v.drop_first(), pos + e.len() + 1)));
            assert(seq![c] + v.drop_first() =~= v);
        } else {
            assert(e0.len() == 2);
            assert(e0[0] == '\\');
            assert(s[pos] == '\\');
            assert(s[pos + 1] == sub[1]);
            assert(sub[1] == e0[1]);
            assert(unesc_char(e0[1]) == Some(c));
            assert(sp_str_body(s, pos) == Some((seq![c] + v.drop_first(), pos + e.len() + 1)));
            assert(seq![c] + v.drop_first() =~= v);
        }
    }
}

/// Parsing a quoted string inverts `enc_string`, with any suffix after it.
pub proof fn lemma_sp_string_inverts(s: Seq<char>, pos: int, v: Seq<char>)
    requires
        0 <= pos,
        pos + enc_string(v).len() <= s.len(),
        s.subrange(pos, pos + enc_string(v).len()) == enc_string(v),
    ensures
        sp_string(s, pos) == Some((v, pos + enc_string(v).len())),
{
    let e = enc_string(v);
    assert(s[pos] == s.subrange(pos, pos + e.len())[0]);
    assert(e[0] == '"');
    assert(s.subrange(pos + 1, pos + 1 + esc_str(v).len() + 1) =~= esc_str(v) + seq!['"']) by {
        assert forall|j: int| 0 <= j < esc_str(v).len() + 1 implies s.subrange(
            pos + 1,
            pos + 1 + esc_str(v).len() + 1,
        )[j] == (esc_str(v) + seq!['"'])[j] by {
            assert(s.subrange(pos + 1, pos + 1 + esc_str(v).len() + 1)[j] == s[pos + 1 + j]);
            assert(s[pos + 1 + j] == s.subrange(pos, pos + e.len())[1 + j]);
            assert(e[1 + j] == (esc_str(v) + seq!['"'])[j]);
        }
    }
    lemma_sp_str_body_inverts(s, pos + 1, v);
}

/// Parse a quoted string at `pos`; mirrors [`sp_string`].
pub fn parse_string(s: &Vec<char>, pos: usize) -> (r: Option<(Vec<char>, usize)>)
    ensures
        match r {
            Some((v, p)) => sp_string(s@, pos as int) == Some((v@, p as int)) && pos < p <= s@.len(),
            None => sp_string(s@, pos as int) is None,
        },
{
    let n = s.len();
    if pos >= n || s[pos] != '"' {
        return None;
    }
    let mut out: Vec<char> = Vec::new();
    let mut i: usize = pos + 1;
    loop
        invariant
            pos + 1 <= i <= n,
            n == s@.len(),
            0 <= pos < n,
            s@[pos as int] == '"',
            sp_str_body(s@, pos + 1) == (match sp_str_body(s@, i as int) {
                Some((v, p)) => Some((out@ + v, p)),
                None => None::<(Seq<char>, int)>,
            }),
        decreases n - i,
    {
        if i >= n {
            return None;
        }
        let c = s[i];
        if c == '"' {
            proof {
                assert(sp_str_body(s@, i as int) == Some((Seq::<char>::empty(), i + 1)));
                assert(out@ + Seq::<char>::empty() =~= out@);
            }
            return Some((out, i + 1));
        } else if c == '\\' {
            if i + 1 >= n {
                return None;
            }
            let c2 = s[i + 1];
            let d: char = if c2 == '"' {
                '"'
            } else if c2 == '\\' {
                '\\'
            } else if c2 == 'n' {
                '\n'
            } else if c2 == 'r' {
                '\r'
            } else if c2 == 't' {
                '\t'
            } else {
                return None;
            };
            proof {
                assert(unesc_char(c2) == Some(d));
            }
            let ghost out0 = out@;
            out.push(d);
            proof {
                assert(sp_str_body(s@, pos + 1) == (match sp_str_body(s@, i + 2) {
                    Some((v, p)) => Some((out@ + v, p)),
                    None => None::<(Seq<char>, int)>,
                })) by {
                    if sp_str_body(s@, i + 2) is Some {
                        let (v, p) = sp_str_body(s@, i + 2)->0;
                        assert(out0 + (seq![d] + v) =~= out@ + v);
                    }
                }
            }
            i = i + 2;
        } else if c == '\n' || c == '\r' || c == '\t' {
            return None;
        } else {
            let ghost out0 = out@;
            out.push(c);
            proof {
                assert(sp_str_body(s@, pos + 1) == (match sp_str_body(s@, i + 1) {
                    Some((v, p)) => Some((out@ + v, p)),
                    None => None::<(Seq<char>, int)>,
                })) by {
                    if sp_str_body(s@, i + 1) is Some {
                        let (v, p) = sp_str_body(s@, i + 1)->0;
                        assert(out0 + (seq![c] + v) =~= out@ + v);
                    }
                }
            }
            i = i + 1;
        }
    }
}

// ---------------------------------------------------------------------------
// Parsing: decimal numbers
// ---------------------------------------------------------------------------

/// First position at or after `pos` that does not hold a digit.
pub open spec fn digits_end(s: Seq<char>, pos: int) -> int
    decreases s.len() - pos,
{
    if 0 <= pos < s.len() && spec_is_digit(s[pos]) {
        digits_end(s, pos + 1)
    } else {
        pos
    }
}

/// Parse an unsigned decimal numeral at `pos`: at least one digit, no
/// leading zero, value within `u64`.
pub open spec fn sp_u64(s: Seq<char>, pos: int) -> Option<(int, int)> {
    let e = digits_end(s, pos);
    if 0 <= pos < e && (s[pos] == '0' ==> e == pos + 1) && spec_dec_val(
        s.subrange(pos, e),
    ) <= u64::MAX {
        Some((spec_dec_val(s.subrange(pos, e)), e))
    } else {
        None
    }
}

/// Parse a signed decimal numeral at `pos`; a leading minus demands a
/// magnitude between 1 and `2^63`, a bare numeral must fit `i64`.
pub open spec fn sp_i64(s: Seq<char>, pos: int) -> Option<(int, int)> {
    if 0 <= pos < s.len() && s[pos] == '-' {
        match sp_u64(s, pos + 1) {
            Some((m, e)) => if 1 <= m <= 0x8000000000000000 {
                Some((-m, e))
            } else {
                None
            },
            None => None,
        }
    } else {
        match sp_u64(s, pos) {
            Some((m, e)) => if m <= i64::MAX {
                Some((m, e))
            } else {
                None
            },
            None => None,
        }
    }
}

/// Where positions `pos..e` hold digits and `e` does not, the digit run ends
/// at `e`.
pub proof fn lemma_digits_end_run(s: Seq<char>, pos: int, e: int)
    requires
        0 <= pos <= e <= s.len(),
        forall|j: int| pos <= j < e ==> spec_is_digit(#[trigger] s[j]),
        e == s.len() || !spec_is_digit(s[e]),
    ensures
        digits_end(s, pos) == e,
    decreases e - pos,
{
    if pos < e {
        lemma_digits_end_run(s, pos + 1, e);
    }
}

/// The numeral of a positive number never starts with a zero digit.
pub proof fn lemma_u64_dec_first(n: nat)
    requires
        n >= 1,
    ensures
        spec_u64_dec(n)[0] != '0',
    decreases n,
{
    if n < 10 {
    } else {
        lemma_u64_dec_first(n / 10);
        lemma_u64_dec_digits(n / 10);
        assert(spec_u64_dec(n)[0] == spec_u64_dec(n / 10)[0]);
    }
}

/// Parsing inverts the unsigned encoder: on the numeral of `n` followed by a
/// non-digit (or the end), the parse yields `n` and stops after the numeral.
pub proof fn lemma_sp_u64_inverts(s: Seq<char>, pos: int, n: u64)
    requires
        0 <= pos,
        pos + spec_u64_dec(n as nat).len() <= s.len(),
        s.subrange(pos, pos + spec_u64_dec(n as nat).len()) == spec_u64_dec(n as nat),
        pos + spec_u64_dec(n as nat).len() == s.len() || !spec_is_digit(
            s[pos + spec_u64_dec(n as nat).len()],
        ),
    ensures
        sp_u64(s, pos) == Some((n as int, pos + spec_u64_dec(n as nat).len())),
{
    let d = spec_u64_dec(n as nat);
    let e = pos + d.len();
    lemma_u64_dec_digits(n as nat);
    assert forall|j: int| pos <= j < e implies spec_is_digit(#[trigger] s[j]) by {
        assert(s[j] == s.subrange(pos, e)[j - pos]);
    }
    lemma_digits_end_run(s, pos, e);
    lemma_u64_dec_val(n as nat);
    assert(spec_dec_val(s.subrange(pos, e)) == n);
    if s[pos] == '0' {
        assert(d[0] == s.subrange(pos, e)[0]);
        if n >= 1 {
            lemma_u64_dec_first(n as nat);
        }
        assert(n == 0);
        assert(d.len() == 1);
    }
}

/// Parsing inverts the signed encoder in the same way.
pub proof fn lemma_sp_i64_inverts(s: Seq<char>, pos: int, v: i64)
    requires
        0 <= pos,
        pos + spec_i64_dec(v as int).len() <= s.len(),
        s.subrange(pos, pos + spec_i64_dec(v as int).len()) == spec_i64_dec(v as int),
        pos + spec_i64_dec(v as int).len() == s.len() || !spec_is_digit(
            s[pos + spec_i64_dec(v as int).len()],
        ),
    ensures
        sp_i64(s, pos) == Some((v as int, pos + spec_i64_dec(v as int).len())),
{
    let d = spec_i64_dec(v as int);
    if v >= 0 {
        assert(d == spec_u64_dec(v as nat));
        lemma_sp_u64_inverts(s, pos, v as u64);
        lemma_u64_dec_digits(v as nat);
        assert(s[pos] == s.subrange(pos, pos + d.len())[0]);
        assert(spec_is_digit(s[pos]));
        assert(s[pos] != '-');
    } else {
        let m: u64 = (-(v as int)) as u64;
        assert(d == seq!['-'] + spec_u64_dec(m as nat));
        assert(s[pos] == s.subrange(pos, pos + d.len())[0]);
        assert(s[pos] == '-');
        let dm = spec_u64_dec(m as nat);
        assert(s.subrange(pos + 1, pos + 1 + dm.len()) =~= dm) by {
            assert forall|j: int| 0 <= j < dm.len() implies s.subrange(
                pos + 1,
                pos + 1 + dm.len(),
            )[j] == dm[j] by {
                assert(s.subrange(pos + 1, pos + 1 + dm.len())[j] == s[pos + 1 + j]);
                assert(s[pos + 1 + j] == s.subrange(pos, pos + d.len())[1 + j]);
                assert(d[1 + j] == dm[j]);
            }
        }
        lemma_sp_u64_inverts(s, pos + 1, m);
        assert(1 <= m as int <= 0x8000000000000000);
    }
}

/// Parse an unsigned numeral at `pos`; mirrors [`sp_u64`].
pub fn parse_u64(s: &Vec<char>, pos: usize) -> (r: Option<(u64, usize)>)
    ensures
        match r {
            Some((v, p)) => sp_u64(s@, pos as int) == Some((v as int, p as int)) && pos < p
                <= s@.len(),
            None => sp_u64(s@, pos as int) is None,
        },
{
    let n = s.len();
    if pos >= n {
        proof {
            assert(digits_end(s@, pos as int) == pos);
        }
        return None;
    }
    let mut e: usize = pos;
    while e < n && is_digit(s[e])
        invariant
            pos <= e <= n,
            n == s@.len(),
            digits_end(s@, pos as int) == digits_end(s@, e as int),
            forall|j: int| pos <= j < e ==> spec_is_digit(#[trigger] s@[j]),
        decreases n - e,
    {
        e = e + 1;
    }
    proof {
        assert(digits_end(s@, e as int) == e);
    }
    if e == pos {
        return None;
    }
    if s[pos] == '0' && e != pos + 1 {
        return None;
    }
    let mut acc: u64 = 0;
    let mut j: usize = pos;
    while j < e
        invariant
            pos <= j <= e <= n,
            n == s@.len(),
            digits_end(s@, pos as int) == e,
            forall|x: int| pos <= x < e ==> spec_is_digit(#[trigger] s@[x]),
            acc as int == spec_dec_val(s@.subrange(pos as int, j as int)),
        decreases e - j,
    {
        let ghost run = s@.subrange(pos as int, e as int);
        proof {
            assert(forall|x: int| 0 <= x < run.len() ==> spec_is_digit(#[trigger] run[x]));
        }
        let c = s[j];
        let d: u64 = (c as u32 as u64) - 48;
        proof {
            assert(d == spec_digit_val(c));
            assert(s@.subrange(pos as int, j + 1).drop_last() =~= s@.subrange(
                pos as int,
                j as int,
            ));
            assert(s@.subrange(pos as int, j + 1).last() == c);
            assert(spec_dec_val(s@.subrange(pos as int, j + 1)) == acc * 10 + d);
        }
        if acc > (u64::MAX - d) / 10 {
            proof {
                assert(acc * 10 + d > u64::MAX) by (nonlinear_arith)
                    requires
                        acc > (u64::MAX - d) / 10,
                        d <= 9,
                ;
                assert(run.subrange(0, j + 1 - pos) =~= s@.subrange(pos as int, j + 1));
                assert(run.subrange(0, run.len() as int) =~= run);
                lemma_dec_val_prefix_le(run, j + 1 - pos, run.len() as int);
                assert(spec_dec_val(run) > u64::MAX);
            }
            return None;
        }
        acc = acc * 10 + d;
        j = j + 1;
    }
    proof {
        assert(s@.subrange(pos as int, e as int) =~= s@.subrange(pos as int, j as int));
    }
    Some((acc, e))
}

/// Parse a signed numeral at `pos`; mirrors [`sp_i64`].
pub fn parse_i64(s: &Vec<char>, pos: usize) -> (r: Option<(i64, usize)>)
    ensures
        match r {
            Some((v, p)) => sp_i64(s@, pos as int) == Some((v as int, p as int)) && pos < p
                <= s@.len(),
            None => sp_i64(s@, pos as int) is None,
        },
{
    let n = s.len();
    if pos < n && s[pos] == '-' {
        match parse_u64(s, pos + 1) {
            Some((m, p)) => {
                if m == 0 {
                    None
                } else if m <= 9223372036854775807u64 {
                    Some((-(m as i64), p))
                } else if m == 9223372036854775808u64 {
                    Some((i64::MIN, p))
                } else {
                    None
                }
            },
            None => None,
        }
    } else {
        match parse_u64(s, pos) {
            Some((m, p)) => {
                if m <= 9223372036854775807u64 {
                    Some((m as i64, p))
                } else {
                    None
                }
            },
            None => None,
        }
    }
}

// ---------------------------------------------------------------------------
// Parsing: fixed literals
// ---------------------------------------------------------------------------

/// Expect the exact characters of `lit` at `pos`.
pub open spec fn sp_lit(s: Seq<char>, pos: int, lit: Seq<char>) -> Option<int> {
    if 0 <= pos && pos + lit.len() <= s.len() && s.subrange(pos, pos + lit.len()) == lit {
        Some(pos + lit.len())
    } else {
        None
    }
}

/// Match the exact characters of `lit` at `pos`; mirrors [`sp_lit`].
pub fn expect_lit(s: &Vec<char>, pos: usize, lit: &str) -> (r: Option<usize>)
    ensures
        match r {
            Some(p) => sp_lit(s@, pos as int, lit@) == Some(p as int) && pos <= p <= s@.len(),
            None => sp_lit(s@, pos as int, lit@) is None,
        },
{
    let n = s.len();
    let m = lit.unicode_len();
    if pos > n || m > n - pos {
        return None;
    }
    for j in 0..m
        invariant
            pos + m <= n,
            n == s@.len(),
            m == lit@.len(),
            forall|x: int| 0 <= x < j ==> s@[pos + x] == lit@[x],
    {
        if s[pos + j] != lit.get_char(j) {
            proof {
                assert(s@.subrange(pos as int, pos + m)[j as int] == s@[pos + j]);
            }
            return None;
        }
    }
    proof {
        assert(s@.subrange(pos as int, pos + m) =~= lit@);
    }
    Some(pos + m)
}

// ---------------------------------------------------------------------------
// Encoding the document
// ---------------------------------------------------------------------------

/// An optional number: `null` or its numeral.
pub open spec fn enc_opt_i64(v: Option<int>) -> Seq<char> {
    match v {
        Some(t) => spec_i64_dec(t),
        None => "null"@,
    }
}

/// An optional string: `null` or its quoted form.
pub open spec fn enc_opt_string(v: Option<Seq<char>>) -> Seq<char> {
    match v {
        Some(x) => enc_string(x),
        None => "null"@,
    }
}

/// The execution mode as a quoted word.
pub open spec fn enc_mode(m: ExecutionMode) -> Seq<char> {
    match m {
        ExecutionMode::Native => enc_string("native"@),
        ExecutionMode::Docker => enc_string("docker"@),
    }
}

/// The status as its quoted label.
pub open spec fn enc_status(st: TaskStatus) -> Seq<char> {
    enc_string(st.spec_label())
}

/// The resource-limits object.
pub open spec fn enc_limits(l: ResourceLimitsView) -> Seq<char> {
    "{\"memory\":"@ + enc_string(l.memory) + ",\"cpu\":"@ + enc_string(l.cpu) + "}"@
}

/// The native-handle object.
pub open spec fn enc_native(x: NativeTaskView) -> Seq<char> {
    "{\"pid\":"@ + spec_i64_dec(x.pid) + ",\"pgid\":"@ + spec_i64_dec(x.pgid)
        + ",\"start_time\":"@ + enc_string(x.start_time) + ",\"env_tag\":"@ + enc_opt_string(
        x.env_tag,
    ) + "}"@
}

/// The container-handle object.
pub open spec fn enc_docker(x: DockerTaskView) -> Seq<char> {
    "{\"container_id\":"@ + enc_string(x.container_id) + ",\"container_name\":"@ + enc_string(
        x.container_name,
    ) + ",\"resource_limits\":"@ + enc_limits(x.resource_limits) + "}"@
}

/// An optional native handle: `null` or the object.
pub open spec fn enc_opt_native(v: Option<NativeTaskView>) -> Seq<char> {
    match v {
        Some(x) => enc_native(x),
        None => "null"@,
    }
}

/// An optional container handle: `null` or the object.
pub open spec fn enc_opt_docker(v: Option<DockerTaskView>) -> Seq<char> {
    match v {
        Some(x) => enc_docker(x),
        None => "null"@,
    }
}

/// The items of the rules array, comma separated.
pub open spec fn enc_rules_items(rs: Seq<Seq<char>>) -> Seq<char>
    decreases rs.len(),
{
    if rs.len() == 0 {
        Seq::empty()
    } else if rs.len() == 1 {
        enc_string(rs[0])
    } else {
        enc_string(rs[0]) + ","@ + enc_rules_items(rs.drop_first())
    }
}

/// The rules array.
pub open spec fn enc_rules(rs: Seq<Seq<char>>) -> Seq<char> {
    "["@ + enc_rules_items(rs) + "]"@
}

/// One task record as an object with every key present, in fixed order.
#[verifier::opaque]
pub open spec fn enc_task(t: TaskInfoView) -> Seq<char> {
    "{\"mode\":"@ + enc_mode(t.mode) + ",\"command\":"@ + enc_string(t.command) + ",\"status\":"@
        + enc_status(t.status) + ",\"started_at\":"@ + spec_i64_dec(t.started_at)
        + ",\"completed_at\":"@ + enc_opt_i64(t.completed_at) + ",\"native\":"@ + enc_opt_native(
        t.native,
    ) + ",\"docker\":"@ + enc_opt_docker(t.docker) + ",\"constitution_rules\":"@ + enc_rules(
        t.constitution_rules,
    ) + "}"@
}

/// One registry entry: quoted identifier, colon, record.
pub open spec fn enc_entry(p: (Seq<char>, TaskInfoView)) -> Seq<char> {
    enc_string(p.0) + ":"@ + enc_task(p.1)
}

/// The entries, one per line.
pub open spec fn enc_entries(r: RegView) -> Seq<char>
    decreases r.len(),
{
    if r.len() == 0 {
        Seq::empty()
    } else if r.len() == 1 {
        enc_entry(r[0])
    } else {
        enc_entry(r[0]) + ",\n"@ + enc_entries(r.drop_first())
    }
}

/// The whole document.
pub open spec fn enc_registry(r: RegView) -> Seq<char> {
    if r.len() == 0 {
        "{\"tasks\":{}}\n"@
    } else {
        "{\"tasks\":{\n"@ + enc_entries(r) + "\n}}\n"@
    }
}

/// Appending an item to the rules array appends its encoding.
pub proof fn lemma_enc_rules_items_snoc(rs: Seq<Seq<char>>, x: Seq<char>)
    ensures
        enc_rules_items(rs.push(x)) == (if rs.len() == 0 {
            enc_string(x)
        } else {
            enc_rules_items(rs) + ","@ + enc_string(x)
        }),
    decreases rs.len(),
{
    let p = rs.push(x);
    if rs.len() == 0 {
        assert(p.len() == 1);
        assert(p[0] == x);
    } else {
        assert(p[0] == rs[0]);
        assert(p.drop_first() =~= rs.drop_first().push(x));
        lemma_enc_rules_items_snoc(rs.drop_first(), x);
        if rs.len() == 1 {
            assert(rs.drop_first().len() == 0);
            assert(enc_rules_items(p) == enc_string(rs[0]) + ","@ + enc_string(x));
            assert(enc_rules_items(rs) == enc_string(rs[0]));
        } else {
            assert(enc_rules_items(p) == enc_string(rs[0]) + ","@ + (enc_rules_items(
                rs.drop_first(),
            ) + ","@ + enc_string(x)));
            assert(enc_rules_items(rs) + ","@ + enc_string(x) =~= enc_string(rs[0]) + ","@ + (
            enc_rules_items(rs.drop_first()) + ","@ + enc_string(x)));
        }
    }
}

/// Appending an entry to the sequence appends its encoding.
pub proof fn lemma_enc_entries_snoc(r: RegView, e: (Seq<char>, TaskInfoView))
    ensures
        enc_entries(r.push(e)) == (if r.len() == 0 {
            enc_entry(e)
        } else {
            enc_entries(r) + ",\n"@ + enc_entry(e)
        }),
    decreases r.len(),
{
    let p = r.push(e);
    if r.len() == 0 {
        assert(p.len() == 1);
        assert(p[0] == e);
    } else {
        assert(p[0] == r[0]);
        assert(p.drop_first() =~= r.drop_first().push(e));
        lemma_enc_entries_snoc(r.drop_first(), e);
        if r.len() == 1 {
            assert(r.drop_first().len() == 0);
            assert(enc_entries(p) == enc_entry(r[0]) + ",\n"@ + enc_entry(e));
            assert(enc_entries(r) == enc_entry(r[0]));
        } else {
            assert(enc_entries(p) == enc_entry(r[0]) + ",\n"@ + (enc_entries(r.drop_first())
                + ",\n"@ + enc_entry(e)));
            assert(enc_entries(r) + ",\n"@ + enc_entry(e) =~= enc_entry(r[0]) + ",\n"@ + (
            enc_entries(r.drop_first()) + ",\n"@ + enc_entry(e)));
        }
    }
}

/// Append a fixed literal.
fn push_lit(out: &mut Vec<char>, lit: &str)
    ensures
        final(out)@ == old(out)@ + lit@,
{
    let ghost base = out@;
    let m = lit.unicode_len();
    for j in 0..m
        invariant
            m == lit@.len(),
            out@ =~= base + lit@.subrange(0, j as int),
    {
        out.push(lit.get_char(j));
        proof {
            assert(out@ =~= base + lit@.subrange(0, j + 1));
        }
    }
    proof {
        assert(lit@.subrange(0, m as int) =~= lit@);
        assert(final(out)@ =~= base + lit@);
    }
}

/// Append `null` or the quoted string.
fn push_enc_opt_string(out: &mut Vec<char>, v: &Option<String>)
    ensures
        final(out)@ == old(out)@ + enc_opt_string(match v {
            Some(x) => Some(x@),
            None => None,
        }),
{
    match v {
        Some(x) => push_enc_string(out, x.as_str()),
        None => push_lit(out, "null"),
    }
}

/// Append `null` or the numeral.
fn push_enc_opt_i64(out: &mut Vec<char>, v: &Option<i64>)
    ensures
        final(out)@ == old(out)@ + enc_opt_i64(match v {
            Some(t) => Some(t as int),
            None => None,
        }),
{
    match v {
        Some(t) => push_i64_dec(out, *t),
        None => push_lit(out, "null"),
    }
}

/// Append the resource-limits object.
fn push_enc_limits(out: &mut Vec<char>, l: &ResourceLimits)
    ensures
        final(out)@ == old(out)@ + enc_limits(l@),
{
    push_lit(out, "{\"memory\":");
    push_enc_string(out, l.memory.as_str());
    push_lit(out, ",\"cpu\":");
    push_enc_string(out, l.cpu.as_str());
    push_lit(out, "}");
    proof {
        assert(final(out)@ =~= old(out)@ + enc_limits(l@));
    }
}

/// Append the native-handle object.
fn push_enc_native(out: &mut Vec<char>, x: &NativeTask)
    ensures
        final(out)@ == old(out)@ + enc_native(x@),
{
    push_lit(out, "{\"pid\":");
    push_i64_dec(out, x.pid as i64);
    push_lit(out, ",\"pgid\":");
    push_i64_dec(out, x.pgid as i64);
    push_lit(out, ",\"start_time\":");
    push_enc_string(out, x.start_time.as_str());
    push_lit(out, ",\"env_tag\":");
    push_enc_opt_string(out, &x.env_tag);
    push_lit(out, "}");
    proof {
        assert(final(out)@ =~= old(out)@ + enc_native(x@));
    }
}

/// Append the container-handle object.
fn push_enc_docker(out: &mut Vec<char>, x: &DockerTask)
    ensures
        final(out)@ == old(out)@ + enc_docker(x@),
{
    push_lit(out, "{\"container_id\":");
    push_enc_string(out, x.container_id.as_str());
    push_lit(out, ",\"container_name\":");
    push_enc_string(out, x.container_name.as_str());
    push_lit(out, ",\"resource_limits\":");
    push_enc_limits(out, &x.resource_limits);
    push_lit(out, "}");
    proof {
        assert(final(out)@ =~= old(out)@ + enc_docker(x@));
    }
}

/// Append the rules array.
fn push_enc_rules(out: &mut Vec<char>, rs: &Vec<String>)
    ensures
        final(out)@ == old(out)@ + enc_rules(Seq::new(rs@.len(), |i: int| rs@[i]@)),
{
    let ghost rsv = Seq::new(rs@.len(), |i: int| rs@[i]@);
    let ghost base = out@;
    push_lit(out, "[");
    let n = rs.len();
    for i in 0..n
        invariant
            n == rs@.len(),
            rsv == Seq::new(rs@.len(), |i: int| rs@[i]@),
            out@ =~= base + "["@ + enc_rules_items(rsv.subrange(0, i as int)),
    {
        if i > 0 {
            push_lit(out, ",");
        }
        push_enc_string(out, rs[i].as_str());
        proof {
            let pre = rsv.subrange(0, i as int);
            assert(pre.push(rsv[i as int]) =~= rsv.subrange(0, i + 1));
            lemma_enc_rules_items_snoc(pre, rsv[i as int]);
            assert(out@ =~= base + "["@ + enc_rules_items(rsv.subrange(0, i + 1)));
        }
    }
    push_lit(out, "]");
    proof {
        assert(rsv.subrange(0, n as int) =~= rsv);
        assert(final(out)@ =~= base + enc_rules(rsv));
    }
}

/// Append one task record.
#[verifier::rlimit(100)]
fn push_enc_task(out: &mut Vec<char>, t: &TaskInfo)
    ensures
        final(out)@ == old(out)@ + enc_task(t@),
{
    let ghost base = out@;
    push_lit(out, "{\"mode\":");
    let ghost a1 = "{\"mode\":"@;
    match t.mode {
        ExecutionMode::Native => push_enc_string(out, "native"),
        ExecutionMode::Docker => push_enc_string(out, "docker"),
    }
    let ghost a2 = a1 + enc_mode(t@.mode);
    proof {
        assert(out@ =~= base + a2);
    }
    push_lit(out, ",\"command\":");
    let ghost a3 = a2 + ",\"command\":"@;
    proof {
        assert(out@ =~= base + a3);
    }
    push_enc_string(out, t.command.as_str());
    let ghost a4 = a3 + enc_string(t@.command);
    proof {
        assert(out@ =~= base + a4);
    }
    push_lit(out, ",\"status\":");
    let ghost a5 = a4 + ",\"status\":"@;
    proof {
        assert(out@ =~= base + a5);
    }
    match t.status {
        TaskStatus::Running => push_enc_string(out, "running"),
        TaskStatus::Completed => push_enc_string(out, "completed"),
        TaskStatus::Failed => push_enc_string(out, "failed"),
        TaskStatus::Cancelled => push_enc_string(out, "cancelled"),
    }
    let ghost a6 = a5 + enc_status(t@.status);
    proof {
        assert(out@ =~= base + a6);
    }
    push_lit(out, ",\"started_at\":");
    let ghost a7 = a6 + ",\"started_at\":"@;
    proof {
        assert(out@ =~= base + a7);
    }
    push_i64_dec(out, t.started_at);
    let ghost a8 = a7 + spec_i64_dec(t@.started_at);
    proof {
        assert(out@ =~= base + a8);
    }
    push_lit(out, ",\"completed_at\":");
    let ghost a9 = a8 + ",\"completed_at\":"@;
    proof {
        assert(out@ =~= base + a9);
    }
    push_enc_opt_i64(out, &t.completed_at);
    let ghost a10 = a9 + enc_opt_i64(t@.completed_at);
    proof {
        assert(out@ =~= base + a10);
    }
    push_lit(out, ",\"native\":");
    let ghost a11 = a10 + ",\"native\":"@;
    proof {
        assert(out@ =~= base + a11);
    }
    match &t.native {
        Some(x) => push_enc_native(out, x),
        None => push_lit(out, "null"),
    }
    let ghost a12 = a11 + enc_opt_native(t@.native);
    proof {
        assert(out@ =~= base + a12);
    }
    push_lit(out, ",\"docker\":");
    let ghost a13 = a12 + ",\"docker\":"@;
    proof {
        assert(out@ =~= base + a13);
    }
    match &t.docker {
        Some(x) => push_enc_docker(out, x),
        None => push_lit(out, "null"),
    }
    let ghost a14 = a13 + enc_opt_docker(t@.docker);
    proof {
        assert(out@ =~= base + a14);
    }
    push_lit(out, ",\"constitution_rules\":");
    let ghost a15 = a14 + ",\"constitution_rules\":"@;
    proof {
        assert(out@ =~= base + a15);
    }
    push_enc_rules(out, &t.constitution_rules);
    let ghost a16 = a15 + enc_rules(t@.constitution_rules);
    proof {
        assert(out@ =~= base + a16);
    }
    push_lit(out, "}");
    let ghost a17 = a16 + "}"@;
    proof {
        assert(out@ =~= base + a17);
        reveal(enc_task);
        assert(a17 == enc_task(t@));
    }
}

/// Render the registry as its persisted document.
pub fn registry_to_json(r: &ProcessRegistry) -> (out: String)
    ensures
        out@ == enc_registry(r@),
{
    let mut buf: Vec<char> = Vec::new();
    let n = r.tasks.len();
    if n == 0 {
        push_lit(&mut buf, "{\"tasks\":{}}\n");
        proof {
            assert(buf@ =~= enc_registry(r@));
        }
    } else {
        push_lit(&mut buf, "{\"tasks\":{\n");
        for i in 0..n
            invariant
                n == r.tasks@.len(),
                n > 0,
                buf@ == "{\"tasks\":{\n"@ + enc_entries(r@.subrange(0, i as int)),
        {
            let ghost head = "{\"tasks\":{\n"@;
            let ghost pre = r@.subrange(0, i as int);
            let ghost sep: Seq<char> = if i > 0 {
                ",\n"@
            } else {
                Seq::empty()
            };
            if i > 0 {
                push_lit(&mut buf, ",\n");
            }
            proof {
                assert(buf@ =~= head + (enc_entries(pre) + sep));
            }
            let e = &r.tasks[i];
            push_enc_string(&mut buf, e.task_id.as_str());
            let ghost b1 = enc_entries(pre) + sep + enc_string(r@[i as int].0);
            proof {
                assert(buf@ =~= head + b1);
            }
            push_lit(&mut buf, ":");
            let ghost b2 = b1 + ":"@;
            proof {
                assert(buf@ =~= head + b2);
            }
            push_enc_task(&mut buf, &e.info);
            let ghost b3 = b2 + enc_task(r@[i as int].1);
            proof {
                assert(buf@ =~= head + b3);
                assert(pre.push(r@[i as int]) =~= r@.subrange(0, i + 1));
                lemma_enc_entries_snoc(pre, r@[i as int]);
                assert(b3 =~= enc_entries(pre) + sep + enc_entry(r@[i as int]));
                if i > 0 {
                    assert(enc_entries(r@.subrange(0, i + 1)) == enc_entries(pre) + ",\n"@
                        + enc_entry(r@[i as int]));
                    assert(b3 =~= enc_entries(r@.subrange(0, i + 1)));
                } else {
                    assert(enc_entries(r@.subrange(0, i + 1)) == enc_entry(r@[i as int]));
                    assert(b3 =~= enc_entries(r@.subrange(0, i + 1)));
                }
                assert(buf@ =~= head + enc_entries(r@.subrange(0, i + 1)));
            }
        }
        push_lit(&mut buf, "\n}}\n");
        proof {
            assert(r@.subrange(0, n as int) =~= r@);
            assert(buf@ =~= enc_registry(r@));
        }
    }
    chars_to_string(&buf)
}

// ---------------------------------------------------------------------------
// Parsing the document
// ---------------------------------------------------------------------------

/// Splitting a known subrange: where `pos..` holds `a + b`, the first part
/// holds `a` and the rest holds `b`.
pub proof fn lemma_subrange_split(s: Seq<char>, pos: int, a: Seq<char>, b: Seq<char>)
    requires
        0 <= pos,
        pos + a.len() + b.len() <= s.len(),
        s.subrange(pos, pos + a.len() + b.len()) == a + b,
    ensures
        s.subrange(pos, pos + a.len()) == a,
        s.subrange(pos + a.len(), pos + a.len() + b.len()) == b,
{
    let w = s.subrange(pos, pos + a.len() + b.len());
    assert(s.subrange(pos, pos + a.len()) =~= a) by {
        assert forall|j: int| 0 <= j < a.len() implies s.subrange(pos, pos + a.len())[j]
            == a[j] by {
            assert(s.subrange(pos, pos + a.len())[j] == s[pos + j]);
            assert(s[pos + j] == w[j]);
            assert(w[j] == (a + b)[j]);
        }
    }
    assert(s.subrange(pos + a.len(), pos + a.len() + b.len()) =~= b) by {
        assert forall|j: int| 0 <= j < b.len() implies s.subrange(
            pos + a.len(),
            pos + a.len() + b.len(),
        )[j] == b[j] by {
            assert(s.subrange(pos + a.len(), pos + a.len() + b.len())[j] == s[pos + a.len() + j]);
            assert(s[pos + a.len() + j] == w[a.len() + j]);
            assert(w[a.len() + j] == (a + b)[a.len() + j]);
        }
    }
}

/// Parse the execution mode: a quoted word.
pub open spec fn sp_mode(s: Seq<char>, pos: int) -> Option<(ExecutionMode, int)> {
    match sp_string(s, pos) {
        Some((x, p)) => if x == "native"@ {
            Some((ExecutionMode::Native, p))
        } else if x == "docker"@ {
            Some((ExecutionMode::Docker, p))
        } else {
            None
        },
        None => None,
    }
}

/// Parse the status: a quoted label.
pub open spec fn sp_status(s: Seq<char>, pos: int) -> Option<(TaskStatus, int)> {
    match sp_string(s, pos) {
        Some((x, p)) => if x == "running"@ {
            Some((TaskStatus::Running, p))
        } else if x == "completed"@ {
            Some((TaskStatus::Completed, p))
        } else if x == "failed"@ {
            Some((TaskStatus::Failed, p))
        } else if x == "cancelled"@ {
            Some((TaskStatus::Cancelled, p))
        } else {
            None
        },
        None => None,
    }
}

/// Parse `null` or a signed numeral.
pub open spec fn sp_opt_i64(s: Seq<char>, pos: int) -> Option<(Option<int>, int)> {
    match sp_lit(s, pos, "null"@) {
        Some(p) => Some((None, p)),
        None => match sp_i64(s, pos) {
            Some((v, p)) => Some((Some(v), p)),
            None => None,
        },
    }
}

/// Parse `null` or a quoted string.
pub open spec fn sp_opt_string(s: Seq<char>, pos: int) -> Option<(Option<Seq<char>>, int)> {
    match sp_lit(s, pos, "null"@) {
        Some(p) => Some((None, p)),
        None => match sp_string(s, pos) {
            Some((x, p)) => Some((Some(x), p)),
            None => None,
        },
    }
}

/// Parse the resource-limits object.
pub open spec fn sp_limits(s: Seq<char>, pos: int) -> Option<(ResourceLimitsView, int)> {
    match sp_lit(s, pos, "{\"memory\":"@) {
        Some(p1) => match sp_string(s, p1) {
            Some((mem, p2)) => match sp_lit(s, p2, ",\"cpu\":"@) {
                Some(p3) => match sp_string(s, p3) {
                    Some((cpu, p4)) => match sp_lit(s, p4, "}"@) {
                        Some(p5) => Some((ResourceLimitsView { memory: mem, cpu }, p5)),
                        None => None,
                    },
                    None => None,
                },
                None => None,
            },
            None => None,
        },
        None => None,
    }
}

/// Parse the native-handle object; the process identifiers must fit `i32`.
pub open spec fn sp_native(s: Seq<char>, pos: int) -> Option<(NativeTaskView, int)> {
    match sp_lit(s, pos, "{\"pid\":"@) {
        Some(p1) => match sp_i64(s, p1) {
            Some((pid, p2)) => match sp_lit(s, p2, ",\"pgid\":"@) {
                Some(p3) => match sp_i64(s, p3) {
                    Some((pgid, p4)) => match sp_lit(s, p4, ",\"start_time\":"@) {
                        Some(p5) => match sp_string(s, p5) {
                            Some((st, p6)) => match sp_lit(s, p6, ",\"env_tag\":"@) {
                                Some(p7) => match sp_opt_string(s, p7) {
                                    Some((tag, p8)) => match sp_lit(s, p8, "}"@) {
                                        Some(p9) => if (i32::MIN as int) <= pid <= (
                                        i32::MAX as int) && (i32::MIN as int) <= pgid <= (
                                        i32::MAX as int) {
                                            Some(
                                                (
                                                    NativeTaskView {
                                                        pid,
                                                        pgid,
                                                        start_time: st,
                                                        env_tag: tag,
                                                    },
                                                    p9,
                                                ),
                                            )
                                        } else {
                                            None
                                        },
                                        None => None,
                                    },
                                    None => None,
                                },
                                None => None,
                            },
                            None => None,
                        },
                        None => None,
                    },
                    None => None,
                },
                None => None,
            },
            None => None,
        },
        None => None,
    }
}

/// Parse the container-handle object.
pub open spec fn sp_docker(s: Seq<char>, pos: int) -> Option<(DockerTaskView, int)> {
    match sp_lit(s, pos, "{\"container_id\":"@) {
        Some(p1) => match sp_string(s, p1) {
            Some((id, p2)) => match sp_lit(s, p2, ",\"container_name\":"@) {
                Some(p3) => match sp_string(s, p3) {
                    Some((name, p4)) => match sp_lit(s, p4, ",\"resource_limits\":"@) {
                        Some(p5) => match sp_limits(s, p5) {
                            Some((lim, p6)) => match sp_lit(s, p6, "}"@) {
                                Some(p7) => Some(
                                    (
                                        DockerTaskView {
                                            container_id: id,
                                            container_name: name,
                                            resource_limits: lim,
                                        },
                                        p7,
                                    ),
                                ),
                                None => None,
                            },
                            None => None,
                        },
                        None => None,
                    },
                    None => None,
                },
                None => None,
            },
            None => None,
        },
        None => None,
    }
}

/// Parse `null` or a native handle.
pub open spec fn sp_opt_native(s: Seq<char>, pos: int) -> Option<(Option<NativeTaskView>, int)> {
    match sp_lit(s, pos, "null"@) {
        Some(p) => Some((None, p)),
        None => match sp_native(s, pos) {
            Some((x, p)) => Some((Some(x), p)),
            None => None,
        },
    }
}

/// Parse `null` or a container handle.
pub open spec fn sp_opt_docker(s: Seq<char>, pos: int) -> Option<(Option<DockerTaskView>, int)> {
    match sp_lit(s, pos, "null"@) {
        Some(p) => Some((None, p)),
        None => match sp_docker(s, pos) {
            Some((x, p)) => Some((Some(x), p)),
            None => None,
        },
    }
}

/// Parse the items of a nonempty rules array, up to and past the closing
/// bracket.
pub open spec fn sp_rules_items(s: Seq<char>, pos: int) -> Option<(Seq<Seq<char>>, int)>
    decreases s.len() - pos,
{
    match sp_string(s, pos) {
        Some((x, p)) => if pos < p <= s.len() {
            if p < s.len() && s[p] == ',' {
                match sp_rules_items(s, p + 1) {
                    Some((xs, p2)) => Some((seq![x] + xs, p2)),
                    None => None,
                }
            } else if p < s.len() && s[p] == ']' {
                Some((seq![x], p + 1))
            } else {
                None
            }
        } else {
            None
        },
        None => None,
    }
}

/// Parse the rules array.
pub open spec fn sp_rules(s: Seq<char>, pos: int) -> Option<(Seq<Seq<char>>, int)> {
    if 0 <= pos && pos + 1 < s.len() && s[pos] == '[' {
        if s[pos + 1] == ']' {
            Some((Seq::empty(), pos + 2))
        } else {
            sp_rules_items(s, pos + 1)
        }
    } else {
        None
    }
}

/// Parse one task record.
pub open spec fn sp_task(s: Seq<char>, pos: int) -> Option<(TaskInfoView, int)> {
    match sp_lit(s, pos, "{\"mode\":"@) {
        Some(p1) => match sp_mode(s, p1) {
            Some((mode, p2)) => match sp_lit(s, p2, ",\"command\":"@) {
                Some(p3) => match sp_string(s, p3) {
                    Some((cmd, p4)) => match sp_lit(s, p4, ",\"status\":"@) {
                        Some(p5) => match sp_status(s, p5) {
                            Some((st, p6)) => match sp_lit(s, p6, ",\"started_at\":"@) {
                                Some(p7) => match sp_i64(s, p7) {
                                    Some((sa, p8)) => match sp_lit(s, p8, ",\"completed_at\":"@) {
                                        Some(p9) => match sp_opt_i64(s, p9) {
                                            Some((ca, p10)) => match sp_lit(
                                                s,
                                                p10,
                                                ",\"native\":"@,
                                            ) {
                                                Some(p11) => match sp_opt_native(s, p11) {
                                                    Some((ntv, p12)) => match sp_lit(
                                                        s,
                                                        p12,
                                                        ",\"docker\":"@,
                                                    ) {
                                                        Some(p13) => match sp_opt_docker(s, p13) {
                                                            Some((dock, p14)) => match sp_lit(
                                                                s,
                                                                p14,
                                                                ",\"constitution_rules\":"@,
                                                            ) {
                                                                Some(p15) => match sp_rules(
                                                                    s,
                                                                    p15,
                                                                ) {
                                                                    Some((rules, p16)) => match sp_lit(
                                                                        s,
                                                                        p16,
                                                                        "}"@,
                                                                    ) {
                                                                        Some(p17) => Some(
                                                                            (
                                                                                TaskInfoView {
                                                                                    mode,
                                                                                    command: cmd,
                                                                                    status: st,
                                                                                    started_at: sa,
                                                                                    completed_at:
                                                                                        ca,
                                                                                    native: ntv,
                                                                                    docker: dock,
                                                                                    constitution_rules:
                                                                                        rules,
                                                                                },
                                                                                p17,
                                                                            ),
                                                                        ),
                                                                        None => None,
                                                                    },
                                                                    None => None,
                                                                },
                                                                None => None,
                                                            },
                                                            None => None,
                                                        },
                                                        None => None,
                                                    },
                                                    None => None,
                                                },
                                                None => None,
                                            },
                                            None => None,
                                        },
                                        None => None,
                                    },
                                    None => None,
                                },
                                None => None,
                            },
                            None => None,
                        },
                        None => None,
                    },
                    None => None,
                },
                None => None,
            },
            None => None,
        },
        None => None,
    }
}

/// Parse one registry entry.
pub open spec fn sp_entry(s: Seq<char>, pos: int) -> Option<((Seq<char>, TaskInfoView), int)> {
    match sp_string(s, pos) {
        Some((id, p)) => match sp_lit(s, p, ":"@) {
            Some(p2) => match sp_task(s, p2) {
                Some((t, p3)) => Some(((id, t), p3)),
                None => None,
            },
            None => None,
        },
        None => None,
    }
}

/// Parse one or more entries separated by a comma and newline.
pub open spec fn sp_entries(s: Seq<char>, pos: int) -> Option<(RegView, int)>
    decreases s.len() - pos,
{
    match sp_entry(s, pos) {
        Some((e, p)) => if pos < p <= s.len() {
            match sp_lit(s, p, ",\n"@) {
                Some(p2) => match sp_entries(s, p2) {
                    Some((es, p3)) => Some((seq![e] + es, p3)),
                    None => None,
                },
                None => Some((seq![e], p)),
            }
        } else {
            None
        },
        None => None,
    }
}

/// Parse a whole document.
pub open spec fn sp_registry(s: Seq<char>) -> Option<RegView> {
    match sp_lit(s, 0, "{\"tasks\":{"@) {
        Some(p) => match sp_lit(s, p, "}}\n"@) {
            Some(p2) => if p2 == s.len() {
                Some(Seq::empty())
            } else {
                None
            },
            None => match sp_lit(s, p, "\n"@) {
                Some(p2) => match sp_entries(s, p2) {
                    Some((es, p3)) => match sp_lit(s, p3, "\n}}\n"@) {
                        Some(p4) => if p4 == s.len() {
                            Some(es)
                        } else {
                            None
                        },
                        None => None,
                    },
                    None => None,
                },
                None => None,
            },
        },
        None => None,
    }
}

/// What loading accepts: a parse of the whole document that satisfies the
/// registry invariant. Anything else is a corrupt registry.
pub open spec fn spec_decode(s: Seq<char>) -> Option<RegView> {
    match sp_registry(s) {
        Some(r) => if reg_wf(r) {
            Some(r)
        } else {
            None
        },
        None => None,
    }
}

// ---------------------------------------------------------------------------
// Parsing inverts encoding
// ---------------------------------------------------------------------------

/// The status and mode labels are pairwise distinct words.
proof fn lemma_labels_distinct()
    ensures
        "native"@ != "docker"@,
        "running"@ != "completed"@,
        "running"@ != "failed"@,
        "running"@ != "cancelled"@,
        "completed"@ != "failed"@,
        "completed"@ != "cancelled"@,
        "failed"@ != "cancelled"@,
{
    reveal_strlit("native");
    reveal_strlit("docker");
    reveal_strlit("running");
    reveal_strlit("completed");
    reveal_strlit("failed");
    reveal_strlit("cancelled");
    assert(("native"@)[0] == 'n' && ("docker"@)[0] == 'd');
    assert(("running"@).len() == 7 && ("completed"@).len() == 9 && ("failed"@).len() == 6 && (
    "cancelled"@).len() == 9);
    assert(("completed"@)[1] == 'o' && ("cancelled"@)[1] == 'a');
}

/// Parsing inverts the mode encoder.
proof fn lemma_sp_mode_inverts(s: Seq<char>, pos: int, m: ExecutionMode)
    requires
        0 <= pos,
        pos + enc_mode(m).len() <= s.len(),
        s.subrange(pos, pos + enc_mode(m).len()) == enc_mode(m),
    ensures
        sp_mode(s, pos) == Some((m, pos + enc_mode(m).len())),
{
    lemma_labels_distinct();
    match m {
        ExecutionMode::Native => {
            lemma_sp_string_inverts(s, pos, "native"@);
        },
        ExecutionMode::Docker => {
            lemma_sp_string_inverts(s, pos, "docker"@);
        },
    }
}

/// Parsing inverts the status encoder.
proof fn lemma_sp_status_inverts(s: Seq<char>, pos: int, st: TaskStatus)
    requires
        0 <= pos,
        pos + enc_status(st).len() <= s.len(),
        s.subrange(pos, pos + enc_status(st).len()) == enc_status(st),
    ensures
        sp_status(s, pos) == Some((st, pos + enc_status(st).len())),
{
    lemma_labels_distinct();
    lemma_sp_string_inverts(s, pos, st.spec_label());
}

/// The first character of a signed numeral is a digit or the minus sign, so
/// it can never open the word `null`.
proof fn lemma_number_not_null(s: Seq<char>, pos: int, v: int)
    requires
        0 <= pos,
        -0x8000000000000000 <= v <= 0x7fffffffffffffff,
        pos + spec_i64_dec(v).len() <= s.len(),
        s.subrange(pos, pos + spec_i64_dec(v).len()) == spec_i64_dec(v),
    ensures
        sp_lit(s, pos, "null"@) is None,
{
    let d = spec_i64_dec(v);
    reveal_strlit("null");
    if v < 0 {
        assert(d[0] == '-');
    } else {
        lemma_u64_dec_digits(v as nat);
        assert(spec_is_digit(d[0]));
    }
    assert(s[pos] == s.subrange(pos, pos + d.len())[0]);
    if pos + 4 <= s.len() {
        assert(s.subrange(pos, pos + 4)[0] == s[pos]);
        assert(("null"@)[0] == 'n');
        assert(s.subrange(pos, pos + 4) != "null"@);
    }
}

/// Parsing inverts the optional-number encoder.
proof fn lemma_sp_opt_i64_inverts(s: Seq<char>, pos: int, v: Option<int>)
    requires
        0 <= pos,
        v is Some ==> -0x8000000000000000 <= v->0 <= 0x7fffffffffffffff,
        pos + enc_opt_i64(v).len() <= s.len(),
        s.subrange(pos, pos + enc_opt_i64(v).len()) == enc_opt_i64(v),
        pos + enc_opt_i64(v).len() < s.len(),
        !spec_is_digit(s[pos + enc_opt_i64(v).len()]),
    ensures
        sp_opt_i64(s, pos) == Some((v, pos + enc_opt_i64(v).len())),
{
    match v {
        None => {
            reveal_strlit("null");
            assert(enc_opt_i64(v) == "null"@);
            assert(sp_lit(s, pos, "null"@) == Some((pos + 4) as int)) by {
                assert(("null"@).len() == 4);
            }
        },
        Some(t) => {
            lemma_number_not_null(s, pos, t);
            let tt: i64 = t as i64;
            assert(tt as int == t);
            lemma_sp_i64_inverts(s, pos, tt);
        },
    }
}

/// Parsing inverts the optional-string encoder.
proof fn lemma_sp_opt_string_inverts(s: Seq<char>, pos: int, v: Option<Seq<char>>)
    requires
        0 <= pos,
        pos + enc_opt_string(v).len() <= s.len(),
        s.subrange(pos, pos + enc_opt_string(v).len()) == enc_opt_string(v),
    ensures
        sp_opt_string(s, pos) == Some((v, pos + enc_opt_string(v).len())),
{
    match v {
        None => {
            reveal_strlit("null");
            assert(enc_opt_string(v) == "null"@);
            assert(sp_lit(s, pos, "null"@) == Some((pos + 4) as int)) by {
                assert(("null"@).len() == 4);
            }
        },
        Some(x) => {
            let e = enc_string(x);
            assert(s[pos] == s.subrange(pos, pos + e.len())[0]);
            assert(e[0] == '"');
            reveal_strlit("null");
            if pos + 4 <= s.len() {
                assert(s.subrange(pos, pos + 4)[0] == s[pos]);
                assert(("null"@)[0] == 'n');
                assert(s.subrange(pos, pos + 4) != "null"@);
            }
            lemma_sp_string_inverts(s, pos, x);
        },
    }
}

/// Parsing inverts the resource-limits encoder.
proof fn lemma_sp_limits_inverts(s: Seq<char>, pos: int, l: ResourceLimitsView)
    requires
        0 <= pos,
        pos + enc_limits(l).len() <= s.len(),
        s.subrange(pos, pos + enc_limits(l).len()) == enc_limits(l),
    ensures
        sp_limits(s, pos) == Some((l, pos + enc_limits(l).len())),
{
    let l1 = "{\"memory\":"@;
    let e1 = enc_string(l.memory);
    let l2 = ",\"cpu\":"@;
    let e2 = enc_string(l.cpu);
    let l3 = "}"@;
    let c1 = l1;
    let c2 = c1 + e1;
    let c3 = c2 + l2;
    let c4 = c3 + e2;
    let c5 = c4 + l3;
    assert(c5 == enc_limits(l));
    lemma_subrange_split(s, pos, c4, l3);
    lemma_subrange_split(s, pos, c3, e2);
    lemma_subrange_split(s, pos, c2, l2);
    lemma_subrange_split(s, pos, c1, e1);
    assert(sp_lit(s, pos, l1) == Some(pos + l1.len()));
    lemma_sp_string_inverts(s, pos + c1.len(), l.memory);
    assert(sp_lit(s, pos + c2.len(), l2) == Some(pos + c3.len()));
    lemma_sp_string_inverts(s, pos + c3.len(), l.cpu);
    assert(sp_lit(s, pos + c4.len(), l3) == Some(pos + c5.len()));
}

/// Parsing inverts the native-handle encoder.
proof fn lemma_sp_native_inverts(s: Seq<char>, pos: int, x: NativeTaskView)
    requires
        0 <= pos,
        (i32::MIN as int) <= x.pid <= (i32::MAX as int),
        (i32::MIN as int) <= x.pgid <= (i32::MAX as int),
        pos + enc_native(x).len() <= s.len(),
        s.subrange(pos, pos + enc_native(x).len()) == enc_native(x),
    ensures
        sp_native(s, pos) == Some((x, pos + enc_native(x).len())),
{
    let l1 = "{\"pid\":"@;
    let d1 = spec_i64_dec(x.pid);
    let l2 = ",\"pgid\":"@;
    let d2 = spec_i64_dec(x.pgid);
    let l3 = ",\"start_time\":"@;
    let e1 = enc_string(x.start_time);
    let l4 = ",\"env_tag\":"@;
    let o1 = enc_opt_string(x.env_tag);
    let l5 = "}"@;
    let c1 = l1;
    let c2 = c1 + d1;
    let c3 = c2 + l2;
    let c4 = c3 + d2;
    let c5 = c4 + l3;
    let c6 = c5 + e1;
    let c7 = c6 + l4;
    let c8 = c7 + o1;
    let c9 = c8 + l5;
    assert(c9 == enc_native(x));
    lemma_subrange_split(s, pos, c8, l5);
    lemma_subrange_split(s, pos, c7, o1);
    lemma_subrange_split(s, pos, c6, l4);
    lemma_subrange_split(s, pos, c5, e1);
    lemma_subrange_split(s, pos, c4, l3);
    lemma_subrange_split(s, pos, c3, d2);
    lemma_subrange_split(s, pos, c2, l2);
    lemma_subrange_split(s, pos, c1, d1);
    reveal_strlit(",\"pgid\":");
    reveal_strlit(",\"start_time\":");
    assert(sp_lit(s, pos, l1) == Some(pos + c1.len()));
    assert(s[pos + c2.len()] == s.subrange(pos + c2.len(), pos + c3.len())[0]);
    assert(s[pos + c2.len()] == ',');
    assert(!spec_is_digit(',')) by {
        assert((',' as u32) == 44);
    }
    let pid: i64 = x.pid as i64;
    assert(pid as int == x.pid);
    lemma_sp_i64_inverts(s, pos + c1.len(), pid);
    assert(sp_lit(s, pos + c2.len(), l2) == Some(pos + c3.len()));
    assert(s[pos + c4.len()] == s.subrange(pos + c4.len(), pos + c5.len())[0]);
    assert(s[pos + c4.len()] == ',');
    let pgid: i64 = x.pgid as i64;
    assert(pgid as int == x.pgid);
    lemma_sp_i64_inverts(s, pos + c3.len(), pgid);
    assert(sp_lit(s, pos + c4.len(), l3) == Some(pos + c5.len()));
    lemma_sp_string_inverts(s, pos + c5.len(), x.start_time);
    assert(sp_lit(s, pos + c6.len(), l4) == Some(pos + c7.len()));
    lemma_sp_opt_string_inverts(s, pos + c7.len(), x.env_tag);
    assert(sp_lit(s, pos + c8.len(), l5) == Some(pos + c9.len()));
}

/// Parsing inverts the container-handle encoder.
proof fn lemma_sp_docker_inverts(s: Seq<char>, pos: int, x: DockerTaskView)
    requires
        0 <= pos,
        pos + enc_docker(x).len() <= s.len(),
        s.subrange(pos, pos + enc_docker(x).len()) == enc_docker(x),
    ensures
        sp_docker(s, pos) == Some((x, pos + enc_docker(x).len())),
{
    let l1 = "{\"container_id\":"@;
    let e1 = enc_string(x.container_id);
    let l2 = ",\"container_name\":"@;
    let e2 = enc_string(x.container_name);
    let l3 = ",\"resource_limits\":"@;
    let e3 = enc_limits(x.resource_limits);
    let l4 = "}"@;
    let c1 = l1;
    let c2 = c1 + e1;
    let c3 = c2 + l2;
    let c4 = c3 + e2;
    let c5 = c4 + l3;
    let c6 = c5 + e3;
    let c7 = c6 + l4;
    assert(c7 == enc_docker(x));
    lemma_subrange_split(s, pos, c6, l4);
    lemma_subrange_split(s, pos, c5, e3);
    lemma_subrange_split(s, pos, c4, l3);
    lemma_subrange_split(s, pos, c3, e2);
    lemma_subrange_split(s, pos, c2, l2);
    lemma_subrange_split(s, pos, c1, e1);
    assert(sp_lit(s, pos, l1) == Some(pos + c1.len()));
    lemma_sp_string_inverts(s, pos + c1.len(), x.container_id);
    assert(sp_lit(s, pos + c2.len(), l2) == Some(pos + c3.len()));
    lemma_sp_string_inverts(s, pos + c3.len(), x.container_name);
    assert(sp_lit(s, pos + c4.len(), l3) == Some(pos + c5.len()));
    lemma_sp_limits_inverts(s, pos + c5.len(), x.resource_limits);
    assert(sp_lit(s, pos + c6.len(), l4) == Some(pos + c7.len()));
}

/// Parsing inverts the optional native handle.
proof fn lemma_sp_opt_native_inverts(s: Seq<char>, pos: int, v: Option<NativeTaskView>)
    requires
        0 <= pos,
        (match v {
            Some(x) => (i32::MIN as int) <= x.pid <= (i32::MAX as int) && (i32::MIN as int)
                <= x.pgid <= (i32::MAX as int),
            None => true,
        }),
        pos + enc_opt_native(v).len() <= s.len(),
        s.subrange(pos, pos + enc_opt_native(v).len()) == enc_opt_native(v),
    ensures
        sp_opt_native(s, pos) == Some((v, pos + enc_opt_native(v).len())),
{
    match v {
        None => {
            reveal_strlit("null");
            assert(enc_opt_native(v) == "null"@);
            assert(sp_lit(s, pos, "null"@) == Some((pos + 4) as int)) by {
                assert(("null"@).len() == 4);
            }
        },
        Some(x) => {
            let e = enc_native(x);
            assert(s[pos] == s.subrange(pos, pos + e.len())[0]);
            reveal_strlit("{\"pid\":");
            assert(e[0] == '{');
            reveal_strlit("null");
            if pos + 4 <= s.len() {
                assert(s.subrange(pos, pos + 4)[0] == s[pos]);
                assert(("null"@)[0] == 'n');
                assert(s.subrange(pos, pos + 4) != "null"@);
            }
            lemma_sp_native_inverts(s, pos, x);
        },
    }
}

/// Parsing inverts the optional container handle.
proof fn lemma_sp_opt_docker_inverts(s: Seq<char>, pos: int, v: Option<DockerTaskView>)
    requires
        0 <= pos,
        pos + enc_opt_docker(v).len() <= s.len(),
        s.subrange(pos, pos + enc_opt_docker(v).len()) == enc_opt_docker(v),
    ensures
        sp_opt_docker(s, pos) == Some((v, pos + enc_opt_docker(v).len())),
{
    match v {
        None => {
            reveal_strlit("null");
            assert(enc_opt_docker(v) == "null"@);
            assert(sp_lit(s, pos, "null"@) == Some((pos + 4) as int)) by {
                assert(("null"@).len() == 4);
            }
        },
        Some(x) => {
            let e = enc_docker(x);
            assert(s[pos] == s.subrange(pos, pos + e.len())[0]);
            reveal_strlit("{\"container_id\":");
            assert(e[0] == '{');
            reveal_strlit("null");
            if pos + 4 <= s.len() {
                assert(s.subrange(pos, pos + 4)[0] == s[pos]);
                assert(("null"@)[0] == 'n');
                assert(s.subrange(pos, pos + 4) != "null"@);
            }
            lemma_sp_docker_inverts(s, pos, x);
        },
    }
}

/// Parsing inverts a nonempty rules list followed by the closing bracket.
proof fn lemma_sp_rules_items_inverts(s: Seq<char>, pos: int, rs: Seq<Seq<char>>)
    requires
        0 <= pos,
        rs.len() >= 1,
        pos + enc_rules_items(rs).len() + 1 <= s.len(),
        s.subrange(pos, pos + enc_rules_items(rs).len() + 1) == enc_rules_items(rs) + seq![']'],
    ensures
        sp_rules_items(s, pos) == Some((rs, pos + enc_rules_items(rs).len() + 1)),
    decreases rs.len(),
{
    if rs.len() == 1 {
        let e = enc_string(rs[0]);
        assert(enc_rules_items(rs) == e);
        lemma_subrange_split(s, pos, e, seq![']']);
        lemma_sp_string_inverts(s, pos, rs[0]);
        let p = pos + e.len();
        assert(s[p] == s.subrange(p, p + 1)[0]);
        assert(s[p] == ']');
        assert(seq![rs[0]] =~= rs);
    } else {
        let e = enc_string(rs[0]);
        let rest = enc_rules_items(rs.drop_first());
        assert(enc_rules_items(rs) == e + ","@ + rest);
        let w = enc_rules_items(rs) + seq![']'];
        let c1 = e;
        let c2 = c1 + ","@;
        assert(w =~= c2 + (rest + seq![']']));
        lemma_subrange_split(s, pos, c2, rest + seq![']']);
        lemma_subrange_split(s, pos, c1, ","@);
        lemma_sp_string_inverts(s, pos, rs[0]);
        let p = pos + e.len();
        reveal_strlit(",");
        assert(s[p] == s.subrange(p, p + 1)[0]);
        assert(s.subrange(p, pos + c2.len()) == ","@);
        assert(("," @).len() == 1);
        assert(s[p] == (","@)[0]);
        assert(s[p] == ',');
        lemma_sp_rules_items_inverts(s, p + 1, rs.drop_first());
        assert(seq![rs[0]] + rs.drop_first() =~= rs);
    }
}

/// Parsing inverts the rules-array encoder.
proof fn lemma_sp_rules_inverts(s: Seq<char>, pos: int, rs: Seq<Seq<char>>)
    requires
        0 <= pos,
        pos + enc_rules(rs).len() <= s.len(),
        s.subrange(pos, pos + enc_rules(rs).len()) == enc_rules(rs),
    ensures
        sp_rules(s, pos) == Some((rs, pos + enc_rules(rs).len())),
{
    let w = enc_rules(rs);
    reveal_strlit("[");
    reveal_strlit("]");
    assert(("["@).len() == 1);
    assert(w[0] == ("["@)[0]);
    assert(s[pos] == s.subrange(pos, pos + w.len())[0]);
    assert(s[pos] == '[');
    if rs.len() == 0 {
        assert(enc_rules_items(rs).len() == 0);
        assert(w.len() == 2);
        assert(s[pos + 1] == s.subrange(pos, pos + w.len())[1]);
        assert(w[1] == (("["@ + Seq::<char>::empty()) + "]"@)[1]);
        assert(s[pos + 1] == ']');
        assert(rs =~= Seq::<Seq<char>>::empty());
    } else {
        let items = enc_rules_items(rs);
        assert(w =~= "["@ + (items + seq![']'])) by {
            assert(seq![']'] =~= "]"@);
        }
        lemma_subrange_split(s, pos, "["@, items + seq![']']);
        lemma_sp_rules_items_inverts(s, pos + 1, rs);
        // a nonempty list opens with a quote, not the closing bracket
        let e0 = enc_string(rs[0]);
        assert(items == (if rs.len() == 1 {
            e0
        } else {
            e0 + ","@ + enc_rules_items(rs.drop_first())
        }));
        assert(items[0] == e0[0]);
        assert(e0[0] == '"');
        assert(s[pos + 1] == s.subrange(pos + 1, pos + 1 + items.len() + 1)[0]);
        assert(s[pos + 1] == '"');
    }
}

/// Parsing inverts the task encoder.
#[verifier::rlimit(100)]
proof fn lemma_sp_task_inverts(s: Seq<char>, pos: int, t: TaskInfoView)
    requires
        0 <= pos,
        t.wf(),
        pos + enc_task(t).len() <= s.len(),
        s.subrange(pos, pos + enc_task(t).len()) == enc_task(t),
    ensures
        sp_task(s, pos) == Some((t, pos + enc_task(t).len())),
{
    reveal(enc_task);
    let l1 = "{\"mode\":"@;
    let e1 = enc_mode(t.mode);
    let l2 = ",\"command\":"@;
    let e2 = enc_string(t.command);
    let l3 = ",\"status\":"@;
    let e3 = enc_status(t.status);
    let l4 = ",\"started_at\":"@;
    let e4 = spec_i64_dec(t.started_at);
    let l5 = ",\"completed_at\":"@;
    let e5 = enc_opt_i64(t.completed_at);
    let l6 = ",\"native\":"@;
    let e6 = enc_opt_native(t.native);
    let l7 = ",\"docker\":"@;
    let e7 = enc_opt_docker(t.docker);
    let l8 = ",\"constitution_rules\":"@;
    let e8 = enc_rules(t.constitution_rules);
    let l9 = "}"@;
    let c1 = l1;
    let c2 = c1 + e1;
    let c3 = c2 + l2;
    let c4 = c3 + e2;
    let c5 = c4 + l3;
    let c6 = c5 + e3;
    let c7 = c6 + l4;
    let c8 = c7 + e4;
    let c9 = c8 + l5;
    let c10 = c9 + e5;
    let c11 = c10 + l6;
    let c12 = c11 + e6;
    let c13 = c12 + l7;
    let c14 = c13 + e7;
    let c15 = c14 + l8;
    let c16 = c15 + e8;
    let c17 = c16 + l9;
    assert(c17 == enc_task(t));
    lemma_subrange_split(s, pos, c16, l9);
    lemma_subrange_split(s, pos, c15, e8);
    lemma_subrange_split(s, pos, c14, l8);
    lemma_subrange_split(s, pos, c13, e7);
    lemma_subrange_split(s, pos, c12, l7);
    lemma_subrange_split(s, pos, c11, e6);
    lemma_subrange_split(s, pos, c10, l6);
    lemma_subrange_split(s, pos, c9, e5);
    lemma_subrange_split(s, pos, c8, l5);
    lemma_subrange_split(s, pos, c7, e4);
    lemma_subrange_split(s, pos, c6, l4);
    lemma_subrange_split(s, pos, c5, e3);
    lemma_subrange_split(s, pos, c4, l3);
    lemma_subrange_split(s, pos, c3, e2);
    lemma_subrange_split(s, pos, c2, l2);
    lemma_subrange_split(s, pos, c1, e1);
    assert(sp_lit(s, pos, l1) == Some(pos + c1.len()));
    lemma_sp_mode_inverts(s, pos + c1.len(), t.mode);
    assert(sp_lit(s, pos + c2.len(), l2) == Some(pos + c3.len()));
    lemma_sp_string_inverts(s, pos + c3.len(), t.command);
    assert(sp_lit(s, pos + c4.len(), l3) == Some(pos + c5.len()));
    lemma_sp_status_inverts(s, pos + c5.len(), t.status);
    assert(sp_lit(s, pos + c6.len(), l4) == Some(pos + c7.len()));
    reveal_strlit(",\"completed_at\":");
    assert(s[pos + c8.len()] == s.subrange(pos + c8.len(), pos + c9.len())[0]);
    assert(s[pos + c8.len()] == ',');
    assert(!spec_is_digit(',')) by {
        assert((',' as u32) == 44);
    }
    let sa: i64 = t.started_at as i64;
    assert(sa as int == t.started_at);
    lemma_sp_i64_inverts(s, pos + c7.len(), sa);
    assert(sp_lit(s, pos + c8.len(), l5) == Some(pos + c9.len()));
    reveal_strlit(",\"native\":");
    assert(s[pos + c10.len()] == s.subrange(pos + c10.len(), pos + c11.len())[0]);
    assert(s[pos + c10.len()] == ',');
    lemma_sp_opt_i64_inverts(s, pos + c9.len(), t.completed_at);
    assert(sp_lit(s, pos + c10.len(), l6) == Some(pos + c11.len()));
    lemma_sp_opt_native_inverts(s, pos + c11.len(), t.native);
    assert(sp_lit(s, pos + c12.len(), l7) == Some(pos + c13.len()));
    lemma_sp_opt_docker_inverts(s, pos + c13.len(), t.docker);
    assert(sp_lit(s, pos + c14.len(), l8) == Some(pos + c15.len()));
    lemma_sp_rules_inverts(s, pos + c15.len(), t.constitution_rules);
    assert(sp_lit(s, pos + c16.len(), l9) == Some(pos + c17.len()));
    assert(sp_task(s, pos) == Some(
        (
            TaskInfoView {
                mode: t.mode,
                command: t.command,
                status: t.status,
                started_at: t.started_at,
                completed_at: t.completed_at,
                native: t.native,
                docker: t.docker,
                constitution_rules: t.constitution_rules,
            },
            pos + c17.len(),
        ),
    ));
}

/// Parsing inverts the entry encoder.
proof fn lemma_sp_entry_inverts(s: Seq<char>, pos: int, e: (Seq<char>, TaskInfoView))
    requires
        0 <= pos,
        e.1.wf(),
        pos + enc_entry(e).len() <= s.len(),
        s.subrange(pos, pos + enc_entry(e).len()) == enc_entry(e),
    ensures
        sp_entry(s, pos) == Some((e, pos + enc_entry(e).len())),
{
    let e1 = enc_string(e.0);
    let l1 = ":"@;
    let e2 = enc_task(e.1);
    let c1 = e1;
    let c2 = c1 + l1;
    let c3 = c2 + e2;
    assert(c3 == enc_entry(e));
    lemma_subrange_split(s, pos, c2, e2);
    lemma_subrange_split(s, pos, c1, l1);
    lemma_sp_string_inverts(s, pos, e.0);
    assert(sp_lit(s, pos + c1.len(), l1) == Some(pos + c2.len()));
    lemma_sp_task_inverts(s, pos + c2.len(), e.1);
}

/// Parsing inverts the entry-sequence encoder, given that the character
/// after the entries is not a comma.
proof fn lemma_sp_entries_inverts(s: Seq<char>, pos: int, r: RegView)
    requires
        0 <= pos,
        r.len() >= 1,
        forall|i: int| 0 <= i < r.len() ==> (#[trigger] r[i]).1.wf(),
        pos + enc_entries(r).len() < s.len(),
        s.subrange(pos, pos + enc_entries(r).len()) == enc_entries(r),
        s[pos + enc_entries(r).len()] != ',',
    ensures
        sp_entries(s, pos) == Some((r, pos + enc_entries(r).len())),
    decreases r.len(),
{
    reveal_strlit(",\n");
    if r.len() == 1 {
        assert(enc_entries(r) == enc_entry(r[0]));
        lemma_sp_entry_inverts(s, pos, r[0]);
        let p = pos + enc_entry(r[0]).len();
        assert(sp_lit(s, p, ",\n"@) is None) by {
            assert((",\n"@).len() == 2);
            if p + 2 <= s.len() {
                assert(s.subrange(p, p + 2)[0] == s[p]);
                assert((",\n"@)[0] == ',');
                assert(s.subrange(p, p + 2) != ",\n"@);
            }
        }
        assert(seq![r[0]] =~= r);
    } else {
        let e0 = enc_entry(r[0]);
        let rest = enc_entries(r.drop_first());
        assert(enc_entries(r) == e0 + ",\n"@ + rest);
        let c1 = e0;
        let c2 = c1 + ",\n"@;
        assert(enc_entries(r) =~= c2 + rest);
        lemma_subrange_split(s, pos, c2, rest);
        lemma_subrange_split(s, pos, c1, ",\n"@);
        lemma_sp_entry_inverts(s, pos, r[0]);
        let p = pos + e0.len();
        assert(sp_lit(s, p, ",\n"@) == Some(pos + c2.len()));
        assert forall|i: int| 0 <= i < r.drop_first().len()
            implies (#[trigger] r.drop_first()[i]).1.wf() by {
            assert(r.drop_first()[i] == r[i + 1]);
        }
        lemma_sp_entries_inverts(s, pos + c2.len(), r.drop_first());
        assert(seq![r[0]] + r.drop_first() =~= r);
    }
}

/// Parsing inverts the document encoder.
pub proof fn lemma_sp_registry_inverts(r: RegView)
    requires
        reg_wf(r),
    ensures
        sp_registry(enc_registry(r)) == Some(r),
{
    let s = enc_registry(r);
    reveal_strlit("{\"tasks\":{");
    reveal_strlit("{\"tasks\":{}}\n");
    reveal_strlit("{\"tasks\":{\n");
    reveal_strlit("}}\n");
    reveal_strlit("\n");
    reveal_strlit("\n}}\n");
    if r.len() == 0 {
        assert(s == "{\"tasks\":{}}\n"@);
        assert(s.len() == 13);
        assert(s.subrange(0, 10) =~= "{\"tasks\":{"@);
        assert(sp_lit(s, 0, "{\"tasks\":{"@) == Some(10int));
        assert(s.subrange(10, 13) =~= "}}\n"@);
        assert(sp_lit(s, 10, "}}\n"@) == Some(13int));
        assert(r =~= Seq::<(Seq<char>, TaskInfoView)>::empty());
    } else {
        let head = "{\"tasks\":{\n"@;
        let body = enc_entries(r);
        let tail = "\n}}\n"@;
        assert(head.len() == 11);
        assert(tail.len() == 4);
        assert(s == head + body + tail);
        assert(s =~= head + (body + tail));
        assert(s.subrange(0, s.len() as int) =~= s);
        lemma_subrange_split(s, 0, head, body + tail);
        lemma_subrange_split(s, 11, body, tail);
        assert(s.subrange(0, 10) =~= "{\"tasks\":{"@) by {
            assert forall|j: int| 0 <= j < 10 implies s.subrange(0, 10)[j]
                == ("{\"tasks\":{"@)[j] by {
                assert(s.subrange(0, 10)[j] == s[j]);
                assert(s[j] == s.subrange(0, 11)[j]);
                assert(head[j] == ("{\"tasks\":{"@)[j]);
            }
        }
        assert(sp_lit(s, 0, "{\"tasks\":{"@) == Some(10int));
        assert(s[10] == s.subrange(0, 11)[10]);
        assert(s[10] == '\n');
        assert(sp_lit(s, 10, "}}\n"@) is None) by {
            if 13 <= s.len() {
                assert(s.subrange(10, 13)[0] == s[10]);
                assert(("}}\n"@)[0] == '}');
                assert(s.subrange(10, 13) != "}}\n"@);
            }
        }
        assert(s.subrange(10, 11) =~= "\n"@);
        assert(sp_lit(s, 10, "\n"@) == Some(11int));
        let bl = body.len() as int;
        assert(s[11 + bl] == s.subrange(11 + bl, 11 + bl + 4)[0]);
        assert(s[11 + bl] == '\n');
        assert forall|i: int| 0 <= i < r.len() implies (#[trigger] r[i]).1.wf() by {}
        lemma_sp_entries_inverts(s, 11, r);
        assert(sp_lit(s, 11 + bl, "\n}}\n"@) == Some(11 + bl + 4));
        assert(11 + bl + 4 == s.len());
    }
}

/// Law: the registry round trip. Rendering a well-formed registry and
/// loading the rendered document yields exactly the same entries.
pub proof fn lemma_registry_round_trip(r: RegView)
    requires
        reg_wf(r),
    ensures
        spec_decode(enc_registry(r)) == Some(r),
{
    lemma_sp_registry_inverts(r);
}

// ---------------------------------------------------------------------------
// The executable parser
// ---------------------------------------------------------------------------

/// Parse the execution mode; mirrors [`sp_mode`].
fn parse_mode(s: &Vec<char>, pos: usize) -> (r: Option<(ExecutionMode, usize)>)
    ensures
        match r {
            Some((m, p)) => sp_mode(s@, pos as int) == Some((m, p as int)) && pos < p <= s@.len(),
            None => sp_mode(s@, pos as int) is None,
        },
{
    match parse_string(s, pos) {
        Some((x, p)) => {
            if chars_eq(&x, &to_char_vec("native")) {
                Some((ExecutionMode::Native, p))
            } else if chars_eq(&x, &to_char_vec("docker")) {
                Some((ExecutionMode::Docker, p))
            } else {
                None
            }
        },
        None => None,
    }
}

/// Parse the status; mirrors [`sp_status`].
fn parse_status(s: &Vec<char>, pos: usize) -> (r: Option<(TaskStatus, usize)>)
    ensures
        match r {
            Some((st, p)) => sp_status(s@, pos as int) == Some((st, p as int)) && pos < p
                <= s@.len(),
            None => sp_status(s@, pos as int) is None,
        },
{
    match parse_string(s, pos) {
        Some((x, p)) => {
            if chars_eq(&x, &to_char_vec("running")) {
                Some((TaskStatus::Running, p))
            } else if chars_eq(&x, &to_char_vec("completed")) {
                Some((TaskStatus::Completed, p))
            } else if chars_eq(&x, &to_char_vec("failed")) {
                Some((TaskStatus::Failed, p))
            } else if chars_eq(&x, &to_char_vec("cancelled")) {
                Some((TaskStatus::Cancelled, p))
            } else {
                None
            }
        },
        None => None,
    }
}

/// Parse `null` or a signed numeral; mirrors [`sp_opt_i64`].
fn parse_opt_i64(s: &Vec<char>, pos: usize) -> (r: Option<(Option<i64>, usize)>)
    ensures
        match r {
            Some((v, p)) => sp_opt_i64(s@, pos as int) == Some(
                (
                    match v {
                        Some(t) => Some(t as int),
                        None => None,
                    },
                    p as int,
                ),
            ) && pos < p <= s@.len(),
            None => sp_opt_i64(s@, pos as int) is None,
        },
{
    match expect_lit(s, pos, "null") {
        Some(p) => {
            proof {
                reveal_strlit("null");
            }
            Some((None, p))
        },
        None => match parse_i64(s, pos) {
            Some((v, p)) => Some((Some(v), p)),
            None => None,
        },
    }
}

/// Parse `null` or a quoted string; mirrors [`sp_opt_string`].
fn parse_opt_string(s: &Vec<char>, pos: usize) -> (r: Option<(Option<Vec<char>>, usize)>)
    ensures
        match r {
            Some((v, p)) => sp_opt_string(s@, pos as int) == Some(
                (
                    match v {
                        Some(x) => Some(x@),
                        None => None,
                    },
                    p as int,
                ),
            ) && pos < p <= s@.len(),
            None => sp_opt_string(s@, pos as int) is None,
        },
{
    match expect_lit(s, pos, "null") {
        Some(p) => {
            proof {
                reveal_strlit("null");
            }
            Some((None, p))
        },
        None => match parse_string(s, pos) {
            Some((x, p)) => Some((Some(x), p)),
            None => None,
        },
    }
}

/// Parse the resource-limits object; mirrors [`sp_limits`].
fn parse_limits(s: &Vec<char>, pos: usize) -> (r: Option<(ResourceLimits, usize)>)
    ensures
        match r {
            Some((l, p)) => sp_limits(s@, pos as int) == Some((l@, p as int)) && pos < p
                <= s@.len(),
            None => sp_limits(s@, pos as int) is None,
        },
{
    let p1 = match expect_lit(s, pos, "{\"memory\":") {
        Some(p) => p,
        None => {
            return None;
        },
    };
    let (mem, p2) = match parse_string(s, p1) {
        Some(x) => x,
        None => {
            return None;
        },
    };
    let p3 = match expect_lit(s, p2, ",\"cpu\":") {
        Some(p) => p,
        None => {
            return None;
        },
    };
    let (cpu, p4) = match parse_string(s, p3) {
        Some(x) => x,
        None => {
            return None;
        },
    };
    let p5 = match expect_lit(s, p4, "}") {
        Some(p) => p,
        None => {
            return None;
        },
    };
    let l = ResourceLimits { memory: chars_to_string(&mem), cpu: chars_to_string(&cpu) };
    Some((l, p5))
}

/// Parse the native-handle object; mirrors [`sp_native`].
fn parse_native(s: &Vec<char>, pos: usize) -> (r: Option<(NativeTask, usize)>)
    ensures
        match r {
            Some((x, p)) => sp_native(s@, pos as int) == Some((x@, p as int)) && pos < p
                <= s@.len(),
            None => sp_native(s@, pos as int) is None,
        },
{
    let p1 = match expect_lit(s, pos, "{\"pid\":") {
        Some(p) => p,
        None => {
            return None;
        },
    };
    let (pid64, p2) = match parse_i64(s, p1) {
        Some(x) => x,
        None => {
            return None;
        },
    };
    let p3 = match expect_lit(s, p2, ",\"pgid\":") {
        Some(p) => p,
        None => {
            return None;
        },
    };
    let (pgid64, p4) = match parse_i64(s, p3) {
        Some(x) => x,
        None => {
            return None;
        },
    };
    let p5 = match expect_lit(s, p4, ",\"start_time\":") {
        Some(p) => p,
        None => {
            return None;
        },
    };
    let (st, p6) = match parse_string(s, p5) {
        Some(x) => x,
        None => {
            return None;
        },
    };
    let p7 = match expect_lit(s, p6, ",\"env_tag\":") {
        Some(p) => p,
        None => {
            return None;
        },
    };
    let (tag, p8) = match parse_opt_string(s, p7) {
        Some(x) => x,
        None => {
            return None;
        },
    };
    let p9 = match expect_lit(s, p8, "}") {
        Some(p) => p,
        None => {
            return None;
        },
    };
    if pid64 < -2147483648i64 || pid64 > 2147483647i64 || pgid64 < -2147483648i64 || pgid64
        > 2147483647i64 {
        return None;
    }
    let x = NativeTask {
        pid: pid64 as i32,
        pgid: pgid64 as i32,
        start_time: chars_to_string(&st),
        env_tag: match tag {
            Some(t) => Some(chars_to_string(&t)),
            None => None,
        },
    };
    Some((x, p9))
}

/// Parse the container-handle object; mirrors [`sp_docker`].
fn parse_docker(s: &Vec<char>, pos: usize) -> (r: Option<(DockerTask, usize)>)
    ensures
        match r {
            Some((x, p)) => sp_docker(s@, pos as int) == Some((x@, p as int)) && pos < p
                <= s@.len(),
            None => sp_docker(s@, pos as int) is None,
        },
{
    let p1 = match expect_lit(s, pos, "{\"container_id\":") {
        Some(p) => p,
        None => {
            return None;
        },
    };
    let (id, p2) = match parse_string(s, p1) {
        Some(x) => x,
        None => {
            return None;
        },
    };
    let p3 = match expect_lit(s, p2, ",\"container_name\":") {
        Some(p) => p,
        None => {
            return None;
        },
    };
    let (name, p4) = match parse_string(s, p3) {
        Some(x) => x,
        None => {
            return None;
        },
    };
    let p5 = match expect_lit(s, p4, ",\"resource_limits\":") {
        Some(p) => p,
        None => {
            return None;
        },
    };
    let (lim, p6) = match parse_limits(s, p5) {
        Some(x) => x,
        None => {
            return None;
        },
    };
    let p7 = match expect_lit(s, p6, "}") {
        Some(p) => p,
        None => {
            return None;
        },
    };
    let x = DockerTask {
        container_id: chars_to_string(&id),
        container_name: chars_to_string(&name),
        resource_limits: lim,
    };
    Some((x, p7))
}

/// Parse `null` or a native handle; mirrors [`sp_opt_native`].
fn parse_opt_native(s: &Vec<char>, pos: usize) -> (r: Option<(Option<NativeTask>, usize)>)
    ensures
        match r {
            Some((v, p)) => sp_opt_native(s@, pos as int) == Some(
                (
                    match v {
                        Some(x) => Some(x@),
                        None => None,
                    },
                    p as int,
                ),
            ) && pos < p <= s@.len(),
            None => sp_opt_native(s@, pos as int) is None,
        },
{
    match expect_lit(s, pos, "null") {
        Some(p) => {
            proof {
                reveal_strlit("null");
            }
            Some((None, p))
        },
        None => match parse_native(s, pos) {
            Some((x, p)) => Some((Some(x), p)),
            None => None,
        },
    }
}

/// Parse `null` or a container handle; mirrors [`sp_opt_docker`].
fn parse_opt_docker(s: &Vec<char>, pos: usize) -> (r: Option<(Option<DockerTask>, usize)>)
    ensures
        match r {
            Some((v, p)) => sp_opt_docker(s@, pos as int) == Some(
                (
                    match v {
                        Some(x) => Some(x@),
                        None => None,
                    },
                    p as int,
                ),
            ) && pos < p <= s@.len(),
            None => sp_opt_docker(s@, pos as int) is None,
        },
{
    match expect_lit(s, pos, "null") {
        Some(p) => {
            proof {
                reveal_strlit("null");
            }
            Some((None, p))
        },
        None => match parse_docker(s, pos) {
            Some((x, p)) => Some((Some(x), p)),
            None => None,
        },
    }
}

/// The views of a vector of strings.
pub open spec fn strings_view(v: Seq<String>) -> Seq<Seq<char>> {
    Seq::new(v.len(), |i: int| v[i]@)
}

/// Parse the items of a nonempty rules array; mirrors [`sp_rules_items`].
fn parse_rules_items(s: &Vec<char>, start: usize) -> (r: Option<(Vec<String>, usize)>)
    ensures
        match r {
            Some((v, p)) => sp_rules_items(s@, start as int) == Some(
                (strings_view(v@), p as int),
            ) && start < p <= s@.len(),
            None => sp_rules_items(s@, start as int) is None,
        },
{
    let n = s.len();
    if start > n {
        return None;
    }
    let mut out: Vec<String> = Vec::new();
    let mut cur: usize = start;
    loop
        invariant
            start <= cur <= n,
            n == s@.len(),
            sp_rules_items(s@, start as int) == (match sp_rules_items(s@, cur as int) {
                Some((xs, p)) => Some((strings_view(out@) + xs, p)),
                None => None::<(Seq<Seq<char>>, int)>,
            }),
        decreases n - cur,
    {
        let (x, p) = match parse_string(s, cur) {
            Some(v) => v,
            None => {
                return None;
            },
        };
        let ghost out0 = strings_view(out@);
        out.push(chars_to_string(&x));
        proof {
            assert(strings_view(out@) =~= out0.push(x@));
        }
        if p < n && s[p] == ',' {
            proof {
                assert(sp_rules_items(s@, start as int) == (match sp_rules_items(s@, p + 1) {
                    Some((xs, p2)) => Some((strings_view(out@) + xs, p2)),
                    None => None::<(Seq<Seq<char>>, int)>,
                })) by {
                    if sp_rules_items(s@, p + 1) is Some {
                        let (xs, p2) = sp_rules_items(s@, p + 1)->0;
                        assert(sp_rules_items(s@, cur as int) == Some((seq![x@] + xs, p2)));
                        assert(out0 + (seq![x@] + xs) =~= strings_view(out@) + xs);
                    }
                }
            }
            cur = p + 1;
        } else if p < n && s[p] == ']' {
            proof {
                assert(sp_rules_items(s@, cur as int) == Some((seq![x@], p + 1)));
                assert(out0 + seq![x@] =~= strings_view(out@));
            }
            return Some((out, p + 1));
        } else {
            return None;
        }
    }
}

/// Parse the rules array; mirrors [`sp_rules`].
fn parse_rules(s: &Vec<char>, pos: usize) -> (r: Option<(Vec<String>, usize)>)
    ensures
        match r {
            Some((v, p)) => sp_rules(s@, pos as int) == Some((strings_view(v@), p as int)) && pos
                < p <= s@.len(),
            None => sp_rules(s@, pos as int) is None,
        },
{
    let n = s.len();
    if pos >= n {
        return None;
    }
    if pos + 1 < n && s[pos] == '[' {
        if s[pos + 1] == ']' {
            let out: Vec<String> = Vec::new();
            proof {
                assert(strings_view(out@) =~= Seq::<Seq<char>>::empty());
            }
            Some((out, pos + 2))
        } else {
            parse_rules_items(s, pos + 1)
        }
    } else {
        None
    }
}

/// Parse one task record; mirrors [`sp_task`].
fn parse_task(s: &Vec<char>, pos: usize) -> (r: Option<(TaskInfo, usize)>)
    ensures
        match r {
            Some((t, p)) => sp_task(s@, pos as int) == Some((t@, p as int)) && pos < p <= s@.len(),
            None => sp_task(s@, pos as int) is None,
        },
{
    let p1 = match expect_lit(s, pos, "{\"mode\":") {
        Some(p) => p,
        None => {
            return None;
        },
    };
    let (mode, p2) = match parse_mode(s, p1) {
        Some(x) => x,
        None => {
            return None;
        },
    };
    let p3 = match expect_lit(s, p2, ",\"command\":") {
        Some(p) => p,
        None => {
            return None;
        },
    };
    let (cmd, p4) = match parse_string(s, p3) {
        Some(x) => x,
        None => {
            return None;
        },
    };
    let p5 = match expect_lit(s, p4, ",\"status\":") {
        Some(p) => p,
        None => {
            return None;
        },
    };
    let (st, p6) = match parse_status(s, p5) {
        Some(x) => x,
        None => {
            return None;
        },
    };
    let p7 = match expect_lit(s, p6, ",\"started_at\":") {
        Some(p) => p,
        None => {
            return None;
        },
    };
    let (sa, p8) = match parse_i64(s, p7) {
        Some(x) => x,
        None => {
            return None;
        },
    };
    let p9 = match expect_lit(s, p8, ",\"completed_at\":") {
        Some(p) => p,
        None => {
            return None;
        },
    };
    let (ca, p10) = match parse_opt_i64(s, p9) {
        Some(x) => x,
        None => {
            return None;
        },
    };
    let p11 = match expect_lit(s, p10, ",\"native\":") {
        Some(p) => p,
        None => {
            return None;
        },
    };
    let (ntv, p12) = match parse_opt_native(s, p11) {
        Some(x) => x,
        None => {
            return None;
        },
    };
    let p13 = match expect_lit(s, p12, ",\"docker\":") {
        Some(p) => p,
        None => {
            return None;
        },
    };
    let (dock, p14) = match parse_opt_docker(s, p13) {
        Some(x) => x,
        None => {
            return None;
        },
    };
    let p15 = match expect_lit(s, p14, ",\"constitution_rules\":") {
        Some(p) => p,
        None => {
            return None;
        },
    };
    let (rules, p16) = match parse_rules(s, p15) {
        Some(x) => x,
        None => {
            return None;
        },
    };
    let p17 = match expect_lit(s, p16, "}") {
        Some(p) => p,
        None => {
            return None;
        },
    };
    let t = TaskInfo {
        mode,
        command: chars_to_string(&cmd),
        status: st,
        started_at: sa,
        completed_at: ca,
        native: ntv,
        docker: dock,
        constitution_rules: rules,
    };
    proof {
        assert(t@.constitution_rules =~= strings_view(rules@));
    }
    Some((t, p17))
}

/// Parse one registry entry; mirrors [`sp_entry`].
fn parse_entry(s: &Vec<char>, pos: usize) -> (r: Option<(TaskEntry, usize)>)
    ensures
        match r {
            Some((e, p)) => sp_entry(s@, pos as int) == Some((e@, p as int)) && pos < p
                <= s@.len(),
            None => sp_entry(s@, pos as int) is None,
        },
{
    let (id, p) = match parse_string(s, pos) {
        Some(x) => x,
        None => {
            return None;
        },
    };
    let p2 = match expect_lit(s, p, ":") {
        Some(x) => x,
        None => {
            return None;
        },
    };
    let (t, p3) = match parse_task(s, p2) {
        Some(x) => x,
        None => {
            return None;
        },
    };
    Some((TaskEntry { task_id: chars_to_string(&id), info: t }, p3))
}

/// Parse one or more entries; mirrors [`sp_entries`].
fn parse_entries(s: &Vec<char>, start: usize) -> (r: Option<(Vec<TaskEntry>, usize)>)
    ensures
        match r {
            Some((v, p)) => sp_entries(s@, start as int) == Some(
                (entries_view(v@), p as int),
            ) && start < p <= s@.len(),
            None => sp_entries(s@, start as int) is None,
        },
{
    let n = s.len();
    if start > n {
        return None;
    }
    let mut out: Vec<TaskEntry> = Vec::new();
    let mut cur: usize = start;
    loop
        invariant
            start <= cur <= n,
            n == s@.len(),
            sp_entries(s@, start as int) == (match sp_entries(s@, cur as int) {
                Some((xs, p)) => Some((entries_view(out@) + xs, p)),
                None => None::<(RegView, int)>,
            }),
        decreases n - cur,
    {
        let (e, p) = match parse_entry(s, cur) {
            Some(v) => v,
            None => {
                return None;
            },
        };
        let ghost out0 = entries_view(out@);
        let ghost ev = e@;
        out.push(e);
        proof {
            assert(entries_view(out@) =~= out0.push(ev));
        }
        match expect_lit(s, p, ",\n") {
            Some(p2) => {
                proof {
                    assert(sp_entries(s@, start as int) == (match sp_entries(s@, p2 as int) {
                        Some((xs, p3)) => Some((entries_view(out@) + xs, p3)),
                        None => None::<(RegView, int)>,
                    })) by {
                        if sp_entries(s@, p2 as int) is Some {
                            let (xs, p3) = sp_entries(s@, p2 as int)->0;
                            assert(sp_entries(s@, cur as int) == Some((seq![ev] + xs, p3)));
                            assert(out0 + (seq![ev] + xs) =~= entries_view(out@) + xs);
                        }
                    }
                }
                cur = p2;
            },
            None => {
                proof {
                    assert(sp_entries(s@, cur as int) == Some((seq![ev], p as int)));
                    assert(out0 + seq![ev] =~= entries_view(out@));
                }
                return Some((out, p));
            },
        }
    }
}

/// Whether a record satisfies the record invariant; mirrors
/// [`TaskInfoView::wf`].
fn task_wf_check(t: &TaskInfo) -> (b: bool)
    ensures
        b == t@.wf(),
{
    let handles_ok = match (&t.native, &t.docker) {
        (Some(_), _) => matches!(t.mode, ExecutionMode::Native),
        (_, Some(_)) => matches!(t.mode, ExecutionMode::Docker),
        _ => true,
    } && !(t.native.is_some() && t.docker.is_some());
    let completed_ok = t.completed_at.is_some() == t.status.is_terminal();
    handles_ok && completed_ok
}

/// Whether the parsed entries satisfy the registry invariant; mirrors
/// [`reg_wf`].
fn entries_wf_check(v: &Vec<TaskEntry>) -> (b: bool)
    ensures
        b == reg_wf(entries_view(v@)),
{
    let n = v.len();
    for i in 0..n
        invariant
            n == v@.len(),
            forall|a: int, b: int|
                0 <= a < b < i ==> (#[trigger] entries_view(v@)[a]).0 != (#[trigger] entries_view(
                    v@,
                )[b]).0,
            forall|a: int| 0 <= a < i ==> (#[trigger] entries_view(v@)[a]).1.wf(),
    {
        if !task_wf_check(&v[i].info) {
            proof {
                assert(entries_view(v@)[i as int].1 == v@[i as int]@.1);
                assert(!entries_view(v@)[i as int].1.wf());
                assert(!reg_wf(entries_view(v@)));
            }
            return false;
        }
        for j in 0..i
            invariant
                n == v@.len(),
                i < n,
                entries_view(v@)[i as int].1.wf(),
                forall|a: int, b: int|
                    0 <= a < b < i ==> (#[trigger] entries_view(v@)[a]).0 != (
                    #[trigger] entries_view(v@)[b]).0,
                forall|a: int| 0 <= a < i ==> (#[trigger] entries_view(v@)[a]).1.wf(),
                forall|a: int|
                    0 <= a < j ==> (#[trigger] entries_view(v@)[a]).0 != entries_view(
                        v@,
                    )[i as int].0,
        {
            if v[j].task_id == v[i].task_id {
                proof {
                    assert(entries_view(v@)[j as int].0 == entries_view(v@)[i as int].0);
                    assert(!ids_unique(entries_view(v@)));
                    assert(!reg_wf(entries_view(v@)));
                }
                return false;
            }
        }
    }
    true
}

/// Parse and validate a whole document. Returns the registry exactly when
/// the text is a well-formed rendering; anything else is corrupt.
pub fn registry_from_json(s: &str) -> (r: Option<ProcessRegistry>)
    ensures
        match r {
            Some(reg) => spec_decode(s@) == Some(reg@),
            None => spec_decode(s@) is None,
        },
{
    let cs = to_char_vec(s);
    let n = cs.len();
    let p = match expect_lit(&cs, 0, "{\"tasks\":{") {
        Some(x) => x,
        None => {
            return None;
        },
    };
    match expect_lit(&cs, p, "}}\n") {
        Some(p2) => {
            if p2 == n {
                let reg = ProcessRegistry { tasks: Vec::new() };
                proof {
                    assert(reg@ =~= Seq::<(Seq<char>, TaskInfoView)>::empty());
                    assert(reg_wf(reg@));
                }
                Some(reg)
            } else {
                None
            }
        },
        None => {
            let p2 = match expect_lit(&cs, p, "\n") {
                Some(x) => x,
                None => {
                    return None;
                },
            };
            let (entries, p3) = match parse_entries(&cs, p2) {
                Some(x) => x,
                None => {
                    return None;
                },
            };
            let p4 = match expect_lit(&cs, p3, "\n}}\n") {
                Some(x) => x,
                None => {
                    return None;
                },
            };
            if p4 != n {
                return None;
            }
            if !entries_wf_check(&entries) {
                return None;
            }
            Some(ProcessRegistry { tasks: entries })
        },
    }
}

} // verus!
