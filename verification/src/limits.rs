//! Parsing of container resource strings: a memory limit such as `"512m"`
//! or `"1g"` becomes a byte count. This is the only piece of the container
//! backend that is plain computation, so it lives here, verified; the engine
//! calls themselves stay outside the library.

use vstd::prelude::*;

use crate::strutil::{
    is_digit, is_space, lemma_dec_val_prefix_le, spec_dec_val, spec_digit_val, spec_is_digit,
    spec_is_space, spec_trim, spec_trim_end, spec_trim_start,
};

verus! {

/// Why a memory string was rejected.
#[derive(Clone, Copy, PartialEq, Eq, Structural, Debug)]
pub enum MemoryError {
    /// Nothing left after trimming.
    Empty,
    /// The part before the unit is not a number that fits the machine type.
    InvalidNumber,
    /// The trailing unit letter is not one of `k`, `m`, `g`.
    InvalidUnit,
    /// The byte count does not fit the machine type.
    TooLarge,
}

/// Value of the number before the unit: an optional minus sign, then one or
/// more digits, within the signed 64-bit range.
pub open spec fn spec_mem_value(num: Seq<char>) -> Option<int> {
    if num.len() >= 1 && num[0] == '-' {
        let digits = num.drop_first();
        if digits.len() >= 1 && (forall|i: int|
            0 <= i < digits.len() ==> spec_is_digit(#[trigger] digits[i])) && spec_dec_val(digits)
            <= 0x8000000000000000 {
            Some(-spec_dec_val(digits))
        } else {
            None
        }
    } else if num.len() >= 1 && (forall|i: int|
        0 <= i < num.len() ==> spec_is_digit(#[trigger] num[i])) && spec_dec_val(num)
        <= 0x7fffffffffffffff {
        Some(spec_dec_val(num))
    } else {
        None
    }
}

/// Bytes per unit letter; zero marks an unknown unit.
pub open spec fn spec_unit_multiplier(c: char) -> int {
    if c == 'k' || c == 'K' {
        1024
    } else if c == 'm' || c == 'M' {
        1048576
    } else if c == 'g' || c == 'G' {
        1073741824
    } else {
        0
    }
}

/// What a memory string denotes: trim, split off the unit letter, read the
/// number, scale, all within the signed 64-bit range.
pub open spec fn spec_parse_memory(s: Seq<char>) -> Result<int, MemoryError> {
    let t = spec_trim(s);
    if t.len() == 0 {
        Err(MemoryError::Empty)
    } else {
        let unit = t.last();
        let num = t.drop_last();
        match spec_mem_value(num) {
            Some(v) => {
                let mult = spec_unit_multiplier(unit);
                if mult == 0 {
                    Err(MemoryError::InvalidUnit)
                } else if (i64::MIN as int) <= v * mult <= (i64::MAX as int) {
                    Ok(v * mult)
                } else {
                    Err(MemoryError::TooLarge)
                }
            },
            None => Err(MemoryError::InvalidNumber),
        }
    }
}

/// Read the number before the unit; mirrors [`spec_mem_value`].
fn mem_value(num: &Vec<char>) -> (r: Option<i64>)
    ensures
        match r {
            Some(v) => spec_mem_value(num@) == Some(v as int),
            None => spec_mem_value(num@) is None,
        },
{
    let n = num.len();
    if n == 0 {
        return None;
    }
    let negative = num[0] == '-';
    let start: usize = if negative {
        1
    } else {
        0
    };
    let ghost digits = if negative {
        num@.drop_first()
    } else {
        num@
    };
    proof {
        if negative {
            assert(digits =~= num@.subrange(1, n as int));
        } else {
            assert(digits =~= num@.subrange(0, n as int));
        }
    }
    if start >= n {
        return None;
    }
    let mut acc: u64 = 0;
    let mut j: usize = start;
    while j < n
        invariant
            start <= j <= n,
            start <= 1,
            start < n,
            n == num@.len(),
            negative == (num@[0] == '-'),
            negative ==> start == 1 && digits =~= num@.drop_first(),
            !negative ==> start == 0 && digits =~= num@,
            forall|x: int| 0 <= x < j - start ==> spec_is_digit(#[trigger] digits[x]),
            acc as int == spec_dec_val(digits.subrange(0, j - start)),
            acc <= 0x8000000000000000u64,
        decreases n - j,
    {
        let c = num[j];
        proof {
            assert(digits[j - start] == num@[j as int]);
        }
        if !is_digit(c) {
            proof {
                assert(!(forall|x: int|
                    0 <= x < digits.len() ==> spec_is_digit(#[trigger] digits[x])));
            }
            return None;
        }
        let d: u64 = (c as u32 as u64) - 48;
        proof {
            assert(d == spec_digit_val(c));
            assert(digits.subrange(0, j + 1 - start).drop_last() =~= digits.subrange(
                0,
                j - start,
            ));
            assert(digits.subrange(0, j + 1 - start).last() == c);
            assert(spec_dec_val(digits.subrange(0, j + 1 - start)) == acc * 10 + d);
        }
        if acc > (9223372036854775808u64 - d) / 10 {
            proof {
                assert(acc * 10 + d > 0x8000000000000000u64) by (nonlinear_arith)
                    requires
                        acc > (9223372036854775808u64 - d) / 10,
                        d <= 9,
                ;
                if forall|x: int| 0 <= x < digits.len() ==> spec_is_digit(#[trigger] digits[x]) {
                    lemma_dec_val_prefix_le(digits, j + 1 - start, digits.len() as int);
                    assert(digits.subrange(0, digits.len() as int) =~= digits);
                    assert(spec_dec_val(digits) > 0x8000000000000000);
                }
                assert(spec_mem_value(num@) is None);
            }
            return None;
        }
        acc = acc * 10 + d;
        j = j + 1;
    }
    proof {
        assert(digits.subrange(0, n - start) =~= digits);
    }
    if negative {
        if acc == 9223372036854775808u64 {
            Some(i64::MIN)
        } else {
            Some(-(acc as i64))
        }
    } else {
        if acc > 9223372036854775807u64 {
            proof {
                assert(spec_mem_value(num@) is None);
            }
            None
        } else {
            Some(acc as i64)
        }
    }
}

/// Parse a memory limit such as `"512m"` or `"1g"` into bytes; mirrors
/// [`spec_parse_memory`].
pub fn parse_memory(mem: &str) -> (r: Result<i64, MemoryError>)
    ensures
        match r {
            Ok(v) => spec_parse_memory(mem@) == Ok::<int, MemoryError>(v as int),
            Err(e) => spec_parse_memory(mem@) == Err::<int, MemoryError>(e),
        },
{
    let cs = crate::strutil::to_char_vec(mem);
    let n = cs.len();
    let mut a: usize = 0;
    while a < n && is_space(cs[a])
        invariant
            a <= n,
            n == cs@.len(),
            spec_trim_start(cs@, 0) == spec_trim_start(cs@, a as int),
        decreases n - a,
    {
        a = a + 1;
    }
    proof {
        assert(spec_trim_start(cs@, a as int) == a);
    }
    let mut b: usize = n;
    while b > a && is_space(cs[b - 1])
        invariant
            a <= b <= n,
            n == cs@.len(),
            spec_trim_end(cs@, n as int, a as int) == spec_trim_end(cs@, b as int, a as int),
        decreases b,
    {
        b = b - 1;
    }
    proof {
        assert(spec_trim_end(cs@, b as int, a as int) == b);
    }
    let ghost t = spec_trim(cs@);
    proof {
        assert(t == cs@.subrange(a as int, b as int));
    }
    if b == a {
        return Err(MemoryError::Empty);
    }
    let unit = cs[b - 1];
    proof {
        assert(t.last() == cs@[b - 1]);
    }
    let mut num: Vec<char> = Vec::new();
    for j in a..b - 1
        invariant
            a <= b - 1 <= n,
            b <= n,
            n == cs@.len(),
            num@ =~= cs@.subrange(a as int, j as int),
    {
        num.push(cs[j]);
        proof {
            assert(num@ =~= cs@.subrange(a as int, j + 1));
        }
    }
    proof {
        assert(num@ =~= t.drop_last());
    }
    let v = match mem_value(&num) {
        Some(v) => v,
        None => {
            return Err(MemoryError::InvalidNumber);
        },
    };
    let mult: i64 = if unit == 'k' || unit == 'K' {
        1024
    } else if unit == 'm' || unit == 'M' {
        1048576
    } else if unit == 'g' || unit == 'G' {
        1073741824
    } else {
        return Err(MemoryError::InvalidUnit);
    };
    proof {
        assert(mult as int == spec_unit_multiplier(unit));
    }
    let p: i128 = (v as i128) * (mult as i128);
    proof {
        assert(p == (v as int) * (mult as int)) by (nonlinear_arith)
            requires
                p == (v as i128) * (mult as i128),
                v as i128 == v as int,
                mult as i128 == mult as int,
        ;
    }
    if p > 9223372036854775807i128 || p < -9223372036854775808i128 {
        Err(MemoryError::TooLarge)
    } else {
        Ok(p as i64)
    }
}

} // verus!
