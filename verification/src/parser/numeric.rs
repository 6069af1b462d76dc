//! Numeric objects.

use vstd::prelude::*;
use vstd::slice::{slice_subrange, slice_to_vec};

use crate::parser::outcome::{
    agrees, lemma_run_end, rest_agrees, run_end, with_rest, Outcome, ParseError,
};
use crate::types::numeric::{Numeric, NumericModel};

verus! {

pub open spec fn is_digit(c: u8) -> bool {
    0x30 <= c <= 0x39
}

/// The value of the decimal digits `s[a..b]`.
pub open spec fn digits_value(s: Seq<u8>, a: int, b: int) -> int
    decreases b - a,
{
    if b <= a {
        0
    } else {
        digits_value(s, a, b - 1) * 10 + (s[b - 1] - 0x30)
    }
}

pub proof fn lemma_digits_value_nonneg(s: Seq<u8>, a: int, b: int)
    requires
        forall|i: int| a <= i < b ==> is_digit(#[trigger] s[i]),
    ensures
        digits_value(s, a, b) >= 0,
    decreases b - a,
{
    if b > a {
        lemma_digits_value_nonneg(s, a, b - 1);
    }
}

/// An optional sign, then either digits, or digits (possibly none), a
/// decimal point and digits. With a decimal point the number is real, and is
/// kept as its text; without one it is an integer, and the parse is rejected
/// when the integer does not fit in 64 bits.
pub open spec fn spec_numeric(s: Seq<u8>, p: int) -> Outcome<NumericModel> {
    let p1 = if 0 <= p < s.len() && (s[p] == 0x2b || s[p] == 0x2d) {
        p + 1
    } else {
        p
    };
    let a = run_end(s, p1, |c: u8| is_digit(c));
    let dot = a < s.len() && s[a] == 0x2e;
    let p2 = if dot {
        a + 1
    } else {
        p1
    };
    let b = run_end(s, p2, |c: u8| is_digit(c));
    if b == p2 {
        Outcome::Rejected
    } else if dot {
        Outcome::Parsed(NumericModel::Real(s.subrange(p, b)), b)
    } else {
        let v = digits_value(s, p1, b);
        if p1 == p + 1 && s[p] == 0x2d {
            if v <= 0x8000_0000_0000_0000 {
                Outcome::Parsed(NumericModel::Integer(-v), b)
            } else {
                Outcome::Rejected
            }
        } else {
            if v <= 0x7fff_ffff_ffff_ffff {
                Outcome::Parsed(NumericModel::Integer(v), b)
            } else {
                Outcome::Rejected
            }
        }
    }
}

/// The end of the run of digits starting at `p`.
pub fn digits_end(s: &[u8], p: usize) -> (e: usize)
    requires
        p <= s@.len(),
    ensures
        e == run_end(s@, p as int, |c: u8| is_digit(c)),
        p <= e <= s@.len(),
{
    proof {
        lemma_run_end(s@, p as int, |c: u8| is_digit(c));
    }
    let mut i = p;
    while i < s.len() && 0x30 <= s[i] && s[i] <= 0x39
        invariant
            p <= i <= s@.len(),
            run_end(s@, i as int, |c: u8| is_digit(c)) == run_end(
                s@,
                p as int,
                |c: u8| is_digit(c),
            ),
        decreases s@.len() - i,
    {
        i = i + 1;
    }
    i
}

/// The value of the digits `s[a..b]`, when it is at most `bound` (which is at
/// most 2^64 - 1).
pub fn digits_value_bounded(s: &[u8], a: usize, b: usize, bound: u64) -> (r: Option<u64>)
    requires
        a <= b <= s@.len(),
        forall|i: int| a <= i < b ==> is_digit(#[trigger] s@[i]),
    ensures
        r matches Some(v) ==> v == digits_value(s@, a as int, b as int) && v <= bound,
        r is None ==> digits_value(s@, a as int, b as int) > bound,
{
    let mut v: u64 = 0;
    let mut over = false;
    let mut i = a;
    while i < b
        invariant
            a <= i <= b <= s@.len(),
            forall|j: int| a <= j < b ==> is_digit(#[trigger] s@[j]),
            !over ==> v == digits_value(s@, a as int, i as int) && v <= bound,
            over ==> digits_value(s@, a as int, i as int) > bound,
        decreases b - i,
    {
        let d = (s[i] - 0x30) as u64;
        assert(is_digit(s@[i as int]));
        proof {
            lemma_digits_value_nonneg(s@, a as int, i as int);
        }
        if !over {
            if d > bound || v > (bound - d) / 10 {
                over = true;
            } else {
                assert(v * 10 + d <= bound) by (nonlinear_arith)
                    requires
                        v <= (bound - d) / 10,
                        d <= bound,
                {}
                v = v * 10 + d;
            }
        }
        i = i + 1;
    }
    if over {
        None
    } else {
        Some(v)
    }
}

pub fn numeric_at(s: &[u8], p: usize) -> (r: Result<(usize, Numeric), ParseError>)
    requires
        p <= s@.len(),
    ensures
        agrees(r, spec_numeric(s@, p as int)),
        r matches Ok((e, _)) ==> p < e <= s@.len(),
{
    let p1 = if p < s.len() && (s[p] == 0x2b || s[p] == 0x2d) {
        p + 1
    } else {
        p
    };
    let a = digits_end(s, p1);
    let dot = a < s.len() && s[a] == 0x2e;
    let p2 = if dot {
        a + 1
    } else {
        p1
    };
    let b = digits_end(s, p2);
    if b == p2 {
        return Err(ParseError::Error);
    }
    if dot {
        let text = slice_to_vec(slice_subrange(s, p, b));
        return Ok((b, Numeric::Real(text)));
    }
    proof {
        lemma_run_end(s@, p1 as int, |c: u8| is_digit(c));
    }
    if p1 == p + 1 && s[p] == 0x2d {
        match digits_value_bounded(s, p1, b, 0x8000_0000_0000_0000) {
            Some(v) => {
                let x: i64 = if v == 0x8000_0000_0000_0000 {
                    i64::MIN
                } else {
                    -(v as i64)
                };
                Ok((b, Numeric::Integer(x)))
            },
            None => Err(ParseError::Error),
        }
    } else {
        match digits_value_bounded(s, p1, b, 0x7fff_ffff_ffff_ffff) {
            Some(v) => Ok((b, Numeric::Integer(v as i64))),
            None => Err(ParseError::Error),
        }
    }
}


/// Parses an integer or a real number at the start of `input`.
pub fn numeric(input: &[u8]) -> (r: Result<(&[u8], Numeric), ParseError>)
    ensures
        rest_agrees(input@, r, spec_numeric(input@, 0)),
{
    with_rest(input, numeric_at(input, 0), Ghost(spec_numeric(input@, 0)))
}

} // verus!
