//! White space, end-of-line markers and comments.

use vstd::prelude::*;

use crate::parser::outcome::{
    agrees_unit, lemma_run_end, rest_agrees, run_end, unit_rest, Outcome, ParseError,
};

verus! {

/// PDF white space: NUL, TAB, LF, FF, CR and SPACE.
pub open spec fn spec_is_whitespace(c: u8) -> bool {
    c == 0x00 || c == 0x09 || c == 0x0A || c == 0x0C || c == 0x0D || c == 0x20
}

/// PDF delimiters: `( ) < > [ ] { } / %`.
pub open spec fn spec_is_delimiter(c: u8) -> bool {
    c == 0x28 || c == 0x29 || c == 0x3c || c == 0x3e || c == 0x5b || c == 0x5d || c == 0x7b || c
        == 0x7d || c == 0x2f || c == 0x25
}

/// CR or LF.
pub open spec fn is_eol_byte(c: u8) -> bool {
    c == 0x0D || c == 0x0A
}

/// One or more white-space bytes.
pub open spec fn spec_whitespace(s: Seq<u8>, p: int) -> Outcome<()> {
    if 0 <= p < s.len() && spec_is_whitespace(s[p]) {
        Outcome::Parsed((), run_end(s, p, |c: u8| spec_is_whitespace(c)))
    } else {
        Outcome::Rejected
    }
}

/// An end-of-line marker: CR LF, CR or LF (the longest that matches).
pub open spec fn spec_eol(s: Seq<u8>, p: int) -> Outcome<()> {
    if 0 <= p && p + 1 < s.len() && s[p] == 0x0D && s[p + 1] == 0x0A {
        Outcome::Parsed((), p + 2)
    } else if 0 <= p < s.len() && is_eol_byte(s[p]) {
        Outcome::Parsed((), p + 1)
    } else {
        Outcome::Rejected
    }
}

/// A comment: `%`, at least one byte that is neither CR nor LF, then an end
/// of line. When no end of line follows the `%` before the end of the
/// input, more input is asked for.
pub open spec fn spec_comment(s: Seq<u8>, p: int) -> Outcome<()> {
    if !(0 <= p < s.len() && s[p] == 0x25) {
        Outcome::Rejected
    } else {
        let e = run_end(s, p + 1, |c: u8| !is_eol_byte(c));
        if e >= s.len() {
            Outcome::Incomplete
        } else if e == p + 1 {
            Outcome::Rejected
        } else {
            spec_eol(s, e)
        }
    }
}

/// Any number of white-space runs, comments and end-of-line markers.
pub open spec fn spec_filler(s: Seq<u8>, p: int) -> Outcome<()>
    decreases s.len() - p,
{
    match spec_whitespace(s, p) {
        Outcome::Parsed(_, q) => if p < q <= s.len() {
            spec_filler(s, q)
        } else {
            Outcome::Rejected
        },
        _ => match spec_comment(s, p) {
            Outcome::Parsed(_, q) => if p < q <= s.len() {
                spec_filler(s, q)
            } else {
                Outcome::Rejected
            },
            Outcome::Incomplete => Outcome::Incomplete,
            _ => match spec_eol(s, p) {
                Outcome::Parsed(_, q) => if p < q <= s.len() {
                    spec_filler(s, q)
                } else {
                    Outcome::Rejected
                },
                _ => Outcome::Parsed((), p),
            },
        },
    }
}

/// Checks if a byte is a PDF white-space character: NUL (0x00), TAB (0x09),
/// LF (0x0A), FF (0x0C), CR (0x0D) or SPACE (0x20).
pub fn is_whitespace(c: u8) -> (r: bool)
    ensures
        r == spec_is_whitespace(c),
{
    c == 0x00 || c == 0x09 || c == 0x0A || c == 0x0C || c == 0x0D || c == 0x20
}

/// Checks if a byte is a PDF delimiter: `(` `)` `<` `>` `[` `]` `{` `}` `/` `%`.
pub fn is_delimiter(c: u8) -> (r: bool)
    ensures
        r == spec_is_delimiter(c),
{
    c == 0x28 || c == 0x29 || c == 0x3c || c == 0x3e || c == 0x5b || c == 0x5d || c == 0x7b || c
        == 0x7d || c == 0x2f || c == 0x25
}

pub fn whitespace_at(s: &[u8], p: usize) -> (r: Result<usize, ParseError>)
    requires
        p <= s@.len(),
    ensures
        agrees_unit(r, spec_whitespace(s@, p as int)),
        r matches Ok(q) ==> p < q <= s@.len(),
{
    if p < s.len() && is_whitespace(s[p]) {
        let mut i = p + 1;
        while i < s.len() && is_whitespace(s[i])
            invariant
                p + 1 <= i <= s@.len(),
                run_end(s@, i as int, |c: u8| spec_is_whitespace(c)) == run_end(
                    s@,
                    p as int,
                    |c: u8| spec_is_whitespace(c),
                ),
            decreases s@.len() - i,
        {
            i = i + 1;
        }
        Ok(i)
    } else {
        Err(ParseError::Error)
    }
}

pub fn eol_at(s: &[u8], p: usize) -> (r: Result<usize, ParseError>)
    requires
        p <= s@.len(),
    ensures
        agrees_unit(r, spec_eol(s@, p as int)),
        r matches Ok(q) ==> p < q <= s@.len(),
{
    if s.len() - p > 1 && s[p] == 0x0D && s[p + 1] == 0x0A {
        Ok(p + 2)
    } else if p < s.len() && (s[p] == 0x0D || s[p] == 0x0A) {
        Ok(p + 1)
    } else {
        Err(ParseError::Error)
    }
}

pub fn comment_at(s: &[u8], p: usize) -> (r: Result<usize, ParseError>)
    requires
        p <= s@.len(),
    ensures
        agrees_unit(r, spec_comment(s@, p as int)),
        r matches Ok(q) ==> p < q <= s@.len(),
{
    if !(p < s.len() && s[p] == 0x25) {
        return Err(ParseError::Error);
    }
    let mut e = p + 1;
    while e < s.len() && !(s[e] == 0x0D || s[e] == 0x0A)
        invariant
            p + 1 <= e <= s@.len(),
            run_end(s@, e as int, |c: u8| !is_eol_byte(c)) == run_end(
                s@,
                p + 1,
                |c: u8| !is_eol_byte(c),
            ),
        decreases s@.len() - e,
    {
        e = e + 1;
    }
    if e >= s.len() {
        Err(ParseError::Incomplete)
    } else if e == p + 1 {
        Err(ParseError::Error)
    } else {
        eol_at(s, e)
    }
}

/// Skips white space, comments and end-of-line markers.
pub fn filler_at(s: &[u8], p: usize) -> (r: Result<usize, ParseError>)
    requires
        p <= s@.len(),
    ensures
        agrees_unit(r, spec_filler(s@, p as int)),
        r matches Ok(q) ==> p <= q <= s@.len(),
    decreases s@.len() - p,
{
    proof {
        lemma_run_end(s@, p as int, |c: u8| spec_is_whitespace(c));
        if p < s@.len() {
            lemma_run_end(s@, p + 1, |c: u8| !is_eol_byte(c));
        }
    }
    match whitespace_at(s, p) {
        Ok(q) => {
            return filler_at(s, q);
        },
        Err(_) => {},
    }
    match comment_at(s, p) {
        Ok(q) => {
            return filler_at(s, q);
        },
        Err(ParseError::Error) => {},
        Err(e) => {
            return Err(e);
        },
    }
    match eol_at(s, p) {
        Ok(q) => filler_at(s, q),
        Err(_) => Ok(p),
    }
}


/// Parses a run of white space at the start of `input`.
pub fn whitespace(input: &[u8]) -> (r: Result<(&[u8], ()), ParseError>)
    ensures
        rest_agrees(input@, r, spec_whitespace(input@, 0)),
{
    unit_rest(input, whitespace_at(input, 0), Ghost(spec_whitespace(input@, 0)))
}

/// Parses an end-of-line marker at the start of `input`.
pub fn eol(input: &[u8]) -> (r: Result<(&[u8], ()), ParseError>)
    ensures
        rest_agrees(input@, r, spec_eol(input@, 0)),
{
    unit_rest(input, eol_at(input, 0), Ghost(spec_eol(input@, 0)))
}

/// Parses a comment at the start of `input`.
pub fn comment(input: &[u8]) -> (r: Result<(&[u8], ()), ParseError>)
    ensures
        rest_agrees(input@, r, spec_comment(input@, 0)),
{
    unit_rest(input, comment_at(input, 0), Ghost(spec_comment(input@, 0)))
}

} // verus!
