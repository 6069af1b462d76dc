//! Name objects.

use vstd::prelude::*;
use vstd::utf8::{decode_utf8, valid_utf8};

use crate::parser::outcome::{
    agrees, lemma_run_end, rest_agrees, run_end, with_rest, Outcome, ParseError,
};
use crate::parser::whitespace::{
    is_delimiter, is_whitespace, spec_is_delimiter, spec_is_whitespace,
};
use crate::text::string_from_utf8;

verus! {

/// A byte that stands for itself in a name: a visible ASCII character other
/// than `#`, a delimiter or white space.
pub open spec fn is_regular(c: u8) -> bool {
    c != 0x23 && 0x21 <= c <= 0x7e && !spec_is_delimiter(c) && !spec_is_whitespace(c)
}

pub open spec fn is_hex_digit(c: u8) -> bool {
    (0x30 <= c <= 0x39) || (0x61 <= c <= 0x66) || (0x41 <= c <= 0x46)
}

pub open spec fn hex_value(c: u8) -> int {
    if 0x30 <= c <= 0x39 {
        c - 0x30
    } else if 0x61 <= c <= 0x66 {
        c - 0x61 + 10
    } else {
        c - 0x41 + 10
    }
}

/// `#` followed by two hexadecimal digits, at position `r`.
pub open spec fn escape_at(s: Seq<u8>, r: int) -> bool {
    0 <= r && r + 2 < s.len() && s[r] == 0x23 && is_hex_digit(s[r + 1]) && is_hex_digit(s[r + 2])
}

/// The bytes a name stands for, read from position `q`, and where it ends:
/// runs of regular bytes, each escape `#hh` standing for the byte `hh`.
pub open spec fn name_body(s: Seq<u8>, q: int) -> (Seq<u8>, int)
    decreases s.len() - q,
{
    let r = run_end(s, q, |c: u8| is_regular(c));
    if q <= r && escape_at(s, r) {
        let code = (hex_value(s[r + 1]) * 16 + hex_value(s[r + 2])) as u8;
        let rest = name_body(s, r + 3);
        (s.subrange(q, r).push(code) + rest.0, rest.1)
    } else {
        (s.subrange(q, r), r)
    }
}

/// `/` and a name body; the name is its bytes decoded as UTF-8, and the
/// parse is rejected when they are not valid UTF-8.
pub open spec fn spec_name(s: Seq<u8>, p: int) -> Outcome<Seq<char>> {
    if 0 <= p < s.len() && s[p] == 0x2f {
        let body = name_body(s, p + 1);
        if valid_utf8(body.0) {
            Outcome::Parsed(decode_utf8(body.0), body.1)
        } else {
            Outcome::Rejected
        }
    } else {
        Outcome::Rejected
    }
}

pub fn is_regular_byte(c: u8) -> (r: bool)
    ensures
        r == is_regular(c),
{
    c != 0x23 && 0x21 <= c && c <= 0x7e && !is_delimiter(c) && !is_whitespace(c)
}

pub fn is_hex_digit_byte(c: u8) -> (r: bool)
    ensures
        r == is_hex_digit(c),
{
    (0x30 <= c && c <= 0x39) || (0x61 <= c && c <= 0x66) || (0x41 <= c && c <= 0x46)
}

pub fn hex_digit_value(c: u8) -> (r: u8)
    requires
        is_hex_digit(c),
    ensures
        r == hex_value(c),
        r < 16,
{
    if 0x30 <= c && c <= 0x39 {
        c - 0x30
    } else if 0x61 <= c && c <= 0x66 {
        c - 0x61 + 10
    } else {
        c - 0x41 + 10
    }
}

pub proof fn lemma_name_body_bounds(s: Seq<u8>, q: int)
    requires
        0 <= q <= s.len(),
    ensures
        q <= name_body(s, q).1 <= s.len(),
    decreases s.len() - q,
{
    lemma_run_end(s, q, |c: u8| is_regular(c));
    let r = run_end(s, q, |c: u8| is_regular(c));
    if escape_at(s, r) {
        lemma_name_body_bounds(s, r + 3);
    }
}

pub fn name_at(s: &[u8], p: usize) -> (r: Result<(usize, String), ParseError>)
    requires
        p <= s@.len(),
    ensures
        agrees(r, spec_name(s@, p as int)),
        r matches Ok((e, _)) ==> p < e <= s@.len(),
{
    if !(p < s.len() && s[p] == 0x2f) {
        return Err(ParseError::Error);
    }
    let mut buf: Vec<u8> = Vec::new();
    let mut q = p + 1;
    loop
        invariant
            p + 1 <= q <= s@.len(),
            p < s@.len() && s@[p as int] == 0x2f,
            name_body(s@, p + 1) == (buf@ + name_body(s@, q as int).0, name_body(
                s@,
                q as int,
            ).1),
        decreases s@.len() - q,
    {
        proof {
            lemma_run_end(s@, q as int, |c: u8| is_regular(c));
        }
        let mut r = q;
        while r < s.len() && is_regular_byte(s[r])
            invariant
                q <= r <= s@.len(),
                forall|j: int| q <= j < r ==> is_regular(#[trigger] s@[j]),
                run_end(s@, r as int, |c: u8| is_regular(c)) == run_end(
                    s@,
                    q as int,
                    |c: u8| is_regular(c),
                ),
            decreases s@.len() - r,
        {
            r = r + 1;
        }
        let ghost old_buf = buf@;
        let mut i = q;
        while i < r
            invariant
                q <= i <= r <= s@.len(),
                buf@ == old_buf + s@.subrange(q as int, i as int),
            decreases r - i,
        {
            buf.push(s[i]);
            assert(s@.subrange(q as int, i + 1) == s@.subrange(q as int, i as int).push(s@[i as int]));
            i = i + 1;
        }
        if s.len() - r > 2 && s[r] == 0x23 && is_hex_digit_byte(s[r + 1]) && is_hex_digit_byte(s[r + 2]) {
            let code = hex_digit_value(s[r + 1]) * 16 + hex_digit_value(s[r + 2]);
            buf.push(code);
            proof {
                let rest = name_body(s@, r + 3);
                assert(name_body(s@, q as int) == (s@.subrange(q as int, r as int).push(code) + rest.0, rest.1));
                assert(old_buf + (s@.subrange(q as int, r as int).push(code) + rest.0) == buf@ + rest.0);
            }
            q = r + 3;
        } else {
            proof {
                assert(!escape_at(s@, r as int));
                assert(name_body(s@, q as int) == (s@.subrange(q as int, r as int), r as int));
                assert(buf@ == name_body(s@, p + 1).0);
                assert(r == name_body(s@, p + 1).1);
            }
            match string_from_utf8(buf) {
                Some(text) => {
                    return Ok((r, text));
                },
                None => {
                    return Err(ParseError::Error);
                },
            }
        }
    }
}


/// Parses a name at the start of `input`, giving its decoded text.
pub fn name(input: &[u8]) -> (r: Result<(&[u8], String), ParseError>)
    ensures
        rest_agrees(input@, r, spec_name(input@, 0)),
{
    with_rest(input, name_at(input, 0), Ghost(spec_name(input@, 0)))
}

} // verus!
