//! The `true`, `false` and `null` keywords.

use vstd::prelude::*;

use crate::parser::outcome::{
    agrees, agrees_unit, has_tag, rest_agrees, tag_at, unit_rest, with_rest, Outcome, ParseError,
};

verus! {

pub open spec fn true_tag() -> Seq<u8> {
    seq![0x74u8, 0x72, 0x75, 0x65]
}

pub open spec fn false_tag() -> Seq<u8> {
    seq![0x66u8, 0x61, 0x6c, 0x73, 0x65]
}

pub open spec fn null_tag() -> Seq<u8> {
    seq![0x6eu8, 0x75, 0x6c, 0x6c]
}

/// `true` or `false`.
pub open spec fn spec_boolean(s: Seq<u8>, p: int) -> Outcome<bool> {
    if has_tag(s, p, true_tag()) {
        Outcome::Parsed(true, p + 4)
    } else if has_tag(s, p, false_tag()) {
        Outcome::Parsed(false, p + 5)
    } else {
        Outcome::Rejected
    }
}

/// `null`.
pub open spec fn spec_null(s: Seq<u8>, p: int) -> Outcome<()> {
    if has_tag(s, p, null_tag()) {
        Outcome::Parsed((), p + 4)
    } else {
        Outcome::Rejected
    }
}

pub fn boolean_at(s: &[u8], p: usize) -> (r: Result<(usize, bool), ParseError>)
    requires
        p <= s@.len(),
    ensures
        agrees(r, spec_boolean(s@, p as int)),
        r matches Ok((e, _)) ==> p < e <= s@.len(),
{
    let t: [u8; 4] = [0x74, 0x72, 0x75, 0x65];
    let f: [u8; 5] = [0x66, 0x61, 0x6c, 0x73, 0x65];
    assert(t@ == true_tag());
    assert(f@ == false_tag());
    if tag_at(s, p, &t) {
        Ok((p + 4, true))
    } else if tag_at(s, p, &f) {
        Ok((p + 5, false))
    } else {
        Err(ParseError::Error)
    }
}

pub fn null_at(s: &[u8], p: usize) -> (r: Result<usize, ParseError>)
    requires
        p <= s@.len(),
    ensures
        agrees_unit(r, spec_null(s@, p as int)),
        r matches Ok(e) ==> p < e <= s@.len(),
{
    let t: [u8; 4] = [0x6e, 0x75, 0x6c, 0x6c];
    assert(t@ == null_tag());
    if tag_at(s, p, &t) {
        Ok(p + 4)
    } else {
        Err(ParseError::Error)
    }
}


/// Parses `true` or `false` at the start of `input`.
pub fn boolean(input: &[u8]) -> (r: Result<(&[u8], bool), ParseError>)
    ensures
        rest_agrees(input@, r, spec_boolean(input@, 0)),
{
    with_rest(input, boolean_at(input, 0), Ghost(spec_boolean(input@, 0)))
}

/// Parses `null` at the start of `input`.
pub fn null(input: &[u8]) -> (r: Result<(&[u8], ()), ParseError>)
    ensures
        rest_agrees(input@, r, spec_null(input@, 0)),
{
    unit_rest(input, null_at(input, 0), Ghost(spec_null(input@, 0)))
}

} // verus!
