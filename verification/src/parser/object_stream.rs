//! The header of an object stream: pairs of object numbers and offsets.

use vstd::prelude::*;

use crate::parser::object::{fail_as, spec_uint_filler, uint_filler_at};
use crate::parser::outcome::{Outcome, ParseError};

verus! {

/// The pairs read so far, as integers.
pub open spec fn pairs_view(v: Seq<(usize, usize)>) -> Seq<(int, int)> {
    v.map_values(|x: (usize, usize)| (x.0 as int, x.1 as int))
}

/// `n` more pairs from `q` on, after the pairs `acc`: each number is
/// digits followed by filler, and must fit in `usize`.
pub open spec fn header_pairs(s: Seq<u8>, q: int, n: nat, acc: Seq<(int, int)>) -> Outcome<
    Seq<(int, int)>,
>
    decreases n,
{
    if n == 0 {
        Outcome::Parsed(acc, q)
    } else {
        match spec_uint_filler(s, q) {
            Outcome::Parsed(id, q1) => match spec_uint_filler(s, q1) {
                Outcome::Parsed(off, q2) => header_pairs(s, q2, (n - 1) as nat, acc.push((id, off))),
                f => fail_as(f),
            },
            f => fail_as(f),
        }
    }
}

/// The header of an object stream with `n` objects at the start of `s`.
pub open spec fn spec_object_stream_header(s: Seq<u8>, n: nat) -> Outcome<Seq<(int, int)>> {
    header_pairs(s, 0, n, Seq::empty())
}

/// Reads `n` pairs of object number and offset from the start of `input`;
/// what follows them is ignored. The input must not end inside a comment
/// where the parse reaches it.
pub fn read_object_stream_header(input: &[u8], n: usize) -> (r: Result<
    Vec<(usize, usize)>,
    ParseError,
>)
    requires
        !(spec_object_stream_header(input@, n as nat) is Incomplete),
    ensures
        match spec_object_stream_header(input@, n as nat) {
            Outcome::Parsed(v, _) => r matches Ok(w) && pairs_view(w@) == v,
            _ => r is Err,
        },
{
    object_stream_header(input, n)
}

/// Reads the header as [`read_object_stream_header`] does, telling by its
/// error where the input ends inside a comment.
pub fn object_stream_header(input: &[u8], n: usize) -> (r: Result<Vec<(usize, usize)>, ParseError>)
    ensures
        match spec_object_stream_header(input@, n as nat) {
            Outcome::Parsed(v, _) => r matches Ok(w) && pairs_view(w@) == v,
            Outcome::Incomplete => r == Err::<Vec<(usize, usize)>, ParseError>(ParseError::Incomplete),
            _ => r matches Err(e) && !(e is Incomplete),
        },
{
    let mut out: Vec<(usize, usize)> = Vec::new();
    let mut q: usize = 0;
    let mut k: usize = 0;
    assert(pairs_view(out@) =~= Seq::<(int, int)>::empty());
    while k < n
        invariant
            k <= n,
            q <= input@.len(),
            spec_object_stream_header(input@, n as nat) == header_pairs(
                input@,
                q as int,
                (n - k) as nat,
                pairs_view(out@),
            ),
        decreases n - k,
    {
        let (q1, id) = match uint_filler_at(input, q) {
            Ok(v) => v,
            Err(x) => {
                return Err(x);
            },
        };
        let (q2, off) = match uint_filler_at(input, q1) {
            Ok(v) => v,
            Err(x) => {
                return Err(x);
            },
        };
        let ghost before = out@;
        out.push((id, off));
        assert(pairs_view(out@) =~= pairs_view(before).push((id as int, off as int)));
        q = q2;
        k = k + 1;
    }
    Ok(out)
}

} // verus!
