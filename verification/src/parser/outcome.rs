use vstd::prelude::*;
use vstd::slice::slice_subrange;

verus! {

/// What a parser does on some input, as a mathematical value.
///
/// `Parsed(v, q)`: the parser succeeded with value `v` and stopped at
/// position `q`. `Rejected`: it failed with a recoverable error, so that an
/// enclosing alternative tries its next branch. `Incomplete`: it asked for
/// more input (a comment that runs to the end of the buffer); this is never
/// recovered from. `Panics`: the text of a literal string is not valid UTF-8,
/// and the computation cannot go on.
pub enum Outcome<T> {
    Parsed(T, int),
    Rejected,
    Incomplete,
    Panics,
}

impl<T> Outcome<T> {
    /// The end position of a successful parse.
    pub open spec fn end(self) -> int
        recommends
            self is Parsed,
    {
        match self {
            Outcome::Parsed(_, q) => q,
            _ => 0,
        }
    }

    pub open spec fn value(self) -> T
        recommends
            self is Parsed,
    {
        self->Parsed_0
    }
}

/// Why a parser did not succeed.
#[derive(Debug, Clone, Copy, PartialEq, Eq)]
pub enum ParseError {
    /// The input does not match; an enclosing alternative may try another branch.
    Error,
    /// The input ended inside a comment whose end of line was still expected.
    Incomplete,
    /// A literal string holds bytes that are not valid UTF-8 where its text
    /// is taken as a character string; parsing cannot go on past them.
    Abort,
}

/// An executable parse result (end position, value) agrees with a spec outcome.
pub open spec fn agrees<T: View>(r: Result<(usize, T), ParseError>, m: Outcome<T::V>) -> bool {
    match r {
        Ok((n, v)) => m == Outcome::Parsed(v@, n as int),
        Err(ParseError::Error) => m is Rejected,
        Err(ParseError::Incomplete) => m is Incomplete,
        Err(ParseError::Abort) => m is Panics,
    }
}

/// Same as [`agrees`], for parsers whose only result is their end position.
pub open spec fn agrees_unit(r: Result<usize, ParseError>, m: Outcome<()>) -> bool {
    match r {
        Ok(n) => m == Outcome::Parsed((), n as int),
        Err(ParseError::Error) => m is Rejected,
        Err(ParseError::Incomplete) => m is Incomplete,
        Err(ParseError::Abort) => m is Panics,
    }
}

/// A parse result that hands back the unparsed rest of the input agrees with
/// a spec outcome for the parse of all of `input` from its start.
pub open spec fn rest_agrees<T: View>(
    input: Seq<u8>,
    r: Result<(&[u8], T), ParseError>,
    m: Outcome<T::V>,
) -> bool {
    match r {
        Ok((rest, v)) => match m {
            Outcome::Parsed(w, e) => w == v@ && 0 <= e <= input.len() && rest@ == input.subrange(
                e,
                input.len() as int,
            ),
            _ => false,
        },
        Err(ParseError::Error) => m is Rejected,
        Err(ParseError::Incomplete) => m is Incomplete,
        Err(ParseError::Abort) => m is Panics,
    }
}

/// Turns the end position of a parse of `s` into the rest of `s` after it.
pub fn with_rest<'a, T: View>(
    s: &'a [u8],
    r: Result<(usize, T), ParseError>,
    Ghost(m): Ghost<Outcome<T::V>>,
) -> (out: Result<(&'a [u8], T), ParseError>)
    requires
        agrees(r, m),
        r matches Ok((e, _)) ==> e <= s@.len(),
    ensures
        rest_agrees(s@, out, m),
{
    match r {
        Ok((e, v)) => Ok((slice_subrange(s, e, s.len()), v)),
        Err(x) => Err(x),
    }
}

/// [`with_rest`] for parsers whose only result is their end position.
pub fn unit_rest<'a>(s: &'a [u8], r: Result<usize, ParseError>, Ghost(m): Ghost<Outcome<()>>) -> (out:
    Result<(&'a [u8], ()), ParseError>)
    requires
        agrees_unit(r, m),
        r matches Ok(e) ==> e <= s@.len(),
    ensures
        rest_agrees(s@, out, m),
{
    match r {
        Ok(e) => Ok((slice_subrange(s, e, s.len()), ())),
        Err(x) => Err(x),
    }
}

/// The first position at or after `p` whose byte does not satisfy `pred`
/// (or the end of `s`).
pub open spec fn run_end(s: Seq<u8>, p: int, pred: spec_fn(u8) -> bool) -> int
    decreases s.len() - p,
{
    if 0 <= p < s.len() && pred(s[p]) {
        run_end(s, p + 1, pred)
    } else {
        p
    }
}

/// Facts about [`run_end`]: it lies in `[p, len]`, every byte before it
/// satisfies `pred`, and the byte at it (if any) does not.
pub proof fn lemma_run_end(s: Seq<u8>, p: int, pred: spec_fn(u8) -> bool)
    requires
        0 <= p <= s.len(),
    ensures
        p <= run_end(s, p, pred) <= s.len(),
        forall|i: int| p <= i < run_end(s, p, pred) ==> pred(#[trigger] s[i]),
        run_end(s, p, pred) < s.len() ==> !pred(s[run_end(s, p, pred)]),
    decreases s.len() - p,
{
    if p < s.len() && pred(s[p]) {
        lemma_run_end(s, p + 1, pred);
    }
}

/// Whether `s` holds the bytes of `t` starting at position `p`.
pub open spec fn has_tag(s: Seq<u8>, p: int, t: Seq<u8>) -> bool {
    0 <= p && p + t.len() <= s.len() && s.subrange(p, p + t.len()) == t
}

/// Whether `t` occurs in `s` at position `p` (an executable check).
pub fn tag_at(s: &[u8], p: usize, t: &[u8]) -> (r: bool)
    requires
        p <= s@.len(),
    ensures
        r == has_tag(s@, p as int, t@),
        r ==> p + t@.len() <= s.len(),
{
    if t.len() > s.len() - p {
        return false;
    }
    let mut i: usize = 0;
    while i < t.len()
        invariant
            i <= t@.len(),
            p + t@.len() <= s@.len(),
            s@.len() == s.len(),
            forall|j: int| 0 <= j < i ==> s@[p + j] == t@[j],
        decreases t@.len() - i,
    {
        if s[p + i] != t[i] {
            assert(s@.subrange(p as int, p + t@.len())[i as int] != t@[i as int]);
            return false;
        }
        i = i + 1;
    }
    assert(s@.subrange(p as int, p + t@.len()) =~= t@);
    true
}

/// Appends the bytes `s[a..b]` to `buf`.
pub fn push_range(buf: &mut Vec<u8>, s: &[u8], a: usize, b: usize)
    requires
        a <= b <= s@.len(),
    ensures
        final(buf)@ == old(buf)@ + s@.subrange(a as int, b as int),
{
    let ghost start = buf@;
    let mut i = a;
    while i < b
        invariant
            a <= i <= b <= s@.len(),
            buf@ == start + s@.subrange(a as int, i as int),
        decreases b - i,
    {
        buf.push(s[i]);
        assert(s@.subrange(a as int, i + 1) == s@.subrange(a as int, i as int).push(s@[i as int]));
        i = i + 1;
    }
}

} // verus!
