//! The recursive part of the object grammar: arrays, dictionaries, streams,
//! indirect objects and references, and objects of any kind.

use vstd::prelude::*;
use vstd::slice::{slice_subrange, slice_to_vec};

use crate::parser::boolean::{boolean_at, null_at, spec_boolean, spec_null};
use crate::parser::name::{name_at, spec_name};
use crate::parser::numeric::{
    digits_end, digits_value, digits_value_bounded, is_digit, numeric_at, spec_numeric,
};
use crate::parser::outcome::{
    agrees, has_tag, lemma_run_end, rest_agrees, run_end, tag_at, with_rest, Outcome, ParseError,
};
use crate::parser::string::{pdf_string_at, spec_pdf_string};
use crate::parser::whitespace::{filler_at, spec_filler};
use crate::types::array::Array;
use crate::types::dictionary::{dict_insert, lemma_insert_sorted, sorted_keys, Dictionary};
use crate::types::indirect_object::{IndirectObject, IndirectReference};
use crate::types::numeric::NumericModel;
use crate::types::object::{objects_view, Object, ObjectModel};
use crate::types::stream::Stream;
use crate::types::string::StringModel;

verus! {

/// A failed outcome, carried over to another result type.
pub open spec fn fail_as<A, B>(o: Outcome<A>) -> Outcome<B> {
    match o {
        Outcome::Incomplete => Outcome::Incomplete,
        Outcome::Panics => Outcome::Panics,
        _ => Outcome::Rejected,
    }
}

/// The outcome of an alternative: `first`, unless it was rejected.
pub open spec fn alt_or<T>(first: Outcome<T>, rest: Outcome<T>) -> Outcome<T> {
    if first is Rejected {
        rest
    } else {
        first
    }
}

/// An outcome with its value transformed.
pub open spec fn outcome_map<A, B>(o: Outcome<A>, f: spec_fn(A) -> B) -> Outcome<B> {
    match o {
        Outcome::Parsed(v, e) => Outcome::Parsed(f(v), e),
        _ => fail_as(o),
    }
}

pub open spec fn obj_tag() -> Seq<u8> {
    seq![0x6fu8, 0x62, 0x6a]
}

pub open spec fn endobj_tag() -> Seq<u8> {
    seq![0x65u8, 0x6e, 0x64, 0x6f, 0x62, 0x6a]
}

pub open spec fn stream_tag() -> Seq<u8> {
    seq![0x73u8, 0x74, 0x72, 0x65, 0x61, 0x6d]
}

pub open spec fn endstream_tag() -> Seq<u8> {
    seq![0x65u8, 0x6e, 0x64, 0x73, 0x74, 0x72, 0x65, 0x61, 0x6d]
}

/// The first position at or after `q` where `t` occurs, or -1.
pub open spec fn find_tag(s: Seq<u8>, q: int, t: Seq<u8>) -> int
    decreases s.len() - q,
{
    if q < 0 || q >= s.len() || q + t.len() > s.len() {
        -1
    } else if has_tag(s, q, t) {
        q
    } else {
        find_tag(s, q + 1, t)
    }
}

/// Decimal digits, then filler; the number must fit in `usize` (checked
/// after the filler was read).
pub open spec fn spec_uint_filler(s: Seq<u8>, p: int) -> Outcome<int> {
    let b = run_end(s, p, |c: u8| is_digit(c));
    if !(0 <= p <= s.len()) || b == p {
        Outcome::Rejected
    } else {
        match spec_filler(s, b) {
            Outcome::Parsed(_, q) => if digits_value(s, p, b) <= usize::MAX {
                Outcome::Parsed(digits_value(s, p, b), q)
            } else {
                Outcome::Rejected
            },
            o => fail_as(o),
        }
    }
}

/// `id gen R`.
pub open spec fn spec_indirect_reference(s: Seq<u8>, p: int) -> Outcome<ObjectModel> {
    match spec_uint_filler(s, p) {
        Outcome::Parsed(id, q1) => match spec_uint_filler(s, q1) {
            Outcome::Parsed(g, q2) => if has_tag(s, q2, seq![0x52u8]) {
                Outcome::Parsed(ObjectModel::IndirectReference(id, g), q2 + 1)
            } else {
                Outcome::Rejected
            },
            o => fail_as(o),
        },
        o => fail_as(o),
    }
}

/// `id gen obj`, an object between filler, `endobj`.
pub open spec fn spec_indirect_object(s: Seq<u8>, p: int) -> Outcome<ObjectModel>
    decreases s.len() - p, 3int,
{
    match spec_uint_filler(s, p) {
        Outcome::Parsed(id, q1) => match spec_uint_filler(s, q1) {
            Outcome::Parsed(g, q2) => if has_tag(s, q2, obj_tag()) {
                match spec_filler(s, q2 + 3) {
                    Outcome::Parsed(_, q4) => if 0 <= p < q4 <= s.len() {
                        match spec_object(s, q4) {
                            Outcome::Parsed(o, q5) => match spec_filler(s, q5) {
                                Outcome::Parsed(_, q6) => if has_tag(s, q6, endobj_tag()) {
                                    Outcome::Parsed(
                                        ObjectModel::IndirectDefinition(id, g, Box::new(o)),
                                        q6 + 6,
                                    )
                                } else {
                                    Outcome::Rejected
                                },
                                f => fail_as(f),
                            },
                            f => fail_as(f),
                        }
                    } else {
                        Outcome::Rejected
                    },
                    f => fail_as(f),
                }
            } else {
                Outcome::Rejected
            },
            f => fail_as(f),
        },
        f => fail_as(f),
    }
}

/// Where the data of a stream that starts at `a` ends, when `endstream`
/// is at `e`: before the end-of-line marker (CR LF, LF or CR) that precedes
/// `endstream`, if there is one.
pub open spec fn data_end(s: Seq<u8>, a: int, e: int) -> int {
    if e >= a + 2 && s[e - 2] == 0x0d && s[e - 1] == 0x0a {
        e - 2
    } else if e >= a + 1 && (s[e - 1] == 0x0a || s[e - 1] == 0x0d) {
        e - 1
    } else {
        e
    }
}

/// A dictionary, filler, `stream`, CR LF or LF, the data up to the first
/// `endstream` (without the end-of-line marker before it), `endstream`.
pub open spec fn spec_stream(s: Seq<u8>, p: int) -> Outcome<ObjectModel>
    decreases s.len() - p, 2int,
{
    match spec_dictionary(s, p) {
        Outcome::Parsed(d, q1) => match spec_filler(s, q1) {
            Outcome::Parsed(_, q2) => if has_tag(s, q2, stream_tag()) {
                let q3 = q2 + 6;
                let q4 = if has_tag(s, q3, seq![0x0du8, 0x0a]) {
                    q3 + 2
                } else if has_tag(s, q3, seq![0x0au8]) {
                    q3 + 1
                } else {
                    -1
                };
                let e = find_tag(s, q4, endstream_tag());
                if q4 < 0 || e < 0 {
                    Outcome::Rejected
                } else {
                    Outcome::Parsed(
                        ObjectModel::Stream(d, s.subrange(q4, data_end(s, q4, e))),
                        e + 9,
                    )
                }
            } else {
                Outcome::Rejected
            },
            f => fail_as(f),
        },
        f => fail_as(f),
    }
}

/// `<<`, entries, `>>`.
pub open spec fn spec_dictionary(s: Seq<u8>, p: int) -> Outcome<Seq<(Seq<char>, ObjectModel)>>
    decreases s.len() - p, 1int,
{
    if 0 <= p && has_tag(s, p, seq![0x3cu8, 0x3c]) {
        dict_entries(s, p + 2, Seq::empty())
    } else {
        Outcome::Rejected
    }
}

/// Entries read on top of entries in increasing key order stay in
/// increasing key order.
proof fn lemma_dict_entries_sorted(s: Seq<u8>, q: int, acc: Seq<(Seq<char>, ObjectModel)>)
    requires
        sorted_keys(acc),
    ensures
        dict_entries(s, q, acc) matches Outcome::Parsed(d, _) ==> sorted_keys(d),
    decreases s.len() - q,
{
    if let Outcome::Parsed(_, q1) = spec_filler(s, q) {
        if let Outcome::Parsed(k, q2) = spec_name(s, q1) {
            if let Outcome::Parsed(_, q3) = spec_filler(s, q2) {
                if 0 <= q < q3 <= s.len() {
                    if let Outcome::Parsed(v, q4) = spec_object(s, q3) {
                        if let Outcome::Parsed(_, q5) = spec_filler(s, q4) {
                            if q < q5 <= s.len() {
                                lemma_insert_sorted(acc, k, v);
                                lemma_dict_entries_sorted(s, q5, dict_insert(acc, k, v));
                            }
                        }
                    }
                }
            }
        }
    }
}

/// A dictionary read from the data has each key once, in increasing order
/// of the keys' UTF-8 bytes.
pub proof fn lemma_dictionary_sorted(s: Seq<u8>, p: int)
    ensures
        spec_dictionary(s, p) matches Outcome::Parsed(d, _) ==> sorted_keys(d),
{
    if 0 <= p && has_tag(s, p, seq![0x3cu8, 0x3c]) {
        lemma_dict_entries_sorted(s, p + 2, Seq::empty());
    }
}

/// The end of a dictionary whose entries stopped at `q`.
pub open spec fn dict_close(s: Seq<u8>, q: int, acc: Seq<(Seq<char>, ObjectModel)>) -> Outcome<
    Seq<(Seq<char>, ObjectModel)>,
> {
    if has_tag(s, q, seq![0x3eu8, 0x3e]) {
        Outcome::Parsed(acc, q + 2)
    } else {
        Outcome::Rejected
    }
}

/// Dictionary entries from `q` on: each is filler, a name, filler, an object,
/// filler. The entries stop where one fails to parse (before its filler).
pub open spec fn dict_entries(s: Seq<u8>, q: int, acc: Seq<(Seq<char>, ObjectModel)>) -> Outcome<
    Seq<(Seq<char>, ObjectModel)>,
>
    decreases s.len() - q, 5int,
{
    match spec_filler(s, q) {
        Outcome::Parsed(_, q1) => match spec_name(s, q1) {
            Outcome::Parsed(k, q2) => match spec_filler(s, q2) {
                Outcome::Parsed(_, q3) => if 0 <= q < q3 <= s.len() {
                    match spec_object(s, q3) {
                        Outcome::Parsed(v, q4) => match spec_filler(s, q4) {
                            Outcome::Parsed(_, q5) => if q < q5 <= s.len() {
                                dict_entries(s, q5, dict_insert(acc, k, v))
                            } else {
                                Outcome::Rejected
                            },
                            f => fail_as(f),
                        },
                        Outcome::Rejected => dict_close(s, q, acc),
                        f => fail_as(f),
                    }
                } else {
                    Outcome::Rejected
                },
                f => fail_as(f),
            },
            _ => dict_close(s, q, acc),
        },
        f => fail_as(f),
    }
}

/// `[`, items, `]`.
pub open spec fn spec_array(s: Seq<u8>, p: int) -> Outcome<Seq<ObjectModel>>
    decreases s.len() - p, 1int,
{
    if 0 <= p < s.len() && s[p] == 0x5b {
        array_items(s, p + 1, Seq::empty())
    } else {
        Outcome::Rejected
    }
}

/// Array items from `q` on: each is filler, an object, filler. The items stop
/// where one fails to parse (before its filler).
pub open spec fn array_items(s: Seq<u8>, q: int, acc: Seq<ObjectModel>) -> Outcome<Seq<ObjectModel>>
    decreases s.len() - q, 5int,
{
    match spec_filler(s, q) {
        Outcome::Parsed(_, q1) => if 0 <= q <= q1 <= s.len() {
            match spec_object(s, q1) {
                Outcome::Parsed(o, q2) => match spec_filler(s, q2) {
                    Outcome::Parsed(_, q3) => if q < q3 <= s.len() {
                        array_items(s, q3, acc.push(o))
                    } else {
                        Outcome::Rejected
                    },
                    f => fail_as(f),
                },
                Outcome::Rejected => if 0 <= q < s.len() && s[q] == 0x5d {
                    Outcome::Parsed(acc, q + 1)
                } else {
                    Outcome::Rejected
                },
                f => fail_as(f),
            }
        } else {
            Outcome::Rejected
        },
        f => fail_as(f),
    }
}

/// Any object; the alternatives are tried in this order: indirect object,
/// indirect reference, stream, dictionary, array, number, string, name,
/// boolean, null.
pub open spec fn spec_object(s: Seq<u8>, p: int) -> Outcome<ObjectModel>
    decreases s.len() - p, 4int,
{
    alt_or(
        spec_indirect_object(s, p),
        alt_or(
            spec_indirect_reference(s, p),
            alt_or(
                spec_stream(s, p),
                alt_or(
                    outcome_map(
                        spec_dictionary(s, p),
                        |d: Seq<(Seq<char>, ObjectModel)>| ObjectModel::Dictionary(d),
                    ),
                    alt_or(
                        outcome_map(spec_array(s, p), |a: Seq<ObjectModel>| ObjectModel::Array(a)),
                        alt_or(
                            outcome_map(spec_numeric(s, p), |n: NumericModel| ObjectModel::Numeric(n)),
                            alt_or(
                                outcome_map(
                                    spec_pdf_string(s, p),
                                    |t: StringModel| ObjectModel::String(t),
                                ),
                                alt_or(
                                    outcome_map(spec_name(s, p), |n: Seq<char>| ObjectModel::Name(n)),
                                    alt_or(
                                        outcome_map(spec_boolean(s, p), |b: bool| ObjectModel::Boolean(b)),
                                        outcome_map(spec_null(s, p), |u: ()| ObjectModel::Null),
                                    ),
                                ),
                            ),
                        ),
                    ),
                ),
            ),
        ),
    )
}

/// [`find_tag`] finds an occurrence at or after `q`, or gives -1.
pub proof fn lemma_find_tag(s: Seq<u8>, q: int, t: Seq<u8>)
    ensures
        find_tag(s, q, t) == -1 || (q <= find_tag(s, q, t) && has_tag(s, find_tag(s, q, t), t)),
    decreases s.len() - q,
{
    if !(q < 0 || q >= s.len() || q + t.len() > s.len()) && !has_tag(s, q, t) {
        lemma_find_tag(s, q + 1, t);
    }
}

/// The first position at or after `q` where `t` occurs.
pub fn find_tag_at(s: &[u8], q: usize, t: &[u8]) -> (r: Option<usize>)
    requires
        q <= s@.len(),
        t@.len() > 0,
    ensures
        r matches Some(e) ==> find_tag(s@, q as int, t@) == e && q <= e && e + t@.len() <= s@.len()
            && has_tag(s@, e as int, t@),
        r is None ==> find_tag(s@, q as int, t@) == -1,
{
    let mut i = q;
    while i < s.len() && t.len() <= s.len() - i
        invariant
            q <= i <= s@.len(),
            t@.len() > 0,
            find_tag(s@, i as int, t@) == find_tag(s@, q as int, t@),
        decreases s@.len() - i,
    {
        if tag_at(s, i, t) {
            return Some(i);
        }
        i = i + 1;
    }
    None
}

/// The result of [`uint_filler_at`] agrees with [`spec_uint_filler`].
pub open spec fn agrees_uint(r: Result<(usize, usize), ParseError>, m: Outcome<int>) -> bool {
    match r {
        Ok((q, v)) => m == Outcome::Parsed(v as int, q as int),
        Err(ParseError::Error) => m is Rejected,
        Err(ParseError::Incomplete) => m is Incomplete,
        Err(ParseError::Abort) => m is Panics,
    }
}

/// Decimal digits that fit in `usize`, then filler: the end and the number.
pub fn uint_filler_at(s: &[u8], p: usize) -> (r: Result<(usize, usize), ParseError>)
    requires
        p <= s@.len(),
    ensures
        agrees_uint(r, spec_uint_filler(s@, p as int)),
        r matches Ok((q, _)) ==> p < q <= s@.len(),
{
    let b = digits_end(s, p);
    if b == p {
        return Err(ParseError::Error);
    }
    proof {
        lemma_run_end(s@, p as int, |c: u8| is_digit(c));
    }
    let q = filler_at(s, b)?;
    match digits_value_bounded(s, p, b, usize::MAX as u64) {
        Some(v) => Ok((q, v as usize)),
        None => Err(ParseError::Error),
    }
}

/// Parses `id gen R` at `p`.
pub fn indirect_reference_at(s: &[u8], p: usize) -> (r: Result<(usize, Object), ParseError>)
    requires
        p <= s@.len(),
    ensures
        agrees(r, spec_indirect_reference(s@, p as int)),
        r matches Ok((e, _)) ==> p < e <= s@.len(),
{
    let (q1, id) = uint_filler_at(s, p)?;
    let (q2, g) = uint_filler_at(s, q1)?;
    let t: [u8; 1] = [0x52];
    assert(t@ == seq![0x52u8]);
    if tag_at(s, q2, &t) {
        Ok((q2 + 1, Object::IndirectReference(IndirectReference { id, gen_id: g })))
    } else {
        Err(ParseError::Error)
    }
}

/// Parses `id gen obj ... endobj` at `p`.
pub fn indirect_object_at(s: &[u8], p: usize) -> (r: Result<(usize, Object), ParseError>)
    requires
        p <= s@.len(),
    ensures
        agrees(r, spec_indirect_object(s@, p as int)),
        r matches Ok((e, _)) ==> p < e <= s@.len(),
    decreases s@.len() - p, 3int,
{
    let (q1, id) = uint_filler_at(s, p)?;
    let (q2, g) = uint_filler_at(s, q1)?;
    let t: [u8; 3] = [0x6f, 0x62, 0x6a];
    assert(t@ == obj_tag());
    if !tag_at(s, q2, &t) {
        return Err(ParseError::Error);
    }
    let q4 = filler_at(s, q2 + 3)?;
    let (q5, o) = object_at(s, q4)?;
    let q6 = filler_at(s, q5)?;
    let t2: [u8; 6] = [0x65, 0x6e, 0x64, 0x6f, 0x62, 0x6a];
    assert(t2@ == endobj_tag());
    if tag_at(s, q6, &t2) {
        Ok((q6 + 6, Object::IndirectDefinition(IndirectObject::new(id, g, o))))
    } else {
        Err(ParseError::Error)
    }
}

/// Parses a stream at `p`.
#[verifier::rlimit(30)]
pub fn stream_at(s: &[u8], p: usize) -> (r: Result<(usize, Object), ParseError>)
    requires
        p <= s@.len(),
    ensures
        agrees(r, spec_stream(s@, p as int)),
        r matches Ok((e, _)) ==> p < e <= s@.len(),
    decreases s@.len() - p, 2int,
{
    let (q1, d) = dictionary_at(s, p)?;
    let q2 = filler_at(s, q1)?;
    let t: [u8; 6] = [0x73, 0x74, 0x72, 0x65, 0x61, 0x6d];
    assert(t@ == stream_tag());
    if !tag_at(s, q2, &t) {
        return Err(ParseError::Error);
    }
    let q3 = q2 + 6;
    let crlf: [u8; 2] = [0x0d, 0x0a];
    let lf: [u8; 1] = [0x0a];
    assert(crlf@ == seq![0x0du8, 0x0a]);
    assert(lf@ == seq![0x0au8]);
    let q4 = if tag_at(s, q3, &crlf) {
        q3 + 2
    } else if tag_at(s, q3, &lf) {
        q3 + 1
    } else {
        return Err(ParseError::Error);
    };
    let et: [u8; 9] = [0x65, 0x6e, 0x64, 0x73, 0x74, 0x72, 0x65, 0x61, 0x6d];
    assert(et@ == endstream_tag());
    match find_tag_at(s, q4, &et) {
        Some(e) => {
            let end = if e >= q4 + 2 && s[e - 2] == 0x0d && s[e - 1] == 0x0a {
                e - 2
            } else if e >= q4 + 1 && (s[e - 1] == 0x0a || s[e - 1] == 0x0d) {
                e - 1
            } else {
                e
            };
            assert(end == data_end(s@, q4 as int, e as int));
            let data = slice_to_vec(slice_subrange(s, q4, end));
            Ok((e + 9, Object::Stream(Stream { dictionary: d, data })))
        },
        None => Err(ParseError::Error),
    }
}

/// Parses `<< ... >>` at `p`.
pub fn dictionary_at(s: &[u8], p: usize) -> (r: Result<(usize, Dictionary), ParseError>)
    requires
        p <= s@.len(),
    ensures
        agrees(r, spec_dictionary(s@, p as int)),
        r matches Ok((e, _)) ==> p < e <= s@.len(),
    decreases s@.len() - p, 1int,
{
    let open: [u8; 2] = [0x3c, 0x3c];
    let close: [u8; 2] = [0x3e, 0x3e];
    assert(open@ == seq![0x3cu8, 0x3c]);
    assert(close@ == seq![0x3eu8, 0x3e]);
    if !tag_at(s, p, &open) {
        return Err(ParseError::Error);
    }
    let mut dict = Dictionary::new();
    let mut q = p + 2;
    loop
        invariant
            p + 2 <= q <= s@.len(),
            open@ == seq![0x3cu8, 0x3c],
            close@ == seq![0x3eu8, 0x3e],
            spec_dictionary(s@, p as int) == dict_entries(s@, q as int, dict@),
        decreases s@.len() - q,
    {
        let q1 = filler_at(s, q)?;
        let stop = match name_at(s, q1) {
            Ok((q2, key)) => {
                let q3 = filler_at(s, q2)?;
                match object_at(s, q3) {
                    Ok((q4, value)) => {
                        let q5 = filler_at(s, q4)?;
                        dict.insert(key, value);
                        q = q5;
                        false
                    },
                    Err(ParseError::Error) => true,
                    Err(e) => {
                        return Err(e);
                    },
                }
            },
            Err(_) => true,
        };
        if stop {
            if tag_at(s, q, &close) {
                return Ok((q + 2, dict));
            } else {
                return Err(ParseError::Error);
            }
        }
    }
}

/// Parses `[ ... ]` at `p`.
pub fn array_at(s: &[u8], p: usize) -> (r: Result<(usize, Array), ParseError>)
    requires
        p <= s@.len(),
    ensures
        agrees(r, spec_array(s@, p as int)),
        r matches Ok((e, _)) ==> p < e <= s@.len(),
    decreases s@.len() - p, 1int,
{
    if !(p < s.len() && s[p] == 0x5b) {
        return Err(ParseError::Error);
    }
    let mut items: Vec<Object> = Vec::new();
    let mut q = p + 1;
    loop
        invariant
            p + 1 <= q <= s@.len(),
            spec_array(s@, p as int) == array_items(s@, q as int, objects_view(items@)),
        decreases s@.len() - q,
    {
        let q1 = filler_at(s, q)?;
        match object_at(s, q1) {
            Ok((q2, o)) => {
                let q3 = filler_at(s, q2)?;
                let ghost before = items@;
                items.push(o);
                assert(items@.drop_last() =~= before);
                q = q3;
            },
            Err(ParseError::Error) => {
                if q < s.len() && s[q] == 0x5d {
                    return Ok((q + 1, Array::from_vec(items)));
                } else {
                    return Err(ParseError::Error);
                }
            },
            Err(e) => {
                return Err(e);
            },
        }
    }
}

/// Parses an object of any kind at `p`.
pub fn object_at(s: &[u8], p: usize) -> (r: Result<(usize, Object), ParseError>)
    requires
        p <= s@.len(),
    ensures
        agrees(r, spec_object(s@, p as int)),
        r matches Ok((e, _)) ==> p < e <= s@.len(),
    decreases s@.len() - p, 4int,
{
    match indirect_object_at(s, p) {
        Ok(r) => {
            return Ok(r);
        },
        Err(ParseError::Error) => {},
        Err(e) => {
            return Err(e);
        },
    }
    match indirect_reference_at(s, p) {
        Ok(r) => {
            return Ok(r);
        },
        Err(ParseError::Error) => {},
        Err(e) => {
            return Err(e);
        },
    }
    match stream_at(s, p) {
        Ok(r) => {
            return Ok(r);
        },
        Err(ParseError::Error) => {},
        Err(e) => {
            return Err(e);
        },
    }
    match dictionary_at(s, p) {
        Ok((e, d)) => {
            return Ok((e, Object::Dictionary(d)));
        },
        Err(ParseError::Error) => {},
        Err(e) => {
            return Err(e);
        },
    }
    match array_at(s, p) {
        Ok((e, a)) => {
            return Ok((e, Object::Array(a)));
        },
        Err(ParseError::Error) => {},
        Err(e) => {
            return Err(e);
        },
    }
    match numeric_at(s, p) {
        Ok((e, n)) => {
            return Ok((e, Object::Numeric(n)));
        },
        Err(_) => {},
    }
    match pdf_string_at(s, p) {
        Ok((e, t)) => {
            return Ok((e, Object::String(t)));
        },
        Err(ParseError::Abort) => {
            return Err(ParseError::Abort);
        },
        Err(_) => {},
    }
    match name_at(s, p) {
        Ok((e, n)) => {
            return Ok((e, Object::Name(n)));
        },
        Err(_) => {},
    }
    match boolean_at(s, p) {
        Ok((e, b)) => {
            return Ok((e, Object::Boolean(b)));
        },
        Err(_) => {},
    }
    match null_at(s, p) {
        Ok(e) => Ok((e, Object::Null)),
        Err(_) => Err(ParseError::Error),
    }
}


/// The dictionary and data of a stream's model.
pub open spec fn stream_parts(o: ObjectModel) -> (Seq<(Seq<char>, ObjectModel)>, Seq<u8>) {
    (o->Stream_0, o->Stream_1)
}

/// The numbers and the object of an indirect definition's model.
pub open spec fn definition_parts(o: ObjectModel) -> (int, int, ObjectModel) {
    (o->IndirectDefinition_0, o->IndirectDefinition_1, *o->IndirectDefinition_2)
}

/// The numbers of an indirect reference's model.
pub open spec fn reference_parts(o: ObjectModel) -> (int, int) {
    (o->IndirectReference_0, o->IndirectReference_1)
}

/// Parses an array at the start of `input`.
pub fn array(input: &[u8]) -> (r: Result<(&[u8], Array), ParseError>)
    ensures
        rest_agrees(input@, r, spec_array(input@, 0)),
{
    with_rest(input, array_at(input, 0), Ghost(spec_array(input@, 0)))
}

/// Parses a dictionary at the start of `input`.
pub fn dictionary(input: &[u8]) -> (r: Result<(&[u8], Dictionary), ParseError>)
    ensures
        rest_agrees(input@, r, spec_dictionary(input@, 0)),
{
    with_rest(input, dictionary_at(input, 0), Ghost(spec_dictionary(input@, 0)))
}

/// Parses an object of any kind at the start of `input`.
pub fn object(input: &[u8]) -> (r: Result<(&[u8], Object), ParseError>)
    ensures
        rest_agrees(input@, r, spec_object(input@, 0)),
{
    with_rest(input, object_at(input, 0), Ghost(spec_object(input@, 0)))
}

/// Parses a stream at the start of `input`.
pub fn stream(input: &[u8]) -> (r: Result<(&[u8], Stream), ParseError>)
    ensures
        rest_agrees(input@, r, outcome_map(spec_stream(input@, 0), |o: ObjectModel| stream_parts(o))),
{
    match stream_at(input, 0) {
        Ok((e, Object::Stream(st))) => Ok((slice_subrange(input, e, input.len()), st)),
        Ok(_) => Err(ParseError::Error),
        Err(x) => Err(x),
    }
}

/// Parses an indirect object definition at the start of `input`.
pub fn indirect_object(input: &[u8]) -> (r: Result<(&[u8], IndirectObject), ParseError>)
    ensures
        rest_agrees(
            input@,
            r,
            outcome_map(spec_indirect_object(input@, 0), |o: ObjectModel| definition_parts(o)),
        ),
{
    match indirect_object_at(input, 0) {
        Ok((e, Object::IndirectDefinition(io))) => Ok((slice_subrange(input, e, input.len()), io)),
        Ok(_) => Err(ParseError::Error),
        Err(x) => Err(x),
    }
}

/// Parses an indirect reference at the start of `input`.
pub fn indirect_reference(input: &[u8]) -> (r: Result<(&[u8], IndirectReference), ParseError>)
    ensures
        rest_agrees(
            input@,
            r,
            outcome_map(spec_indirect_reference(input@, 0), |o: ObjectModel| reference_parts(o)),
        ),
{
    match indirect_reference_at(input, 0) {
        Ok((e, Object::IndirectReference(ir))) => Ok((slice_subrange(input, e, input.len()), ir)),
        Ok(_) => Err(ParseError::Error),
        Err(x) => Err(x),
    }
}

/// Parses a whole object from `input` and gives it, without the rest.
/// The input must not end inside a comment, nor hold a literal string whose
/// text is not valid UTF-8, where the parse reaches them.
pub fn read_object(input: &[u8]) -> (r: Result<Object, ParseError>)
    requires
        !(spec_object(input@, 0) is Incomplete),
        !(spec_object(input@, 0) is Panics),
    ensures
        match spec_object(input@, 0) {
            Outcome::Parsed(v, _) => r matches Ok(o) && o@ == v,
            _ => r == Err::<Object, ParseError>(ParseError::Error),
        },
{
    match object_at(input, 0) {
        Ok((_, o)) => Ok(o),
        Err(x) => Err(x),
    }
}

} // verus!
