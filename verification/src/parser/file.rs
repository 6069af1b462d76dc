//! The file-level structures: the `startxref` pointer, cross-reference
//! tables and streams, and the trailer.

use vstd::prelude::*;
use vstd::slice::slice_subrange;

use crate::parser::numeric::{digits_end, digits_value, digits_value_bounded, is_digit};
use crate::parser::object::{
    alt_or, definition_parts, dictionary_at, fail_as, find_tag, find_tag_at, indirect_object,
    outcome_map, spec_dictionary, spec_indirect_object, spec_stream, stream, stream_parts,
};
use crate::parser::outcome::{
    agrees, has_tag, lemma_run_end, rest_agrees, run_end, tag_at, with_rest, Outcome, ParseError,
};
use crate::parser::whitespace::{eol_at, filler_at, spec_eol, spec_filler};
use crate::types::dictionary::Dictionary;
use crate::types::indirect_object::IndirectObject;
use crate::types::object::ObjectModel;
use crate::types::stream::Stream;

verus! {

/// One entry of a cross-reference table: where an object starts, its
/// generation number, and whether it is in use (`n`) or free (`f`).
#[derive(Debug, Clone, Copy, PartialEq, Eq)]
pub struct XrefTableEntry {
    pub offset: usize,
    pub gen_id: usize,
    pub occupied: bool,
}

/// A section of a cross-reference table: the number of its first object,
/// the count written in its header, and its entries.
#[derive(Debug, Clone, PartialEq)]
pub struct XrefTableSection {
    pub first_id: usize,
    pub _length: usize,
    pub entries: Vec<XrefTableEntry>,
}

/// Cross-reference information: a table, a cross-reference stream, or an
/// indirect object that holds such a stream.
#[derive(Debug, PartialEq)]
pub enum XrefObject {
    Table(Vec<XrefTableSection>),
    ObjectStream(Stream),
    IndirectObjectStream(IndirectObject),
}

/// The model of a cross-reference entry: offset, generation, in use.
pub type EntryModel = (int, int, bool);

/// The model of a section: first object number, count, entries.
pub type SectionModel = (int, int, Seq<EntryModel>);

/// The mathematical value of an [`XrefObject`].
pub enum XrefObjectModel {
    Table(Seq<SectionModel>),
    ObjectStream((Seq<(Seq<char>, ObjectModel)>, Seq<u8>)),
    IndirectObjectStream((int, int, ObjectModel)),
}

impl View for XrefTableEntry {
    type V = EntryModel;

    open spec fn view(&self) -> EntryModel {
        (self.offset as int, self.gen_id as int, self.occupied)
    }
}

impl View for XrefTableSection {
    type V = SectionModel;

    open spec fn view(&self) -> SectionModel {
        (self.first_id as int, self._length as int, entries_view(self.entries@))
    }
}

pub open spec fn entries_view(s: Seq<XrefTableEntry>) -> Seq<EntryModel> {
    s.map_values(|e: XrefTableEntry| e@)
}

pub open spec fn sections_view(s: Seq<XrefTableSection>) -> Seq<SectionModel> {
    s.map_values(|t: XrefTableSection| t@)
}

impl View for XrefObject {
    type V = XrefObjectModel;

    open spec fn view(&self) -> XrefObjectModel {
        match self {
            XrefObject::Table(t) => XrefObjectModel::Table(sections_view(t@)),
            XrefObject::ObjectStream(st) => XrefObjectModel::ObjectStream(st@),
            XrefObject::IndirectObjectStream(io) => XrefObjectModel::IndirectObjectStream(io@),
        }
    }
}

pub open spec fn startxref_tag() -> Seq<u8> {
    seq![0x73u8, 0x74, 0x61, 0x72, 0x74, 0x78, 0x72, 0x65, 0x66]
}

pub open spec fn eof_tag() -> Seq<u8> {
    seq![0x25u8, 0x25, 0x45, 0x4f, 0x46]
}

pub open spec fn xref_tag() -> Seq<u8> {
    seq![0x78u8, 0x72, 0x65, 0x66]
}

pub open spec fn trailer_tag() -> Seq<u8> {
    seq![0x74u8, 0x72, 0x61, 0x69, 0x6c, 0x65, 0x72]
}

/// Whether `s[a..b]` is one or more digits.
pub open spec fn all_digits(s: Seq<u8>, a: int, b: int) -> bool {
    a < b && run_end(s, a, |c: u8| is_digit(c)) >= b
}

/// The first occurrence of `startxref`, an end of line, the decimal offset
/// (which must fit in 64 bits), an end of line, `%%EOF`.
pub open spec fn spec_startxref(s: Seq<u8>) -> Outcome<int> {
    let k = find_tag(s, 0, startxref_tag());
    if k < 0 {
        Outcome::Rejected
    } else {
        match spec_eol(s, k + 9) {
            Outcome::Parsed(_, q1) => {
                let b = run_end(s, q1, |c: u8| is_digit(c));
                if b == q1 || digits_value(s, q1, b) > u64::MAX {
                    Outcome::Rejected
                } else {
                    match spec_eol(s, b) {
                        Outcome::Parsed(_, q2) => if has_tag(s, q2, eof_tag()) {
                            Outcome::Parsed(digits_value(s, q1, b), q2 + 5)
                        } else {
                            Outcome::Rejected
                        },
                        _ => Outcome::Rejected,
                    }
                }
            },
            _ => Outcome::Rejected,
        }
    }
}

/// A fixed-width number field `s[a..b]`: an optional `+` and one or more
/// digits filling the field, whose value fits in `usize`.
pub open spec fn spec_uint_field(s: Seq<u8>, a: int, b: int) -> Option<int> {
    let d = if a < b && s[a] == 0x2b {
        a + 1
    } else {
        a
    };
    if 0 <= a && b <= s.len() && all_digits(s, d, b) && digits_value(s, d, b) <= usize::MAX {
        Some(digits_value(s, d, b))
    } else {
        None
    }
}

/// One table entry at `q`: ten bytes of offset, a space, five bytes of
/// generation, a space, `n` or `f`, an optional space, an end of line.
pub open spec fn spec_xref_entry(s: Seq<u8>, q: int) -> Outcome<EntryModel> {
    if !(0 <= q && q + 18 <= s.len()) {
        Outcome::Rejected
    } else {
        match (spec_uint_field(s, q, q + 10), spec_uint_field(s, q + 11, q + 16)) {
            (Some(off), Some(g)) => if s[q + 10] == 0x20 && s[q + 16] == 0x20 && (s[q + 17] == 0x6e
                || s[q + 17] == 0x66) {
                let q1 = if q + 18 < s.len() && s[q + 18] == 0x20 {
                    q + 19
                } else {
                    q + 18
                };
                match spec_eol(s, q1) {
                    Outcome::Parsed(_, q2) => Outcome::Parsed((off, g, s[q + 17] == 0x6e), q2),
                    _ => Outcome::Rejected,
                }
            } else {
                Outcome::Rejected
            },
            _ => Outcome::Rejected,
        }
    }
}

/// Entries from `q` on, as many as parse.
pub open spec fn xref_entries(s: Seq<u8>, q: int, acc: Seq<EntryModel>) -> (Seq<EntryModel>, int)
    decreases s.len() - q,
{
    match spec_xref_entry(s, q) {
        Outcome::Parsed(e, q1) => if q < q1 <= s.len() {
            xref_entries(s, q1, acc.push(e))
        } else {
            (acc, q)
        },
        _ => (acc, q),
    }
}

/// A section header at `q`: the first object number, a space, the count,
/// an end of line; both numbers fit in `usize`.
pub open spec fn spec_section_header(s: Seq<u8>, q: int) -> Outcome<(int, int)> {
    let b1 = run_end(s, q, |c: u8| is_digit(c));
    if !(0 <= q <= s.len()) || b1 == q || digits_value(s, q, b1) > usize::MAX || !(b1 < s.len()
        && s[b1] == 0x20) {
        Outcome::Rejected
    } else {
        let b2 = run_end(s, b1 + 1, |c: u8| is_digit(c));
        if b2 == b1 + 1 || digits_value(s, b1 + 1, b2) > usize::MAX {
            Outcome::Rejected
        } else {
            match spec_eol(s, b2) {
                Outcome::Parsed(_, q3) => Outcome::Parsed(
                    (digits_value(s, q, b1), digits_value(s, b1 + 1, b2)),
                    q3,
                ),
                _ => Outcome::Rejected,
            }
        }
    }
}

/// Sections from `q` on, as many as parse: a header and its entries each.
pub open spec fn xref_sections(s: Seq<u8>, q: int, acc: Seq<SectionModel>) -> (Seq<SectionModel>, int)
    decreases s.len() - q,
{
    match spec_section_header(s, q) {
        Outcome::Parsed((f, n), q1) => {
            let (es, q2) = xref_entries(s, q1, Seq::empty());
            if q < q2 <= s.len() {
                xref_sections(s, q2, acc.push((f, n, es)))
            } else {
                (acc, q)
            }
        },
        _ => (acc, q),
    }
}

/// A cross-reference table at `p`: `xref`, an end of line, its sections.
pub open spec fn spec_xref_table(s: Seq<u8>, p: int) -> Outcome<Seq<SectionModel>> {
    if has_tag(s, p, xref_tag()) {
        match spec_eol(s, p + 4) {
            Outcome::Parsed(_, q) => {
                let (secs, e) = xref_sections(s, q, Seq::empty());
                Outcome::Parsed(secs, e)
            },
            _ => Outcome::Rejected,
        }
    } else {
        Outcome::Rejected
    }
}

/// Cross-reference information at the start of `s`: a table, else a stream,
/// else an indirect object.
#[verifier::opaque]
pub open spec fn spec_xref_object(s: Seq<u8>) -> Outcome<XrefObjectModel> {
    alt_or(
        outcome_map(spec_xref_table(s, 0), |t: Seq<SectionModel>| XrefObjectModel::Table(t)),
        alt_or(
            outcome_map(
                spec_stream(s, 0),
                |o: ObjectModel| XrefObjectModel::ObjectStream(stream_parts(o)),
            ),
            outcome_map(
                spec_indirect_object(s, 0),
                |o: ObjectModel| XrefObjectModel::IndirectObjectStream(definition_parts(o)),
            ),
        ),
    )
}

/// The trailer at the start of `s`: filler, `trailer`, filler, a dictionary.
#[verifier::opaque]
pub open spec fn spec_trailer(s: Seq<u8>) -> Outcome<Seq<(Seq<char>, ObjectModel)>> {
    match spec_filler(s, 0) {
        Outcome::Parsed(_, q1) => if has_tag(s, q1, trailer_tag()) {
            match spec_filler(s, q1 + 7) {
                Outcome::Parsed(_, q2) => spec_dictionary(s, q2),
                f => fail_as(f),
            }
        } else {
            Outcome::Rejected
        },
        f => fail_as(f),
    }
}

/// Reads the `startxref` pointer: the text before the first `startxref` is
/// skipped, and the offset after it is given with the input after `%%EOF`.
pub fn read_startxref(input: &[u8]) -> (r: Result<(&[u8], u64), ParseError>)
    ensures
        match spec_startxref(input@) {
            Outcome::Parsed(v, e) => r matches Ok((rest, w)) && w == v && rest@ == input@.subrange(
                e,
                input@.len() as int,
            ),
            _ => r == Err::<(&[u8], u64), ParseError>(ParseError::Error),
        },
{
    let t: [u8; 9] = [0x73, 0x74, 0x61, 0x72, 0x74, 0x78, 0x72, 0x65, 0x66];
    assert(t@ == startxref_tag());
    let k = match find_tag_at(input, 0, &t) {
        Some(k) => k,
        None => {
            return Err(ParseError::Error);
        },
    };
    assert(k + 9 <= input.len());
    let q1 = match eol_at(input, k + 9) {
        Ok(q) => q,
        Err(_) => {
            return Err(ParseError::Error);
        },
    };
    let b = digits_end(input, q1);
    if b == q1 {
        return Err(ParseError::Error);
    }
    proof {
        lemma_run_end(input@, q1 as int, |c: u8| is_digit(c));
    }
    let v = match digits_value_bounded(input, q1, b, u64::MAX) {
        Some(v) => v,
        None => {
            return Err(ParseError::Error);
        },
    };
    let q2 = match eol_at(input, b) {
        Ok(q) => q,
        Err(_) => {
            return Err(ParseError::Error);
        },
    };
    let eof: [u8; 5] = [0x25, 0x25, 0x45, 0x4f, 0x46];
    assert(eof@ == eof_tag());
    if tag_at(input, q2, &eof) {
        Ok((slice_subrange(input, q2 + 5, input.len()), v))
    } else {
        Err(ParseError::Error)
    }
}

/// The value of the fixed-width field `s[a..b]`.
fn uint_field_at(s: &[u8], a: usize, b: usize) -> (r: Option<usize>)
    requires
        a <= b <= s@.len(),
    ensures
        r matches Some(v) ==> spec_uint_field(s@, a as int, b as int) == Some(v as int),
        r is None ==> spec_uint_field(s@, a as int, b as int) is None,
{
    let d = if a < b && s[a] == 0x2b {
        a + 1
    } else {
        a
    };
    if d >= b {
        return None;
    }
    let e = digits_end(s, d);
    if e < b {
        return None;
    }
    proof {
        lemma_run_end(s@, d as int, |c: u8| is_digit(c));
    }
    match digits_value_bounded(s, d, b, usize::MAX as u64) {
        Some(v) => Some(v as usize),
        None => None,
    }
}

/// Parses one table entry at `q`.
fn xref_entry_at(s: &[u8], q: usize) -> (r: Result<(usize, XrefTableEntry), ParseError>)
    requires
        q <= s@.len(),
    ensures
        agrees(r, spec_xref_entry(s@, q as int)),
        r matches Ok((e, _)) ==> q < e <= s@.len(),
{
    if s.len() - q < 18 {
        return Err(ParseError::Error);
    }
    let offset = match uint_field_at(s, q, q + 10) {
        Some(v) => v,
        None => {
            return Err(ParseError::Error);
        },
    };
    let gen_id = match uint_field_at(s, q + 11, q + 16) {
        Some(v) => v,
        None => {
            return Err(ParseError::Error);
        },
    };
    if s[q + 10] != 0x20 || s[q + 16] != 0x20 {
        return Err(ParseError::Error);
    }
    let c = s[q + 17];
    let occupied = if c == 0x6e {
        true
    } else if c == 0x66 {
        false
    } else {
        return Err(ParseError::Error);
    };
    let q1 = if s.len() - q > 18 && s[q + 18] == 0x20 {
        q + 19
    } else {
        q + 18
    };
    match eol_at(s, q1) {
        Ok(q2) => Ok((q2, XrefTableEntry { offset, gen_id, occupied })),
        Err(_) => Err(ParseError::Error),
    }
}

/// Parses a section header at `q`.
fn section_header_at(s: &[u8], q: usize) -> (r: Result<(usize, (usize, usize)), ParseError>)
    requires
        q <= s@.len(),
    ensures
        match r {
            Ok((e, (f, n))) => spec_section_header(s@, q as int) == Outcome::Parsed(
                (f as int, n as int),
                e as int,
            ) && q < e <= s@.len(),
            Err(x) => x == ParseError::Error && spec_section_header(s@, q as int) is Rejected,
        },
{
    let b1 = digits_end(s, q);
    if b1 == q {
        return Err(ParseError::Error);
    }
    proof {
        lemma_run_end(s@, q as int, |c: u8| is_digit(c));
    }
    let f = match digits_value_bounded(s, q, b1, usize::MAX as u64) {
        Some(v) => v as usize,
        None => {
            return Err(ParseError::Error);
        },
    };
    if !(b1 < s.len() && s[b1] == 0x20) {
        return Err(ParseError::Error);
    }
    let b2 = digits_end(s, b1 + 1);
    if b2 == b1 + 1 {
        return Err(ParseError::Error);
    }
    proof {
        lemma_run_end(s@, b1 + 1, |c: u8| is_digit(c));
    }
    let n = match digits_value_bounded(s, b1 + 1, b2, usize::MAX as u64) {
        Some(v) => v as usize,
        None => {
            return Err(ParseError::Error);
        },
    };
    match eol_at(s, b2) {
        Ok(q3) => Ok((q3, (f, n))),
        Err(_) => Err(ParseError::Error),
    }
}

/// Parses entries from `q` on, as many as there are.
fn xref_entries_at(s: &[u8], q: usize) -> (r: (Vec<XrefTableEntry>, usize))
    requires
        q <= s@.len(),
    ensures
        xref_entries(s@, q as int, Seq::empty()) == (entries_view(r.0@), r.1 as int),
        q <= r.1 <= s@.len(),
{
    let mut out: Vec<XrefTableEntry> = Vec::new();
    let mut i = q;
    assert(entries_view(out@) =~= Seq::<EntryModel>::empty());
    loop
        invariant
            q <= i <= s@.len(),
            xref_entries(s@, q as int, Seq::empty()) == xref_entries(
                s@,
                i as int,
                entries_view(out@),
            ),
        decreases s@.len() - i,
    {
        match xref_entry_at(s, i) {
            Ok((e, entry)) => {
                let ghost before = out@;
                out.push(entry);
                assert(entries_view(out@) =~= entries_view(before).push(entry@));
                i = e;
            },
            Err(_) => {
                return (out, i);
            },
        }
    }
}

/// Parses a cross-reference table at `p`.
pub fn xref_table_at(s: &[u8], p: usize) -> (r: Result<(usize, Vec<XrefTableSection>), ParseError>)
    requires
        p <= s@.len(),
    ensures
        match r {
            Ok((e, t)) => spec_xref_table(s@, p as int) == Outcome::Parsed(
                sections_view(t@),
                e as int,
            ) && p < e <= s@.len(),
            Err(x) => x == ParseError::Error && spec_xref_table(s@, p as int) is Rejected,
        },
{
    let t: [u8; 4] = [0x78, 0x72, 0x65, 0x66];
    assert(t@ == xref_tag());
    if !tag_at(s, p, &t) {
        return Err(ParseError::Error);
    }
    let q = match eol_at(s, p + 4) {
        Ok(q) => q,
        Err(_) => {
            return Err(ParseError::Error);
        },
    };
    let mut out: Vec<XrefTableSection> = Vec::new();
    let mut i = q;
    assert(sections_view(out@) =~= Seq::<SectionModel>::empty());
    loop
        invariant
            p < q <= i <= s@.len(),
            xref_sections(s@, q as int, Seq::empty()) == xref_sections(
                s@,
                i as int,
                sections_view(out@),
            ),
            spec_xref_table(s@, p as int) == Outcome::Parsed(
                xref_sections(s@, q as int, Seq::empty()).0,
                xref_sections(s@, q as int, Seq::empty()).1,
            ),
        decreases s@.len() - i,
    {
        match section_header_at(s, i) {
            Ok((q1, (first_id, length))) => {
                let (entries, q2) = xref_entries_at(s, q1);
                let section = XrefTableSection { first_id, _length: length, entries };
                let ghost before = out@;
                out.push(section);
                assert(sections_view(out@) =~= sections_view(before).push(section@));
                i = q2;
            },
            Err(_) => {
                return Ok((i, out));
            },
        }
    }
}

/// Reads cross-reference information at the start of `input`: a table,
/// else a cross-reference stream, else an indirect object that holds one.
/// The input must not end inside a comment, nor hold a literal string whose
/// text is not valid UTF-8, where the parse reaches them.
pub fn read_xref(input: &[u8]) -> (r: Result<(&[u8], XrefObject), ParseError>)
    requires
        !(spec_xref_object(input@) is Incomplete),
        !(spec_xref_object(input@) is Panics),
    ensures
        rest_agrees(input@, r, spec_xref_object(input@)),
{
    xref_object(input)
}

/// Parses cross-reference information at the start of `input`, as
/// [`read_xref`] does, reporting by its error where the input ends inside a
/// comment or holds a literal string whose text is not valid UTF-8.
pub fn xref_object(input: &[u8]) -> (r: Result<(&[u8], XrefObject), ParseError>)
    ensures
        rest_agrees(input@, r, spec_xref_object(input@)),
{
    proof {
        reveal(spec_xref_object);
    }
    match xref_table_at(input, 0) {
        Ok((e, t)) => {
            return Ok((slice_subrange(input, e, input.len()), XrefObject::Table(t)));
        },
        Err(_) => {},
    }
    match stream(input) {
        Ok((rest, st)) => {
            return Ok((rest, XrefObject::ObjectStream(st)));
        },
        Err(ParseError::Error) => {},
        Err(x) => {
            return Err(x);
        },
    }
    match indirect_object(input) {
        Ok((rest, io)) => Ok((rest, XrefObject::IndirectObjectStream(io))),
        Err(x) => Err(x),
    }
}

/// Reads the trailer: filler, `trailer`, filler, and the trailer dictionary.
/// The input must not end inside a comment, nor hold a literal string whose
/// text is not valid UTF-8, where the parse reaches them.
pub fn read_trailer(input: &[u8]) -> (r: Result<(&[u8], Dictionary), ParseError>)
    requires
        !(spec_trailer(input@) is Incomplete),
        !(spec_trailer(input@) is Panics),
    ensures
        rest_agrees(input@, r, spec_trailer(input@)),
{
    trailer(input)
}

/// Parses the trailer, as [`read_trailer`] does, reporting by its error
/// where the input ends inside a comment or holds a literal string whose
/// text is not valid UTF-8.
pub fn trailer(input: &[u8]) -> (r: Result<(&[u8], Dictionary), ParseError>)
    ensures
        rest_agrees(input@, r, spec_trailer(input@)),
{
    proof {
        reveal(spec_trailer);
    }
    let q1 = filler_at(input, 0)?;
    let t: [u8; 7] = [0x74, 0x72, 0x61, 0x69, 0x6c, 0x65, 0x72];
    assert(t@ == trailer_tag());
    if !tag_at(input, q1, &t) {
        return Err(ParseError::Error);
    }
    let q2 = filler_at(input, q1 + 7)?;
    let r = dictionary_at(input, q2);
    with_rest(input, r, Ghost(spec_dictionary(input@, q2 as int)))
}

pub open spec fn header_tag() -> Seq<u8> {
    seq![0x25u8, 0x50, 0x44, 0x46, 0x2d]
}

/// The version in the file header: `%PDF-` and the three bytes after it.
pub open spec fn spec_header_version(s: Seq<u8>) -> Option<Seq<u8>> {
    if has_tag(s, 0, header_tag()) && s.len() >= 8 {
        Some(s.subrange(5, 8))
    } else {
        None
    }
}

/// Reads the file header `%PDF-x.y`: the version text `x.y`, with the input
/// after it.
pub fn read_version(input: &[u8]) -> (r: Result<(&[u8], &[u8]), ParseError>)
    ensures
        match spec_header_version(input@) {
            Some(v) => r matches Ok((rest, t)) && t@ == v && rest@ == input@.subrange(
                8,
                input@.len() as int,
            ),
            None => r == Err::<(&[u8], &[u8]), ParseError>(ParseError::Error),
        },
{
    let t: [u8; 5] = [0x25, 0x50, 0x44, 0x46, 0x2d];
    assert(t@ == header_tag());
    if input.len() >= 8 && tag_at(input, 0, &t) {
        Ok((slice_subrange(input, 8, input.len()), slice_subrange(input, 5, 8)))
    } else {
        Err(ParseError::Error)
    }
}

} // verus!
