//! The objects of a document: the bytes of the file, the cross-reference
//! data read so far, and the object streams already decoded. An object is
//! found through its cross-reference entry; earlier sections are read only
//! while the entry is not known.

use std::collections::BTreeMap;

use vstd::prelude::*;
use vstd::slice::slice_subrange;
use vstd::utf8::{decode_utf8, valid_utf8};

use crate::parser::file::{spec_header_version, spec_startxref};
use crate::parser::object::{object, spec_object};
use crate::parser::outcome::{Outcome, ParseError};
use crate::parser::object_stream::spec_object_stream_header;
use crate::structures::object_stream::{
    header_readable, object_at_index, spec_stream_fields, ObjectStream, ObjectStreamError,
    ObjectStreamModel,
};
use crate::types::stream::spec_decoded;
use crate::structures::version::{version_of, Version};
use crate::structures::xref::{
    decimal_digits, keeps, lemma_table_read_keeps, next_offset, outcome_agrees, same_model,
    startxref_window, table_read, table_readable, table_readable_at, with_version, TableOutcome,
    Xref, XrefEntry, XrefError, XrefMetadata, XrefModel,
};
use crate::types::indirect_object::IndirectReference;
use crate::types::object::{lemma_objects_view, objects_view, spec_as_stream_parts, Object, ObjectError, ObjectModel};
use crate::types::stream::Stream;

verus! {

broadcast use vstd::std_specs::btree::group_btree_axioms, vstd::laws_cmp::group_laws_cmp;

/// The objects of a document.
#[derive(Debug)]
pub struct Objects {
    file: Vec<u8>,
    xref: Xref,
    object_streams: BTreeMap<usize, ObjectStream>,
}

/// The value of [`Objects`]: the file, the cross-reference data and the
/// object streams read so far, by object number.
pub struct ObjectsModel {
    pub file: Seq<u8>,
    pub xref: XrefModel,
    pub streams: Map<usize, ObjectStreamModel>,
}

impl View for Objects {
    type V = ObjectsModel;

    closed spec fn view(&self) -> ObjectsModel {
        ObjectsModel {
            file: self.file@,
            xref: self.xref@,
            streams: self.object_streams@.map_values(|s: ObjectStream| s@),
        }
    }
}

/// Why an object could not be had.
#[derive(Debug, PartialEq)]
pub enum ObjectsError {
    /// Cross-reference data could not be read.
    ReadXref(XrefError),
    /// The text at the offset of the entry is not an object.
    ReadEntry,
    /// No cross-reference section names the object.
    EntryNotFound { object: IndirectReference },
    /// The object is free.
    EntryIsFree { object: IndirectReference },
    /// The object that should hold an object stream is not a stream.
    Object(ObjectError),
    /// The stream is not an object stream.
    CreateObjectStream(ObjectStreamError),
    /// The object could not be taken from its object stream.
    GetObjectFromStreamObject(ObjectStreamError),
    /// Reading cannot go on: an offset lies past the end of the data, or
    /// the text there ends inside a comment or holds a literal string that
    /// is not UTF-8, or a cross-reference stream gives entries of no size.
    Unreadable,
    /// More cross-reference sections would have to be read than the file
    /// has bytes.
    TooManySections,
    /// Object streams are nested deeper than the file has bytes.
    TooDeep,
}

/// The cross-reference data before anything is read.
pub open spec fn empty_xref() -> XrefModel {
    XrefModel {
        prev: None,
        xref_stm: None,
        size: 0,
        version: Version::Pdf2_0,
        entries: Map::empty(),
    }
}

/// The version in the header of `file` and the offset that `startxref`
/// gives, looked for in the last `digits(length) + 23` bytes.
pub open spec fn spec_start(file: Seq<u8>) -> Option<(Version, u64)> {
    let len = file.len();
    if startxref_window(len) > len {
        None
    } else {
        match spec_header_version(file) {
            None => None,
            Some(vb) => if !valid_utf8(vb) {
                None
            } else {
                match version_of(decode_utf8(vb)) {
                    None => None,
                    Some(v) => match spec_startxref(
                        file.subrange(len - startxref_window(len), len as int),
                    ) {
                        Outcome::Parsed(off, _) => Some((v, off as u64)),
                        _ => None,
                    },
                }
            },
        }
    }
}

/// Reading the last cross-reference section of `file`, from the table
/// with version `v`.
pub open spec fn first_read(file: Seq<u8>, v: Version, off: u64) -> (XrefModel, TableOutcome) {
    table_read(with_version(empty_xref(), v), file.subrange(off as int, file.len() as int), off as usize)
}

/// The object that `m` gives for `key` without reading anything more: the
/// object at the offset of its entry, or in its object stream when that
/// stream has been read.
pub open spec fn resolved(m: ObjectsModel, key: (usize, usize)) -> Option<ObjectModel> {
    if m.xref.entries.contains_key(key) {
        match m.xref.entries[key] {
            XrefEntry::Free { .. } => None,
            XrefEntry::Occupied { offset } => if offset <= m.file.len() {
                match spec_object(m.file.skip(offset as int), 0) {
                    Outcome::Parsed(v, _) => Some(v),
                    _ => None,
                }
            } else {
                None
            },
            XrefEntry::OccupiedCompressed { stream_id, stream_ind } => if m.streams.contains_key(
                stream_id,
            ) {
                object_at_index(m.streams[stream_id], stream_ind as int)
            } else {
                None
            },
        }
    } else {
        None
    }
}

/// `b` holds all that `a` holds: the same file, every entry known to `a`
/// unchanged and every object stream read by `a`.
pub open spec fn grows(a: ObjectsModel, b: ObjectsModel) -> bool {
    &&& b.file == a.file
    &&& keeps(a.xref.entries, b.xref.entries)
    &&& forall|s: usize| #[trigger]
        a.streams.contains_key(s) ==> b.streams.contains_key(s) && b.streams[s] == a.streams[s]
}

/// The object stream `s` that `m` has read is the one held by the object
/// that `m` gives for its number.
#[verifier::opaque]
pub open spec fn stream_held(m: ObjectsModel, s: usize) -> bool {
    resolved(m, (s, 0usize)) matches Some(h) && held_stream(h) == Some(m.streams[s])
}

/// `b` holds all that `a` holds, and each object stream that `b` has read
/// beyond `a` is the one held by the object that `b` gives for its number.
pub open spec fn extends(a: ObjectsModel, b: ObjectsModel) -> bool {
    &&& grows(a, b)
    &&& new_streams_held(a, b)
}

/// Each object stream that `b` has read beyond `a` is the one held by the
/// object that `b` gives for its number.
pub open spec fn new_streams_held(a: ObjectsModel, b: ObjectsModel) -> bool {
    forall|s: usize|
        b.streams.contains_key(s) ==> a.streams.contains_key(s) || #[trigger] stream_held(b, s)
}

/// An object that can be had without reading anything more stays the same
/// while more is read: looking an object up never changes what an earlier
/// lookup gave.
pub proof fn lemma_resolved_stays(a: ObjectsModel, b: ObjectsModel, key: (usize, usize))
    requires
        grows(a, b),
        resolved(a, key) is Some,
    ensures
        resolved(b, key) == resolved(a, key),
{
    assert(a.xref.entries.contains_key(key));
    match a.xref.entries[key] {
        XrefEntry::OccupiedCompressed { stream_id, .. } => {
            assert(a.streams.contains_key(stream_id));
        },
        _ => {},
    }
}

/// `t` is what `o` stands for in `m`: `o` itself, or, when `o` is a
/// reference, the object that `m` gives for it.
pub open spec fn stands_for(m: ObjectsModel, o: ObjectModel, t: ObjectModel) -> bool {
    ||| t == o
    ||| (o matches ObjectModel::IndirectReference(id, g) && resolved(m, (id as usize, g as usize))
        == Some(t))
}

/// What an object stands for stays so while more is read.
pub proof fn lemma_stands_for_stays(a: ObjectsModel, b: ObjectsModel, o: ObjectModel, t: ObjectModel)
    requires
        extends(a, b),
        stands_for(a, o, t),
    ensures
        stands_for(b, o, t),
{
    if t != o {
        match o {
            ObjectModel::IndirectReference(id, g) => {
                lemma_resolved_stays(a, b, (id as usize, g as usize));
            },
            _ => {},
        }
    }
}

/// Reading more keeps all that was read.
pub proof fn lemma_extends_trans(a: ObjectsModel, b: ObjectsModel, c: ObjectsModel)
    requires
        extends(a, b),
        extends(b, c),
    ensures
        extends(a, c),
{
    assert forall|s: usize| #[trigger] a.streams.contains_key(s) implies c.streams.contains_key(s)
        && c.streams[s] == a.streams[s] by {
        assert(b.streams.contains_key(s));
    }
    assert forall|k: (usize, usize)| #[trigger] a.xref.entries.contains_key(k) implies c.xref.entries.contains_key(k)
        && c.xref.entries[k] == a.xref.entries[k] by {
        assert(b.xref.entries.contains_key(k));
    }
    assert(grows(a, c));
    assert forall|s: usize| #[trigger] c.streams.contains_key(s) implies a.streams.contains_key(s)
        || stream_held(c, s) by {
        if !a.streams.contains_key(s) && b.streams.contains_key(s) {
            assert(stream_held(b, s));
            reveal(stream_held);
            lemma_resolved_stays(b, c, (s, 0usize));
        } else if !a.streams.contains_key(s) {
            assert(stream_held(c, s));
        }
    }
}

/// An object that can be had from what was read stays the same while more
/// is read.
pub proof fn lemma_obtainable_stays(a: ObjectsModel, b: ObjectsModel, key: (usize, usize))
    requires
        extends(a, b),
        obtainable(a, key) is Some,
    ensures
        obtainable(b, key) == obtainable(a, key),
{
    reveal(obtainable);
    if resolved(a, key) is Some {
        lemma_resolved_stays(a, b, key);
    } else {
        let e = a.xref.entries[key];
        assert(b.xref.entries.contains_key(key) && b.xref.entries[key] == e);
        let sid = e->OccupiedCompressed_stream_id;
        lemma_resolved_stays(a, b, (sid, 0usize));
        if b.streams.contains_key(sid) {
            assert(stream_held(b, sid));
            reveal(stream_held);
            assert(resolved(b, (sid, 0usize)) == resolved(a, (sid, 0usize)));
        }
    }
}

/// An object that `m` resolves can be had from `m`, as that object.
pub proof fn lemma_resolved_obtainable(m: ObjectsModel, key: (usize, usize))
    requires
        resolved(m, key) is Some,
    ensures
        obtainable(m, key) == resolved(m, key),
{
    reveal(obtainable);
}

/// An object that can be had from `m0` is the one that a later `m` resolves
/// it to.
pub proof fn lemma_obtained_later(m0: ObjectsModel, m: ObjectsModel, key: (usize, usize))
    requires
        extends(m0, m),
        obtainable(m0, key) is Some,
        resolved(m, key) is Some,
    ensures
        resolved(m, key) == obtainable(m0, key),
{
    lemma_obtainable_stays(m0, m, key);
    lemma_resolved_obtainable(m, key);
}

/// What a failed lookup of `r` says when its entry is known in `m`: a free
/// entry, or text at the entry's offset that is no object, or an offset past
/// the data. An object kept in an object stream fails with what looking up
/// and reading that stream failed with.
pub open spec fn entry_failure(m: ObjectsModel, r: IndirectReference, e: ObjectsError) -> bool {
    match m.xref.entries[(r.id, r.gen_id)] {
        XrefEntry::Free { .. } => e == (ObjectsError::EntryIsFree { object: r }),
        XrefEntry::Occupied { offset } => if offset <= m.file.len() && spec_object(
            m.file.skip(offset as int),
            0,
        ) is Rejected {
            e == ObjectsError::ReadEntry
        } else {
            e == ObjectsError::Unreadable
        },
        XrefEntry::OccupiedCompressed { .. } => true,
    }
}

/// What a failed lookup of `r` that began with the objects `m0` and left
/// them as `m` tells: an entry known in `m0` fails as [`entry_failure`]
/// says; an entry found in an earlier section fails so too, or reading a
/// section failed; with no entry found, no earlier section is named, or
/// reading one failed.
#[verifier::opaque]
pub open spec fn lookup_failure(m0: ObjectsModel, m: ObjectsModel, r: IndirectReference, e: ObjectsError) -> bool {
    let key = (r.id, r.gen_id);
    if m0.xref.entries.contains_key(key) {
        entry_failure(m0, r, e)
    } else if m.xref.entries.contains_key(key) {
        e is ReadXref || entry_failure(m, r, e)
    } else {
        ||| e == (ObjectsError::EntryNotFound { object: r }) && next_offset(m.xref) is None
        ||| e is ReadXref
        ||| (e is Unreadable || e is TooManySections) && next_offset(m.xref) is Some
    }
}

/// A failed lookup that began later says the same of a reading that began
/// earlier.
pub proof fn lemma_lookup_failure_earlier(
    m0: ObjectsModel,
    m1: ObjectsModel,
    m: ObjectsModel,
    r: IndirectReference,
    e: ObjectsError,
)
    requires
        extends(m0, m1),
        extends(m1, m),
        lookup_failure(m1, m, r, e),
    ensures
        lookup_failure(m0, m, r, e),
{
    reveal(lookup_failure);
    let key = (r.id, r.gen_id);
    if m0.xref.entries.contains_key(key) {
        assert(m1.xref.entries.contains_key(key) && m1.xref.entries[key] == m0.xref.entries[key]);
    } else if m1.xref.entries.contains_key(key) {
        assert(m.xref.entries.contains_key(key) && m.xref.entries[key] == m1.xref.entries[key]);
    }
}

/// The object stream that the object `h` holds: `h` is a stream whose
/// header can be read, and reading it as an object stream succeeds.
pub open spec fn held_stream(h: ObjectModel) -> Option<ObjectStreamModel> {
    match spec_as_stream_parts(h) {
        Ok((d, data)) => if header_readable(d, data) {
            match spec_decoded(d, data) {
                Some(decoded) => match spec_stream_fields(d) {
                    Ok((n, first, ext)) => match spec_object_stream_header(decoded.take(first as int), n as nat) {
                        Outcome::Parsed(pairs, _) => Some(
                            ObjectStreamModel { ids: pairs, first_offset: first as int, extends: ext, data: decoded },
                        ),
                        _ => None,
                    },
                    Err(_) => None,
                },
                None => None,
            }
        } else {
            None
        },
        Err(_) => None,
    }
}

/// The object `key` that can be had from what `m` holds without reading
/// more cross-reference data: the object that `m` resolves it to, or, for an
/// object of an object stream not read yet, the object at its index in the
/// object stream that the stream's object holds.
#[verifier::opaque]
pub open spec fn obtainable(m: ObjectsModel, key: (usize, usize)) -> Option<ObjectModel> {
    match resolved(m, key) {
        Some(v) => Some(v),
        None => if m.file.len() > 0 && m.xref.entries.contains_key(key) {
            match m.xref.entries[key] {
                XrefEntry::OccupiedCompressed { stream_id, stream_ind } => if !m.streams.contains_key(
                    stream_id,
                ) {
                    match resolved(m, (stream_id, 0usize)) {
                        Some(h) => match held_stream(h) {
                            Some(st) => object_at_index(st, stream_ind as int),
                            None => None,
                        },
                        None => None,
                    }
                } else {
                    None
                },
                _ => None,
            }
        } else {
            None
        },
    }
}

/// When `o` is a reference whose object can be had from what `m0` holds,
/// `t` is that object.
pub open spec fn pinned(m0: ObjectsModel, o: ObjectModel, t: ObjectModel) -> bool {
    o matches ObjectModel::IndirectReference(id, g) ==> (obtainable(m0, (id as usize, g as usize)) matches Some(
        v,
    ) ==> t == v)
}

/// What can be had from `m0` stays the same in `m`: a target pinned in `m`
/// is pinned in `m0`.
pub proof fn lemma_pinned_earlier(m0: ObjectsModel, m: ObjectsModel, o: ObjectModel, t: ObjectModel)
    requires
        extends(m0, m),
        pinned(m, o, t),
    ensures
        pinned(m0, o, t),
{
    if o is IndirectReference {
        let key = (o->IndirectReference_0 as usize, o->IndirectReference_1 as usize);
        if obtainable(m0, key) is Some {
            lemma_obtainable_stays(m0, m, key);
        }
    }
}

impl Objects {
    /// The objects of `file`: reads the header version, the `startxref`
    /// pointer and the last cross-reference section, whose metadata is
    /// returned.
    pub fn from_data(file: Vec<u8>) -> (r: Result<(Objects, XrefMetadata), ObjectsError>)
        ensures
            startxref_window(file@.len()) > file@.len() ==> r == Err::<
                (Objects, XrefMetadata),
                ObjectsError,
            >(ObjectsError::Unreadable),
            startxref_window(file@.len()) <= file@.len() && spec_start(file@) is None ==> r matches Err(
                ObjectsError::ReadXref(_),
            ),
            match spec_start(file@) {
                None => r is Err,
                Some((v, off)) => if !table_readable(file@, off as int) {
                    r == Err::<(Objects, XrefMetadata), ObjectsError>(ObjectsError::Unreadable)
                } else {
                    match first_read(file@, v, off).1 {
                        TableOutcome::Meta(mv) => r matches Ok((o, meta)) && o@.file == file@
                            && o@.streams == Map::<usize, ObjectStreamModel>::empty() && same_model(
                            o@.xref,
                            first_read(file@, v, off).0,
                        ) && outcome_agrees(Ok(meta), TableOutcome::Meta(mv)),
                        TableOutcome::Fail(e) => r == Err::<(Objects, XrefMetadata), ObjectsError>(
                            ObjectsError::ReadXref(e),
                        ),
                        TableOutcome::StreamFail => r matches Err(
                            ObjectsError::ReadXref(XrefError::StreamProcessing(_)),
                        ),
                    }
                },
            },
    {
        let len = file.len();
        let window = if len == 0 {
            23
        } else {
            decimal_digits(len) + 23
        };
        if window > len {
            return Err(ObjectsError::Unreadable);
        }
        let mut xref = Xref::new();
        let offset = match xref.read_startxref(file.as_slice(), len) {
            Ok(o) => o,
            Err(e) => {
                return Err(ObjectsError::ReadXref(e));
            },
        };
        if !table_readable_at(file.as_slice(), offset) {
            return Err(ObjectsError::Unreadable);
        }
        let metadata = match xref.read_table(file.as_slice(), offset) {
            Ok(m) => m,
            Err(e) => {
                return Err(ObjectsError::ReadXref(e));
            },
        };
        let objects = Objects { file, xref, object_streams: BTreeMap::new() };
        assert(objects@.streams =~= Map::<usize, ObjectStreamModel>::empty());
        Ok((objects, metadata))
    }

    /// The entry of `r`: earlier cross-reference sections are read while it
    /// is not known and there are more.
    fn find_entry(&mut self, r: &IndirectReference) -> (res: Result<XrefEntry, ObjectsError>)
        ensures
            extends(old(self)@, final(self)@),
            final(self)@.streams == old(self)@.streams,
            old(self)@.xref.entries.contains_key((r.id, r.gen_id)) ==> res == Ok::<
                XrefEntry,
                ObjectsError,
            >(old(self)@.xref.entries[(r.id, r.gen_id)]) && final(self)@ == old(self)@,
            match res {
                Ok(e) => final(self)@.xref.entries.contains_key((r.id, r.gen_id))
                    && final(self)@.xref.entries[(r.id, r.gen_id)] == e,
                Err(e) => !(e is EntryIsFree) && !(e is ReadEntry) && lookup_failure(
                    old(self)@,
                    final(self)@,
                    *r,
                    e,
                ),
            },
    {
        let ghost key = (r.id, r.gen_id);
        let mut fuel = self.file.len();
        loop
            invariant
                extends(old(self)@, self@),
                self@.streams == old(self)@.streams,
                old(self)@.xref.entries.contains_key(key) ==> self@ == old(self)@,
                key == (r.id, r.gen_id),
            decreases fuel,
        {
            match self.xref.find_entry(r) {
                Some(e) => {
                    return Ok(*e);
                },
                None => {},
            }
            let offset = match self.xref.next_table_offset() {
                Some(o) => o,
                None => {
                    assert(lookup_failure(old(self)@, self@, *r, ObjectsError::EntryNotFound { object: *r })) by {
                        reveal(lookup_failure);
                    }
                    return Err(ObjectsError::EntryNotFound { object: *r });
                },
            };
            if fuel == 0 {
                assert(lookup_failure(old(self)@, self@, *r, ObjectsError::TooManySections)) by {
                    reveal(lookup_failure);
                }
                return Err(ObjectsError::TooManySections);
            }
            fuel = fuel - 1;
            if !table_readable_at(self.file.as_slice(), offset) {
                assert(lookup_failure(old(self)@, self@, *r, ObjectsError::Unreadable)) by {
                    reveal(lookup_failure);
                }
                return Err(ObjectsError::Unreadable);
            }
            let ghost before = self@;
            match self.xref.read_additional_table(self.file.as_slice()) {
                Ok(()) => {},
                Err(e) => {
                    proof {
                        lemma_table_read_keeps(
                            before.xref,
                            before.file.subrange(offset as int, before.file.len() as int),
                            offset as usize,
                        );
                        assert(lookup_failure(old(self)@, self@, *r, ObjectsError::ReadXref(e))) by {
                            reveal(lookup_failure);
                        }
                    }
                    return Err(ObjectsError::ReadXref(e));
                },
            }
            proof {
                lemma_table_read_keeps(
                    before.xref,
                    before.file.subrange(offset as int, before.file.len() as int),
                    offset as usize,
                );
            }
        }
    }

    /// The object whose text starts at `offset` of the file.
    fn read_at(&self, offset: usize) -> (res: Result<Object, ObjectsError>)
        ensures
            offset <= self@.file.len() ==> (spec_object(self@.file.skip(offset as int), 0) matches Outcome::Parsed(
                v,
                _,
            ) ==> res matches Ok(o) && o@ == v),
            match res {
                Ok(o) => offset <= self@.file.len() && spec_object(self@.file.skip(offset as int), 0)
                    == Outcome::Parsed(o@, spec_object(self@.file.skip(offset as int), 0).end()),
                Err(ObjectsError::ReadEntry) => offset <= self@.file.len() && spec_object(
                    self@.file.skip(offset as int),
                    0,
                ) is Rejected,
                Err(e) => e is Unreadable && !(offset <= self@.file.len() && spec_object(
                    self@.file.skip(offset as int),
                    0,
                ) is Rejected),
            },
    {
        if offset > self.file.len() {
            return Err(ObjectsError::Unreadable);
        }
        let rest = slice_subrange(self.file.as_slice(), offset, self.file.len());
        assert(rest@ =~= self@.file.skip(offset as int));
        match object(rest) {
            Ok((_, o)) => Ok(o),
            Err(ParseError::Error) => Err(ObjectsError::ReadEntry),
            Err(_) => Err(ObjectsError::Unreadable),
        }
    }

    /// The `index`-th object of the object stream `stream_id`, which has not
    /// been read yet: the stream is looked up with `depth` levels of nesting
    /// left, read, and kept.
    fn load_from_stream(&mut self, stream_id: usize, index: usize, depth: usize) -> (res: Result<
        Object,
        ObjectsError,
    >)
        requires
            !old(self)@.streams.contains_key(stream_id),
        ensures
            extends(old(self)@, final(self)@),
            res matches Ok(o) ==> final(self)@.streams.contains_key(stream_id) && object_at_index(
                final(self)@.streams[stream_id],
                index as int,
            ) == Some(o@),
            depth == 0 ==> res == Err::<Object, ObjectsError>(ObjectsError::TooDeep) && final(self)@
                == old(self)@,
            depth > 0 ==> (resolved(old(self)@, (stream_id, 0usize)) matches Some(h) ==> match spec_as_stream_parts(
                h,
            ) {
                Err(e) => res == Err::<Object, ObjectsError>(ObjectsError::Object(e)) && final(self)@
                    == old(self)@,
                Ok(_) => match held_stream(h) {
                    None => res is Err && final(self)@ == old(self)@,
                    Some(m) => match object_at_index(m, index as int) {
                        Some(v) => (res matches Ok(o) && o@ == v) && final(self)@ == (ObjectsModel {
                            streams: old(self)@.streams.insert(stream_id, m),
                            ..old(self)@
                        }),
                        None => res is Err && final(self)@ == old(self)@,
                    },
                },
            }),
        decreases depth, 0nat,
    {
        if depth == 0 {
            return Err(ObjectsError::TooDeep);
        }
        let holder = match self.resolve(&IndirectReference { id: stream_id, gen_id: 0 }, depth - 1) {
            Ok(o) => o,
            Err(e) => {
                return Err(e);
            },
        };
        if self.object_streams.contains_key(&stream_id) {
            return self.cached_object(stream_id, index);
        }
        let stream = match holder.as_stream() {
            Ok(s) => s.copy(),
            Err(e) => {
                return Err(ObjectsError::Object(e));
            },
        };
        let os = match ObjectStream::from_stream_checked(stream) {
            None => {
                return Err(ObjectsError::Unreadable);
            },
            Some(Ok(os)) => os,
            Some(Err(e)) => {
                return Err(ObjectsError::CreateObjectStream(e));
            },
        };
        if !os.object_readable(index) {
            return Err(ObjectsError::Unreadable);
        }
        let found = match os.get_object_by_index(index) {
            Ok(o) => o,
            Err(e) => {
                return Err(ObjectsError::GetObjectFromStreamObject(e));
            },
        };
        let ghost before = self@;
        let ghost osv = os@;
        let _ = self.object_streams.insert(stream_id, os);
        proof {
            assert(self@.streams =~= before.streams.insert(stream_id, osv));
            assert(held_stream(holder@) == Some(osv));
            assert(grows(before, self@));
            lemma_resolved_stays(before, self@, (stream_id, 0usize));
            assert(stream_held(self@, stream_id)) by {
                reveal(stream_held);
            }
            assert(extends(before, self@));
            lemma_extends_trans(old(self)@, before, self@);
        }
        Ok(found)
    }

    /// The `index`-th object of the object stream `stream_id`, already read.
    fn cached_object(&self, stream_id: usize, index: usize) -> (res: Result<Object, ObjectsError>)
        requires
            self@.streams.contains_key(stream_id),
        ensures
            object_at_index(self@.streams[stream_id], index as int) matches Some(v) ==> res matches Ok(o)
                && o@ == v,
            res matches Ok(o) ==> object_at_index(self@.streams[stream_id], index as int) == Some(o@),
    {
        let stream = self.object_streams.get(&stream_id).unwrap();
        assert(self@.streams[stream_id] == stream@);
        if !stream.object_readable(index) {
            return Err(ObjectsError::Unreadable);
        }
        match stream.get_object_by_index(index) {
            Ok(o) => Ok(o),
            Err(e) => Err(ObjectsError::GetObjectFromStreamObject(e)),
        }
    }

    /// The object `r`; an object stream that has to be read for it is
    /// looked up with `depth` levels of nesting left.
    #[verifier::rlimit(100)]
    fn resolve(&mut self, r: &IndirectReference, depth: usize) -> (res: Result<Object, ObjectsError>)
        ensures
            extends(old(self)@, final(self)@),
            resolved(old(self)@, (r.id, r.gen_id)) matches Some(v) ==> (res matches Ok(o) && o@ == v)
                && final(self)@ == old(self)@,
            res matches Ok(o) ==> resolved(final(self)@, (r.id, r.gen_id)) == Some(o@),
            res matches Err(e) ==> lookup_failure(old(self)@, final(self)@, *r, e),
            depth >= old(self)@.file.len() ==> (obtainable(old(self)@, (r.id, r.gen_id)) matches Some(v)
                ==> res matches Ok(o) && o@ == v),
        decreases depth, 2nat,
    {
        proof {
            reveal(obtainable);
        }
        let entry = match self.find_entry(r) {
            Ok(e) => e,
            Err(e) => {
                return Err(e);
            },
        };
        let ghost key = (r.id, r.gen_id);
        assert(self@.xref.entries.contains_key(key) && self@.xref.entries[key] == entry);
        match entry {
            XrefEntry::Free { .. } => {
                assert(resolved(self@, key) is None);
                assert(lookup_failure(old(self)@, self@, *r, ObjectsError::EntryIsFree { object: *r })) by {
                    reveal(lookup_failure);
                }
                Err(ObjectsError::EntryIsFree { object: *r })
            },
            XrefEntry::Occupied { offset } => {
                let res = self.read_at(offset);
                assert(res matches Ok(o) ==> resolved(self@, key) == Some(o@));
                assert(res matches Err(e) ==> lookup_failure(old(self)@, self@, *r, e)) by {
                    reveal(lookup_failure);
                }
                res
            },
            XrefEntry::OccupiedCompressed { stream_id, stream_ind } => {
                let ghost mid = self@;
                let res = self.resolve_compressed(r, stream_id, stream_ind, depth);
                proof {
                    assert(res matches Err(e) ==> lookup_failure(old(self)@, self@, *r, e)) by {
                        reveal(lookup_failure);
                    }
                    lemma_extends_trans(old(self)@, mid, self@);
                }
                res
            },
        }
    }

    /// The object `r`, whose entry says that it is the `stream_ind`-th
    /// object of the object stream `stream_id`.
    fn resolve_compressed(&mut self, r: &IndirectReference, stream_id: usize, stream_ind: usize, depth: usize) -> (res:
        Result<Object, ObjectsError>)
        requires
            old(self)@.xref.entries.contains_key((r.id, r.gen_id)),
            old(self)@.xref.entries[(r.id, r.gen_id)] == (XrefEntry::OccupiedCompressed {
                stream_id,
                stream_ind,
            }),
        ensures
            extends(old(self)@, final(self)@),
            resolved(old(self)@, (r.id, r.gen_id)) matches Some(v) ==> (res matches Ok(o) && o@ == v)
                && final(self)@ == old(self)@,
            res matches Ok(o) ==> resolved(final(self)@, (r.id, r.gen_id)) == Some(o@),
            depth > 0 && !old(self)@.streams.contains_key(stream_id) ==> (resolved(
                old(self)@,
                (stream_id, 0usize),
            ) matches Some(h) ==> (held_stream(h) matches Some(st) ==> (object_at_index(
                st,
                stream_ind as int,
            ) matches Some(v) ==> res matches Ok(o) && o@ == v))),
        decreases depth, 1nat,
    {
        let ghost key = (r.id, r.gen_id);
        if self.object_streams.contains_key(&stream_id) {
            let res = self.cached_object(stream_id, stream_ind);
            assert(res matches Ok(o) ==> resolved(self@, key) == Some(o@));
            res
        } else {
            let ghost mid = self@;
            let res = self.load_from_stream(stream_id, stream_ind, depth);
            assert(self@.xref.entries.contains_key(key));
            assert(self@.xref.entries[key] == mid.xref.entries[key]);
            assert(res matches Ok(o) ==> resolved(self@, key) == Some(o@));
            res
        }
    }

    /// The object `object_reference`. Earlier cross-reference sections are
    /// read while its entry is not known; the object stream that holds it
    /// is read and kept when it has not been read yet. An object that the
    /// data already read gives is returned with nothing read or changed.
    pub fn get_object(&mut self, object_reference: &IndirectReference) -> (r: Result<
        Object,
        ObjectsError,
    >)
        ensures
            extends(old(self)@, final(self)@),
            resolved(old(self)@, (object_reference.id, object_reference.gen_id)) matches Some(v) ==> (r matches Ok(
                o,
            ) && o@ == v) && final(self)@ == old(self)@,
            match r {
                Ok(o) => resolved(final(self)@, (object_reference.id, object_reference.gen_id)) == Some(
                    o@,
                ),
                Err(e) => lookup_failure(old(self)@, final(self)@, *object_reference, e),
            },
            obtainable(old(self)@, (object_reference.id, object_reference.gen_id)) matches Some(v) ==> (r matches Ok(
                o,
            ) && o@ == v),
    {
        let depth = self.file.len();
        self.resolve(object_reference, depth)
    }
}

impl Object {
    /// The object that this one stands for: the object that a reference
    /// points to, or this object itself when it is no reference or the
    /// object that it points to cannot be had.
    pub fn direct(&self, objects: &mut Objects) -> (r: Object)
        ensures
            extends(old(objects)@, final(objects)@),
            stands_for(final(objects)@, self@, r@),
            match *self {
                Object::IndirectReference(x) => {
                    &&& stands_for(final(objects)@, self@, r@)
                    &&& (resolved(old(objects)@, (x.id, x.gen_id)) matches Some(v) ==> r@ == v
                        && final(objects)@ == old(objects)@)
                    &&& pinned(old(objects)@, self@, r@)
                    &&& (obtainable(old(objects)@, (x.id, x.gen_id)) matches Some(v) ==> r@ == v)
                },
                _ => r@ == self@ && final(objects)@ == old(objects)@,
            },
    {
        match self {
            Object::IndirectReference(x) => match objects.get_object(x) {
                Ok(o) => o,
                Err(_) => self.copy(),
            },
            _ => self.copy(),
        }
    }
}

/// `s` is the stream that the array element `o` gives in `m`: the element
/// itself, or the object that it refers to.
pub open spec fn element_stream(m: ObjectsModel, o: ObjectModel, s: (Seq<(Seq<char>, ObjectModel)>, Seq<u8>)) -> bool {
    match o {
        ObjectModel::IndirectReference(id, g) => resolved(m, (id as usize, g as usize)) matches Some(t)
            && spec_as_stream_parts(t) == Ok::<(Seq<(Seq<char>, ObjectModel)>, Seq<u8>), ObjectError>(s),
        _ => spec_as_stream_parts(o) == Ok::<(Seq<(Seq<char>, ObjectModel)>, Seq<u8>), ObjectError>(s),
    }
}

/// The array element `o` gives a stream from what `m` holds: a stream, or a
/// reference to an object that can be had from `m` and is one.
pub open spec fn element_good(m: ObjectsModel, o: ObjectModel) -> bool {
    match o {
        ObjectModel::IndirectReference(id, g) => obtainable(m, (id as usize, g as usize)) matches Some(t)
            && spec_as_stream_parts(t) is Ok,
        _ => spec_as_stream_parts(o) is Ok,
    }
}

/// An element that gives a stream keeps giving it while more is read.
proof fn lemma_element_good_stays(a: ObjectsModel, b: ObjectsModel, o: ObjectModel)
    requires
        extends(a, b),
        element_good(a, o),
    ensures
        element_good(b, o),
{
    if o is IndirectReference {
        lemma_obtainable_stays(a, b, (o->IndirectReference_0 as usize, o->IndirectReference_1 as usize));
    }
}

/// Why the streams of an array could not be had.
#[derive(Debug, PartialEq)]
pub enum ElementError {
    /// The object that an element refers to could not be had.
    ObjectNotFound { reference: IndirectReference, source: ObjectsError },
    /// An element is not a stream.
    NotStream(ObjectError),
}

/// The streams that elements give stay the same while more is read.
proof fn lemma_element_streams_stay(
    a: ObjectsModel,
    b: ObjectsModel,
    items: Seq<Object>,
    out: Seq<Stream>,
    n: int,
)
    requires
        extends(a, b),
        n <= items.len(),
        n <= out.len(),
        forall|j: int| 0 <= j < n ==> #[trigger] element_stream(a, items[j]@, out[j]@),
    ensures
        forall|j: int| 0 <= j < n ==> #[trigger] element_stream(b, items[j]@, out[j]@),
{
    assert forall|j: int| 0 <= j < n implies #[trigger] element_stream(b, items[j]@, out[j]@) by {
        assert(element_stream(a, items[j]@, out[j]@));
        match items[j]@ {
            ObjectModel::IndirectReference(id, g) => {
                lemma_resolved_stays(a, b, (id as usize, g as usize));
            },
            _ => {},
        }
    }
}

/// The streams that the elements of `items` give: each element that is a
/// reference is replaced by the object it refers to, and each must then be
/// a stream.
pub fn element_streams(items: &Vec<Object>, objects: &mut Objects) -> (r: Result<Vec<Stream>, ElementError>)
    ensures
        extends(old(objects)@, final(objects)@),
        match r {
            Ok(v) => v@.len() == items@.len() && forall|i: int|
                0 <= i < v@.len() ==> #[trigger] element_stream(final(objects)@, items@[i]@, v@[i]@),
            Err(ElementError::ObjectNotFound { reference, .. }) => exists|i: int|
                0 <= i < items@.len() && #[trigger] items@[i]@ == ObjectModel::IndirectReference(
                    reference.id as int,
                    reference.gen_id as int,
                ),
            Err(ElementError::NotStream(_)) => true,
        },
        (forall|i: int| 0 <= i < items@.len() ==> #[trigger] element_good(old(objects)@, items@[i]@)) ==> r is Ok,
{
    let mut out: Vec<Stream> = Vec::new();
    let mut i: usize = 0;
    while i < items.len()
        invariant
            i <= items@.len(),
            out@.len() == i,
            extends(old(objects)@, objects@),
            forall|j: int| 0 <= j < i ==> #[trigger] element_stream(objects@, items@[j]@, out@[j]@),
            (forall|j: int| 0 <= j < items@.len() ==> #[trigger] element_good(old(objects)@, items@[j]@))
                ==> forall|j: int| 0 <= j < items@.len() ==> #[trigger] element_good(objects@, items@[j]@),
        decreases items@.len() - i,
    {
        let ghost before = objects@;
        proof {
            if forall|j: int| 0 <= j < items@.len() ==> #[trigger] element_good(old(objects)@, items@[j]@) {
                assert(element_good(before, items@[i as int]@));
            }
        }
        let s = match &items[i] {
            Object::IndirectReference(x) => match objects.get_object(x) {
                Ok(o) => match o.as_stream() {
                    Ok(st) => st.copy(),
                    Err(e) => {
                        proof {
                            lemma_extends_trans(old(objects)@, before, objects@);
                        }
                        return Err(ElementError::NotStream(e));
                    },
                },
                Err(e) => {
                    proof {
                        lemma_extends_trans(old(objects)@, before, objects@);
                        assert(items@[i as int]@ == ObjectModel::IndirectReference(x.id as int, x.gen_id as int));
                    }
                    return Err(ElementError::ObjectNotFound { reference: *x, source: e });
                },
            },
            other => match other.as_stream() {
                Ok(st) => st.copy(),
                Err(e) => {
                    return Err(ElementError::NotStream(e));
                },
            },
        };
        proof {
            lemma_extends_trans(old(objects)@, before, objects@);
            lemma_element_streams_stay(before, objects@, items@, out@, i as int);
            if forall|j: int| 0 <= j < items@.len() ==> #[trigger] element_good(old(objects)@, items@[j]@) {
                assert forall|j: int| 0 <= j < items@.len() implies #[trigger] element_good(objects@, items@[j]@) by {
                    assert(element_good(before, items@[j]@));
                    lemma_element_good_stays(before, objects@, items@[j]@);
                }
            }
        }
        out.push(s);
        i = i + 1;
    }
    Ok(out)
}

/// Why the elements of an array could not be had with the references among
/// them looked up.
#[derive(Debug, PartialEq)]
pub enum ResolveError {
    /// The object is not an array.
    UnexpectedObjectType,
    /// The object that an element refers to could not be had.
    ObjectNotFound { reference: IndirectReference, source: ObjectsError },
}

/// `t` is the element `o` with its reference looked up in `m`: the object
/// that `m` resolves it to, or `o` itself when it is no reference.
pub open spec fn element_resolved(m: ObjectsModel, o: ObjectModel, t: ObjectModel) -> bool {
    match o {
        ObjectModel::IndirectReference(id, g) => resolved(m, (id as usize, g as usize)) == Some(t),
        _ => t == o,
    }
}

/// An element that is no reference, or a reference to an object that can
/// be had from `m`.
pub open spec fn element_known(m: ObjectsModel, o: ObjectModel) -> bool {
    o matches ObjectModel::IndirectReference(id, g) ==> obtainable(m, (id as usize, g as usize)) is Some
}

/// Looked-up elements stay looked up while more is read.
proof fn lemma_resolved_stay(a: ObjectsModel, b: ObjectsModel, items: Seq<Object>, out: Seq<Object>, n: int)
    requires
        extends(a, b),
        n <= items.len(),
        n <= out.len(),
        forall|j: int| 0 <= j < n ==> #[trigger] element_resolved(a, items[j]@, out[j]@),
    ensures
        forall|j: int| 0 <= j < n ==> #[trigger] element_resolved(b, items[j]@, out[j]@),
{
    assert forall|j: int| 0 <= j < n implies #[trigger] element_resolved(b, items[j]@, out[j]@) by {
        assert(element_resolved(a, items[j]@, out[j]@));
        match items[j]@ {
            ObjectModel::IndirectReference(id, g) => {
                lemma_resolved_stays(a, b, (id as usize, g as usize));
            },
            _ => {},
        }
    }
}

/// Known elements stay known while more is read.
proof fn lemma_known_stay(a: ObjectsModel, b: ObjectsModel, items: Seq<Object>)
    requires
        extends(a, b),
        forall|j: int| 0 <= j < items.len() ==> #[trigger] element_known(a, items[j]@),
    ensures
        forall|j: int| 0 <= j < items.len() ==> #[trigger] element_known(b, items[j]@),
{
    assert forall|j: int| 0 <= j < items.len() implies #[trigger] element_known(b, items[j]@) by {
        assert(element_known(a, items[j]@));
        match items[j]@ {
            ObjectModel::IndirectReference(id, g) => {
                lemma_obtainable_stays(a, b, (id as usize, g as usize));
            },
            _ => {},
        }
    }
}

/// The elements `items` with each reference among them replaced by the
/// object that it refers to.
fn resolve_elements(items: &Vec<Object>, objects: &mut Objects) -> (r: Result<Vec<Object>, ResolveError>)
    ensures
        extends(old(objects)@, final(objects)@),
        match r {
            Ok(v) => v@.len() == items@.len() && forall|i: int|
                0 <= i < v@.len() ==> #[trigger] element_resolved(final(objects)@, items@[i]@, v@[i]@),
            Err(ResolveError::ObjectNotFound { reference, .. }) => exists|i: int|
                0 <= i < items@.len() && #[trigger] items@[i]@ == ObjectModel::IndirectReference(
                    reference.id as int,
                    reference.gen_id as int,
                ),
            Err(ResolveError::UnexpectedObjectType) => false,
        },
        (forall|i: int| 0 <= i < items@.len() ==> #[trigger] element_known(old(objects)@, items@[i]@)) ==> r is Ok,
{
    let mut out: Vec<Object> = Vec::new();
    let mut i: usize = 0;
    let ghost known = forall|j: int| 0 <= j < items@.len() ==> #[trigger] element_known(old(objects)@, items@[j]@);
    while i < items.len()
        invariant
            i <= items@.len(),
            out@.len() == i,
            extends(old(objects)@, objects@),
            forall|j: int| 0 <= j < i ==> #[trigger] element_resolved(objects@, items@[j]@, out@[j]@),
            known == forall|j: int| 0 <= j < items@.len() ==> #[trigger] element_known(old(objects)@, items@[j]@),
            known ==> forall|j: int| 0 <= j < items@.len() ==> #[trigger] element_known(objects@, items@[j]@),
        decreases items@.len() - i,
    {
        let ghost before = objects@;
        proof {
            if known {
                assert(element_known(before, items@[i as int]@));
            }
        }
        let o = match &items[i] {
            Object::IndirectReference(x) => match objects.get_object(x) {
                Ok(o) => o,
                Err(e) => {
                    proof {
                        lemma_extends_trans(old(objects)@, before, objects@);
                        assert(items@[i as int]@ == ObjectModel::IndirectReference(x.id as int, x.gen_id as int));
                    }
                    return Err(ResolveError::ObjectNotFound { reference: *x, source: e });
                },
            },
            other => other.copy(),
        };
        proof {
            lemma_extends_trans(old(objects)@, before, objects@);
            lemma_resolved_stay(before, objects@, items@, out@, i as int);
            if known {
                lemma_known_stay(before, objects@, items@);
            }
        }
        out.push(o);
        i = i + 1;
    }
    Ok(out)
}

impl<'a> crate::types::array::ArrayBuilder<'a> {
    /// The array, with each reference among its elements replaced by the
    /// object that it refers to, looked up among `objects`; the first
    /// element whose object cannot be had gives the error.
    pub fn with_objects(&self, objects: &mut Objects) -> (r: Result<crate::types::array::Array, ResolveError>)
        ensures
            extends(old(objects)@, final(objects)@),
            match *self.array {
                Object::Array(a) => {
                    &&& match r {
                        Ok(b) => b.data@.len() == a.data@.len() && forall|i: int|
                            0 <= i < a.data@.len() ==> #[trigger] element_resolved(final(objects)@, a.data@[i]@, b.data@[i]@),
                        Err(ResolveError::ObjectNotFound { reference, .. }) => exists|i: int|
                            0 <= i < a.data@.len() && #[trigger] a.data@[i]@ == ObjectModel::IndirectReference(
                                reference.id as int,
                                reference.gen_id as int,
                            ),
                        Err(ResolveError::UnexpectedObjectType) => false,
                    }
                    &&& (forall|i: int| 0 <= i < a.data@.len() ==> #[trigger] element_known(old(objects)@, a.data@[i]@))
                        ==> r is Ok
                },
                _ => r == Err::<crate::types::array::Array, ResolveError>(ResolveError::UnexpectedObjectType)
                    && final(objects)@ == old(objects)@,
            },
    {
        match self.array {
            Object::Array(a) => match resolve_elements(&a.data, objects) {
                Ok(v) => Ok(crate::types::array::Array::from_vec(v)),
                Err(e) => Err(e),
            },
            _ => Err(ResolveError::UnexpectedObjectType),
        }
    }
}
} // verus!
