//! The cross-reference data of a document: where each object is found.
//! Sections are read from the last one back, so an entry that is already
//! known is kept when an earlier section names the same object again.

use std::collections::BTreeMap;

use vstd::prelude::*;
use vstd::slice::slice_subrange;

use crate::parser::file::{
    read_startxref, read_trailer, read_version, read_xref, sections_view, spec_header_version, trailer,
    xref_object,
    spec_startxref, spec_trailer, spec_xref_object, SectionModel, XrefObject, XrefObjectModel,
    XrefTableSection,
};
use crate::parser::outcome::{Outcome, ParseError};
use crate::structures::hash::{spec_hash, HashError};
use crate::structures::version::{version_of, Version, VersionError};
use vstd::utf8::{decode_utf8, valid_utf8};
use crate::types::array::ArrayError;
use crate::types::dictionary::{dict_get, Dictionary};
use crate::types::indirect_object::IndirectReference;
use crate::types::object::{integer_of, Object, ObjectError, ObjectKind, ObjectModel};
use crate::types::stream::{spec_decoded, Stream, StreamError};

verus! {

broadcast use vstd::std_specs::btree::group_btree_axioms, vstd::laws_cmp::group_laws_cmp;

/// Where an object is found.
#[derive(Debug, Clone, Copy, PartialEq, Eq, Structural)]
pub enum XrefEntry {
    /// The object is free; `next_id` is the next free object.
    Free { next_id: usize },
    /// The object starts at byte `offset` of the file.
    Occupied { offset: usize },
    /// The object is the `stream_ind`-th one of the object stream `stream_id`.
    OccupiedCompressed { stream_id: usize, stream_ind: usize },
}

/// What the trailer of a section tells about the document.
#[derive(Debug, PartialEq)]
pub struct XrefMetadata {
    pub root_id: IndirectReference,
    pub version: Version,
    pub hash: Option<crate::structures::hash::Hash>,
    pub info_id: Option<IndirectReference>,
}

/// A part of the file that could not be read.
#[derive(Debug, Clone, Copy, PartialEq, Eq, Structural)]
pub enum FileSection {
    Version,
    Startxref,
    Xref,
    Trailer,
}

/// A field of the trailer or of a cross-reference stream.
#[derive(Debug, Clone, Copy, PartialEq, Eq, Structural)]
pub enum XrefField {
    Size,
    Prev,
    Root,
    Info,
    XRefStm,
    W,
    Index,
}

/// Why cross-reference data could not be read.
#[derive(Debug, PartialEq)]
pub enum XrefError {
    ParseFile { section: FileSection, offset: usize },
    InvalidVersion(VersionError),
    NoXRefAdditionalSources,
    InvalidStream(ObjectError),
    StreamProcessing(StreamError),
    FieldNotFound { field: XrefField },
    InvalidField { field: XrefField, source: ObjectError },
    InvalidHash(HashError),
    InvalidArray { field: XrefField, source: ArrayError },
    InvalidXrefStreamWSize { size: usize },
    InvalidXrefStreamEntryType { entry_type: usize },
}

/// The cross-reference data read so far.
#[derive(Debug)]
pub struct Xref {
    prev: Option<u64>,
    xref_stm: Option<u64>,
    size: usize,
    version: Version,
    entries: BTreeMap<(usize, usize), XrefEntry>,
}

/// The value of an [`Xref`]: its entries keyed by object number and
/// generation, the size and version, and where more sections are.
pub struct XrefModel {
    pub prev: Option<u64>,
    pub xref_stm: Option<u64>,
    pub size: usize,
    pub version: Version,
    pub entries: Map<(usize, usize), XrefEntry>,
}

impl View for Xref {
    type V = XrefModel;

    closed spec fn view(&self) -> XrefModel {
        XrefModel {
            prev: self.prev,
            xref_stm: self.xref_stm,
            size: self.size,
            version: self.version,
            entries: self.entries@,
        }
    }
}

/// The entries with `entry` added under `key`, unless `key` is taken.
pub open spec fn insert_first(m: Map<(usize, usize), XrefEntry>, key: (usize, usize), entry: XrefEntry) -> Map<
    (usize, usize),
    XrefEntry,
> {
    if m.contains_key(key) {
        m
    } else {
        m.insert(key, entry)
    }
}

/// The key and entry of the `i`-th entry of a table section.
pub open spec fn table_pair(sec: SectionModel, i: int) -> ((usize, usize), XrefEntry) {
    let e = sec.2[i];
    let id = (sec.0 + i) as usize;
    (
        (id, e.1 as usize),
        if e.2 {
            XrefEntry::Occupied { offset: e.0 as usize }
        } else {
            XrefEntry::Free { next_id: id }
        },
    )
}

/// The keys and entries of a table, section by section.
pub open spec fn table_pairs(secs: Seq<SectionModel>) -> Seq<((usize, usize), XrefEntry)>
    decreases secs.len(),
{
    if secs.len() == 0 {
        Seq::empty()
    } else {
        table_pairs(secs.drop_last()) + Seq::new(
            secs.last().2.len(),
            |i: int| table_pair(secs.last(), i),
        )
    }
}

/// The entries with the pairs added in order, each only if its key is free.
pub open spec fn insert_all_first(m: Map<(usize, usize), XrefEntry>, pairs: Seq<((usize, usize), XrefEntry)>) -> Map<
    (usize, usize),
    XrefEntry,
>
    decreases pairs.len(),
{
    if pairs.len() == 0 {
        m
    } else {
        let prefix = insert_all_first(m, pairs.drop_last());
        insert_first(prefix, pairs.last().0, pairs.last().1)
    }
}

/// Every entry of every section has an object number that fits in `usize`.
pub open spec fn table_ids_fit(secs: Seq<SectionModel>) -> bool {
    forall|k: int| 0 <= k < secs.len() ==> #[trigger] secs[k].0 + secs[k].2.len() <= usize::MAX + 1
}

/// The value of an object read as an integer that fits in `usize`.
pub open spec fn spec_as_usize(o: ObjectModel) -> Result<usize, ObjectError> {
    match integer_of(o) {
        Some(v) => if 0 <= v <= usize::MAX {
            Ok(v as usize)
        } else {
            Err(ObjectError::TypeConvertion)
        },
        None => Err(ObjectError::UnexpectedObjectType { expected: ObjectKind::Integer }),
    }
}

/// The value of an object read as an integer that fits in `u64`.
pub open spec fn spec_as_u64(o: ObjectModel) -> Result<u64, ObjectError> {
    match integer_of(o) {
        Some(v) => if 0 <= v {
            Ok(v as u64)
        } else {
            Err(ObjectError::TypeConvertion)
        },
        None => Err(ObjectError::UnexpectedObjectType { expected: ObjectKind::Integer }),
    }
}

/// The value of an object read as an indirect reference.
pub open spec fn spec_as_ref(o: ObjectModel) -> Result<IndirectReference, ObjectError> {
    match o {
        ObjectModel::IndirectReference(id, g) => Ok(
            IndirectReference { id: id as usize, gen_id: g as usize },
        ),
        _ => Err(ObjectError::UnexpectedObjectType { expected: ObjectKind::IndirectReference }),
    }
}

/// An optional entry read as a `u64`.
pub open spec fn opt_u64(o: Option<ObjectModel>) -> Result<Option<u64>, ObjectError> {
    match o {
        None => Ok(None),
        Some(x) => match spec_as_u64(x) {
            Ok(v) => Ok(Some(v)),
            Err(e) => Err(e),
        },
    }
}

/// An optional entry read as an indirect reference.
pub open spec fn opt_ref(o: Option<ObjectModel>) -> Result<Option<IndirectReference>, ObjectError> {
    match o {
        None => Ok(None),
        Some(x) => match spec_as_ref(x) {
            Ok(v) => Ok(Some(v)),
            Err(e) => Err(e),
        },
    }
}

/// An optional entry read as a file identifier.
pub open spec fn opt_hash(o: Option<ObjectModel>) -> Result<Option<(Seq<u8>, Seq<u8>)>, HashError> {
    match o {
        None => Ok(None),
        Some(x) => match spec_hash(x) {
            Ok(v) => Ok(Some(v)),
            Err(e) => Err(e),
        },
    }
}

pub open spec fn size_key() -> Seq<char> {
    seq!['S', 'i', 'z', 'e']
}

pub open spec fn prev_key() -> Seq<char> {
    seq!['P', 'r', 'e', 'v']
}

pub open spec fn id_key() -> Seq<char> {
    seq!['I', 'D']
}

pub open spec fn root_key() -> Seq<char> {
    seq!['R', 'o', 'o', 't']
}

pub open spec fn info_key() -> Seq<char> {
    seq!['I', 'n', 'f', 'o']
}

pub open spec fn xref_stm_key() -> Seq<char> {
    seq!['X', 'R', 'e', 'f', 'S', 't', 'm']
}

/// What a trailer dictionary holds: `Size`, `Prev`, `ID`, `Root`, `Info`.
pub struct TrailerData {
    pub size: usize,
    pub prev: Option<u64>,
    pub hash: Option<(Seq<u8>, Seq<u8>)>,
    pub root_id: IndirectReference,
    pub info_id: Option<IndirectReference>,
}

/// Reads a trailer dictionary (or the dictionary of a cross-reference
/// stream): `Size` and `Root` must be there; `Size`, `Prev`, `ID`, `Root`
/// and `Info` are read in this order and the first that fails gives the error.
pub open spec fn spec_xref_data(d: Seq<(Seq<char>, ObjectModel)>) -> Result<TrailerData, XrefError> {
    match dict_get(d, size_key()) {
        None => Err(XrefError::FieldNotFound { field: XrefField::Size }),
        Some(so) => match spec_as_usize(so) {
            Err(e) => Err(XrefError::InvalidField { field: XrefField::Size, source: e }),
            Ok(size) => match opt_u64(dict_get(d, prev_key())) {
                Err(e) => Err(XrefError::InvalidField { field: XrefField::Prev, source: e }),
                Ok(prev) => match opt_hash(dict_get(d, id_key())) {
                    Err(e) => Err(XrefError::InvalidHash(e)),
                    Ok(hash) => match dict_get(d, root_key()) {
                        None => Err(XrefError::FieldNotFound { field: XrefField::Root }),
                        Some(ro) => match spec_as_ref(ro) {
                            Err(e) => Err(XrefError::InvalidField { field: XrefField::Root, source: e }),
                            Ok(root_id) => match opt_ref(dict_get(d, info_key())) {
                                Err(e) => Err(
                                    XrefError::InvalidField { field: XrefField::Info, source: e },
                                ),
                                Ok(info_id) => Ok(TrailerData { size, prev, hash, root_id, info_id }),
                            },
                        },
                    },
                },
            },
        },
    }
}

/// The table after reading a trailer: the larger size, and its `Prev`.
pub open spec fn with_trailer(m: XrefModel, t: TrailerData) -> XrefModel {
    XrefModel {
        prev: t.prev,
        xref_stm: m.xref_stm,
        size: if t.size > m.size {
            t.size
        } else {
            m.size
        },
        version: m.version,
        entries: m.entries,
    }
}

/// The table with `XRefStm` set.
pub open spec fn with_xref_stm(m: XrefModel, stm: Option<u64>) -> XrefModel {
    XrefModel { prev: m.prev, xref_stm: stm, size: m.size, version: m.version, entries: m.entries }
}

/// The value of metadata: root, version, identifier, information dictionary.
pub open spec fn metadata_view(m: XrefMetadata) -> (IndirectReference, Version, Option<(Seq<u8>, Seq<u8>)>, Option<IndirectReference>) {
    (
        m.root_id,
        m.version,
        match m.hash {
            Some(h) => Some(h@),
            None => None,
        },
        m.info_id,
    )
}

/// The metadata that a trailer gives, with the table's version.
pub open spec fn trailer_metadata(t: TrailerData, v: Version) -> (IndirectReference, Version, Option<(Seq<u8>, Seq<u8>)>, Option<IndirectReference>) {
    (t.root_id, v, t.hash, t.info_id)
}

/// Two table values are the same.
pub open spec fn same_model(a: XrefModel, b: XrefModel) -> bool {
    &&& a.prev == b.prev
    &&& a.xref_stm == b.xref_stm
    &&& a.size == b.size
    &&& a.version == b.version
    &&& a.entries == b.entries
}

/// The big-endian value of `b`, kept to `usize` as the bytes are shifted in.
pub open spec fn be_value(b: Seq<u8>) -> usize
    decreases b.len(),
{
    if b.len() == 0 {
        0
    } else {
        vstd::wrapping::usize_specs::wrapping_add(
            vstd::wrapping::usize_specs::wrapping_mul(be_value(b.drop_last()), 256),
            b.last() as usize,
        )
    }
}

/// A field of a stream entry of width `n` at `pos`, or `default` when `n` is 0.
pub open spec fn entry_field(e: Seq<u8>, pos: int, n: usize, default: usize) -> usize {
    if n == 0 {
        default
    } else {
        be_value(e.subrange(pos, pos + n))
    }
}

/// The key and entry that an entry of a cross-reference stream gives for
/// object `id`: its type (1 when the width is 0), then two fields.
pub open spec fn stream_entry(w: Seq<usize>, e: Seq<u8>, id: usize) -> Result<
    ((usize, usize), XrefEntry),
    XrefError,
> {
    let t = entry_field(e, 0, w[0], 1);
    let f1 = entry_field(e, w[0] as int, w[1], 0);
    let f2 = entry_field(e, w[0] + w[1], w[2], 0);
    if t == 0 {
        Ok(((id, f2), XrefEntry::Free { next_id: f1 }))
    } else if t == 1 {
        Ok(((id, f2), XrefEntry::Occupied { offset: f1 }))
    } else if t == 2 {
        Ok(((id, 0), XrefEntry::OccupiedCompressed { stream_id: f1, stream_ind: f2 }))
    } else {
        Err(XrefError::InvalidXrefStreamEntryType { entry_type: t })
    }
}

/// The entries after the stream entries, and where reading stopped.
pub struct StreamFold {
    pub entries: Map<(usize, usize), XrefEntry>,
    pub pos: int,
    pub error: Option<XrefError>,
}

/// Reads the entries of objects `a` to `b` from the entries of `es` bytes
/// that start at `pos`, while there are entries left.
pub open spec fn fold_range(
    m: Map<(usize, usize), XrefEntry>,
    w: Seq<usize>,
    data: Seq<u8>,
    es: int,
    pos: int,
    a: int,
    b: int,
) -> StreamFold
    decreases b - a + 1,
{
    if a > b || es <= 0 || pos < 0 || pos + es > data.len() {
        StreamFold { entries: m, pos, error: None }
    } else {
        match stream_entry(w, data.subrange(pos, pos + es), a as usize) {
            Ok((key, e)) => fold_range(insert_first(m, key, e), w, data, es, pos + es, a + 1, b),
            Err(x) => StreamFold { entries: m, pos, error: Some(x) },
        }
    }
}

/// Reads the entries of the object ranges `pairs`, one range after the other.
#[verifier::opaque]
pub open spec fn fold_pairs(
    m: Map<(usize, usize), XrefEntry>,
    w: Seq<usize>,
    data: Seq<u8>,
    es: int,
    pairs: Seq<(usize, usize)>,
) -> StreamFold
    decreases pairs.len(),
{
    if pairs.len() == 0 {
        StreamFold { entries: m, pos: 0, error: None }
    } else {
        let f = fold_pairs(m, w, data, es, pairs.drop_last());
        if f.error is Some {
            f
        } else {
            fold_range(f.entries, w, data, es, f.pos, pairs.last().0 as int, pairs.last().1 as int)
        }
    }
}

/// The integers that the elements of an array hold; the first element that
/// is not one gives the error.
pub open spec fn spec_usizes(items: Seq<ObjectModel>) -> Result<Seq<usize>, ObjectError>
    decreases items.len(),
{
    if items.len() == 0 {
        Ok(Seq::empty())
    } else {
        match spec_usizes(items.drop_last()) {
            Ok(v) => match spec_as_usize(items.last()) {
                Ok(x) => Ok(v.push(x)),
                Err(e) => Err(e),
            },
            Err(e) => Err(e),
        }
    }
}

/// The pairs of integers in the first `2 * n` elements.
pub open spec fn spec_pairs(items: Seq<ObjectModel>, n: nat) -> Result<Seq<(usize, usize)>, ObjectError>
    decreases n,
{
    if n == 0 {
        Ok(Seq::empty())
    } else {
        match spec_pairs(items, (n - 1) as nat) {
            Ok(v) => match spec_as_usize(items[2 * n - 2]) {
                Ok(x) => match spec_as_usize(items[2 * n - 1]) {
                    Ok(y) => Ok(v.push((x, y))),
                    Err(e) => Err(e),
                },
                Err(e) => Err(e),
            },
            Err(e) => Err(e),
        }
    }
}

pub open spec fn w_key() -> Seq<char> {
    seq!['W']
}

pub open spec fn index_key() -> Seq<char> {
    seq!['I', 'n', 'd', 'e', 'x']
}

/// The widths `W` of a cross-reference stream: three integers.
pub open spec fn spec_w(d: Seq<(Seq<char>, ObjectModel)>) -> Result<Seq<usize>, XrefError> {
    match dict_get(d, w_key()) {
        None => Err(XrefError::FieldNotFound { field: XrefField::W }),
        Some(ObjectModel::Array(items)) => match spec_usizes(items) {
            Ok(ws) => if ws.len() != 3 {
                Err(XrefError::InvalidXrefStreamWSize { size: ws.len() as usize })
            } else {
                Ok(ws)
            },
            Err(e) => Err(
                XrefError::InvalidArray {
                    field: XrefField::W,
                    source: ArrayError::FailedArrayConvertion(e),
                },
            ),
        },
        Some(_) => Err(
            XrefError::InvalidArray { field: XrefField::W, source: ArrayError::UnexpectedObjectType },
        ),
    }
}

/// The object ranges `Index` of a cross-reference stream (pairs of first
/// and last object number; an odd last element is ignored), or objects 0 to
/// `size` when it is not given.
pub open spec fn spec_index(d: Seq<(Seq<char>, ObjectModel)>, size: usize) -> Result<
    Seq<(usize, usize)>,
    XrefError,
> {
    match dict_get(d, index_key()) {
        None => Ok(seq![(0usize, size)]),
        Some(ObjectModel::Array(items)) => match spec_pairs(items, items.len() / 2) {
            Ok(v) => Ok(v),
            Err(e) => Err(XrefError::InvalidField { field: XrefField::Index, source: e }),
        },
        Some(_) => Err(
            XrefError::InvalidArray {
                field: XrefField::Index,
                source: ArrayError::UnexpectedObjectType,
            },
        ),
    }
}

/// The widths add up to a positive entry size that fits in `usize`.
pub open spec fn widths_fit(d: Seq<(Seq<char>, ObjectModel)>) -> bool {
    spec_w(d) matches Ok(ws) ==> 0 < ws[0] + ws[1] + ws[2] <= usize::MAX
}

/// The entry size of widths `ws`.
pub open spec fn entry_size(ws: Seq<usize>) -> int {
    ws[0] + ws[1] + ws[2]
}

/// The table with other entries.
pub open spec fn with_entries(m: XrefModel, e: Map<(usize, usize), XrefEntry>) -> XrefModel {
    XrefModel { prev: m.prev, xref_stm: m.xref_stm, size: m.size, version: m.version, entries: e }
}

/// Reading one more range: what the ranges before it gave, then that range.
proof fn lemma_fold_pairs_step(
    m: Map<(usize, usize), XrefEntry>,
    w: Seq<usize>,
    data: Seq<u8>,
    es: int,
    pairs: Seq<(usize, usize)>,
    p: int,
)
    requires
        0 <= p < pairs.len(),
        fold_pairs(m, w, data, es, pairs.take(p)).error is None,
    ensures
        fold_pairs(m, w, data, es, pairs.take(p + 1)) == fold_range(
            fold_pairs(m, w, data, es, pairs.take(p)).entries,
            w,
            data,
            es,
            fold_pairs(m, w, data, es, pairs.take(p)).pos,
            pairs[p].0 as int,
            pairs[p].1 as int,
        ),
{
    reveal(fold_pairs);
    assert(pairs.take(p + 1).drop_last() =~= pairs.take(p));
    assert(pairs.take(p + 1).last() == pairs[p]);
}

/// Once reading the stream entries has failed, later ranges change nothing.
proof fn lemma_fold_pairs_error(
    m: Map<(usize, usize), XrefEntry>,
    w: Seq<usize>,
    data: Seq<u8>,
    es: int,
    pairs: Seq<(usize, usize)>,
    k: int,
)
    requires
        0 <= k <= pairs.len(),
        fold_pairs(m, w, data, es, pairs.take(k)).error is Some,
    ensures
        fold_pairs(m, w, data, es, pairs) == fold_pairs(m, w, data, es, pairs.take(k)),
    decreases pairs.len() - k,
{
    reveal(fold_pairs);
    if k < pairs.len() {
        assert(pairs.take(k + 1).drop_last() =~= pairs.take(k));
        lemma_fold_pairs_error(m, w, data, es, pairs, k + 1);
    } else {
        assert(pairs.take(k) =~= pairs);
    }
}

/// The integers held by `items`, in order.
fn usizes_of(items: &Vec<Object>) -> (r: Result<Vec<usize>, ObjectError>)
    ensures
        match spec_usizes(crate::types::object::objects_view(items@)) {
            Ok(v) => r matches Ok(x) && x@ == v,
            Err(e) => r == Err::<Vec<usize>, ObjectError>(e),
        },
{
    let ghost all = crate::types::object::objects_view(items@);
    proof {
        crate::types::object::lemma_objects_view(items@);
    }
    let mut out: Vec<usize> = Vec::new();
    let mut i: usize = 0;
    assert(all.take(0) =~= Seq::<ObjectModel>::empty());
    while i < items.len()
        invariant
            i <= items@.len(),
            all.len() == items@.len(),
            forall|j: int| 0 <= j < items@.len() ==> #[trigger] all[j] == items@[j]@,
            spec_usizes(all.take(i as int)) == Ok::<Seq<usize>, ObjectError>(out@),
            all == crate::types::object::objects_view(items@),
        decreases items@.len() - i,
    {
        assert(all.take(i + 1).drop_last() =~= all.take(i as int));
        match items[i].as_usize() {
            Ok(x) => {
                out.push(x);
            },
            Err(e) => {
                proof {
                    lemma_usizes_error(all, i + 1);
                }
                return Err(e);
            },
        }
        i = i + 1;
    }
    assert(all.take(i as int) =~= all);
    Ok(out)
}

proof fn lemma_usizes_error(items: Seq<ObjectModel>, k: int)
    requires
        0 <= k <= items.len(),
        spec_usizes(items.take(k)) is Err,
    ensures
        spec_usizes(items) == spec_usizes(items.take(k)),
    decreases items.len() - k,
{
    if k < items.len() {
        assert(items.take(k + 1).drop_last() =~= items.take(k));
        lemma_usizes_error(items, k + 1);
    } else {
        assert(items.take(k) =~= items);
    }
}

proof fn lemma_pairs_error(items: Seq<ObjectModel>, k: nat, n: nat)
    requires
        k <= n,
        spec_pairs(items, k) is Err,
    ensures
        spec_pairs(items, n) == spec_pairs(items, k),
    decreases n - k,
{
    if k < n {
        lemma_pairs_error(items, k, (n - 1) as nat);
    }
}

/// The pairs of integers in the first `2 * (len / 2)` elements of `items`.
fn pairs_of(items: &Vec<Object>) -> (r: Result<Vec<(usize, usize)>, ObjectError>)
    ensures
        match spec_pairs(
            crate::types::object::objects_view(items@),
            (items@.len() / 2) as nat,
        ) {
            Ok(v) => r matches Ok(x) && x@ == v,
            Err(e) => r == Err::<Vec<(usize, usize)>, ObjectError>(e),
        },
{
    let ghost all = crate::types::object::objects_view(items@);
    proof {
        crate::types::object::lemma_objects_view(items@);
    }
    let len = items.len();
    let n = len / 2;
    let mut out: Vec<(usize, usize)> = Vec::new();
    let mut k: usize = 0;
    while k < n
        invariant
            k <= n,
            len == items@.len(),
            n == items@.len() / 2,
            all.len() == items@.len(),
            forall|j: int| 0 <= j < items@.len() ==> #[trigger] all[j] == items@[j]@,
            spec_pairs(all, k as nat) == Ok::<Seq<(usize, usize)>, ObjectError>(out@),
            all == crate::types::object::objects_view(items@),
        decreases n - k,
    {
        assert(2 * k + 1 < items@.len()) by (nonlinear_arith)
            requires
                k < n,
                n == items@.len() / 2,
        ;
        let x = match items[2 * k].as_usize() {
            Ok(x) => x,
            Err(e) => {
                proof {
                    lemma_pairs_error(all, (k + 1) as nat, n as nat);
                }
                return Err(e);
            },
        };
        let y = match items[2 * k + 1].as_usize() {
            Ok(y) => y,
            Err(e) => {
                proof {
                    lemma_pairs_error(all, (k + 1) as nat, n as nat);
                }
                return Err(e);
            },
        };
        out.push((x, y));
        k = k + 1;
    }
    Ok(out)
}

/// What reading a cross-reference stream does: its entries are added to
/// `m` until one fails; the error, if one does.
pub open spec fn stream_effect(m: XrefModel, d: Seq<(Seq<char>, ObjectModel)>, data: Seq<u8>) -> (XrefModel, Option<XrefError>) {
    match spec_w(d) {
        Err(e) => (m, Some(e)),
        Ok(ws) => match spec_index(d, m.size) {
            Err(e) => (m, Some(e)),
            Ok(pairs) => {
                let f = fold_pairs(m.entries, ws, data, entry_size(ws), pairs);
                (with_entries(m, f.entries), f.error)
            },
        },
    }
}

/// What reading cross-reference data ends in: its metadata, an error, or
/// an error while decoding a stream.
pub enum TableOutcome {
    Meta((IndirectReference, Version, Option<(Seq<u8>, Seq<u8>)>, Option<IndirectReference>)),
    Fail(XrefError),
    StreamFail,
}

/// A result agrees with an outcome.
pub open spec fn outcome_agrees(r: Result<XrefMetadata, XrefError>, o: TableOutcome) -> bool {
    match o {
        TableOutcome::Meta(v) => r matches Ok(m) && metadata_view(m) == v,
        TableOutcome::Fail(e) => r == Err::<XrefMetadata, XrefError>(e),
        TableOutcome::StreamFail => r matches Err(XrefError::StreamProcessing(_)),
    }
}

/// Reading the trailer after a table: `XRefStm`, then the trailer data.
pub open spec fn trailer_effect(m: XrefModel, input: Seq<u8>) -> (XrefModel, TableOutcome) {
    match spec_trailer(input) {
        Outcome::Parsed(d, _) => match opt_u64(dict_get(d, xref_stm_key())) {
            Err(e) => (
                m,
                TableOutcome::Fail(XrefError::InvalidField { field: XrefField::XRefStm, source: e }),
            ),
            Ok(stm) => {
                let m1 = with_xref_stm(m, stm);
                match spec_xref_data(d) {
                    Ok(t) => (with_trailer(m1, t), TableOutcome::Meta(trailer_metadata(t, m.version))),
                    Err(e) => (m1, TableOutcome::Fail(e)),
                }
            },
        },
        _ => (m, TableOutcome::Fail(XrefError::ParseFile { section: FileSection::Trailer, offset: 0 })),
    }
}

/// Reading a cross-reference stream with dictionary `d` and data `data`:
/// the data is decoded, the dictionary read as a trailer, then the entries.
pub open spec fn stream_read(m: XrefModel, d: Seq<(Seq<char>, ObjectModel)>, data: Seq<u8>) -> (XrefModel, TableOutcome) {
    match spec_decoded(d, data) {
        None => (m, TableOutcome::StreamFail),
        Some(decoded) => match spec_xref_data(d) {
            Err(e) => (m, TableOutcome::Fail(e)),
            Ok(t) => {
                let (m2, err) = stream_effect(with_trailer(m, t), d, decoded);
                match err {
                    Some(e) => (m2, TableOutcome::Fail(e)),
                    None => (m2, TableOutcome::Meta(trailer_metadata(t, m.version))),
                }
            },
        },
    }
}

/// Reading the cross-reference data at `start`, whose bytes from there on
/// are `rest`.
pub open spec fn table_read(m: XrefModel, rest: Seq<u8>, start: usize) -> (XrefModel, TableOutcome) {
    match spec_xref_object(rest) {
        Outcome::Parsed(XrefObjectModel::Table(secs), e) => trailer_effect(
            with_entries(m, insert_all_first(m.entries, table_pairs(secs))),
            rest.subrange(e, rest.len() as int),
        ),
        Outcome::Parsed(XrefObjectModel::ObjectStream((d, data)), _) => stream_read(m, d, data),
        Outcome::Parsed(XrefObjectModel::IndirectObjectStream((_, _, o)), _) => match spec_as_stream(o) {
            Some((d, data)) => stream_read(m, d, data),
            None => (
                m,
                TableOutcome::Fail(
                    XrefError::InvalidStream(
                        ObjectError::UnexpectedObjectType { expected: ObjectKind::Stream },
                    ),
                ),
            ),
        },
        _ => (m, TableOutcome::Fail(XrefError::ParseFile { section: FileSection::Xref, offset: start })),
    }
}

/// The cross-reference data at `offset` can be read without running into
/// the end of the input inside a comment, text that is not valid UTF-8, an
/// object number past `usize`, or stream entries of no or too large a size.
pub open spec fn table_readable(input: Seq<u8>, offset: int) -> bool {
    &&& 0 <= offset <= input.len()
    &&& {
        let rest = input.subrange(offset, input.len() as int);
        &&& !(spec_xref_object(rest) is Incomplete)
        &&& !(spec_xref_object(rest) is Panics)
        &&& (spec_xref_object(rest) matches Outcome::Parsed(XrefObjectModel::Table(secs), e) ==> {
            &&& table_ids_fit(secs)
            &&& !(spec_trailer(rest.subrange(e, rest.len() as int)) is Incomplete)
            &&& !(spec_trailer(rest.subrange(e, rest.len() as int)) is Panics)
        })
        &&& (spec_xref_object(rest) matches Outcome::Parsed(
            XrefObjectModel::ObjectStream((d, _)),
            _,
        ) ==> widths_fit(d))
        &&& (spec_xref_object(rest) matches Outcome::Parsed(
            XrefObjectModel::IndirectObjectStream((_, _, o)),
            _,
        ) ==> (spec_as_stream(o) matches Some((d, _)) ==> widths_fit(d)))
    }
}

/// The dictionary and data of a stream, or of the stream in an indirect
/// definition.
pub open spec fn spec_as_stream(o: ObjectModel) -> Option<(Seq<(Seq<char>, ObjectModel)>, Seq<u8>)> {
    match o {
        ObjectModel::Stream(d, data) => Some((d, data)),
        ObjectModel::IndirectDefinition(_, _, inner) => match *inner {
            ObjectModel::Stream(d, data) => Some((d, data)),
            _ => None,
        },
        _ => None,
    }
}

/// The number of decimal digits of `n`.
pub open spec fn decimal_len(n: nat) -> nat
    decreases n,
{
    if n < 10 {
        1
    } else {
        1 + decimal_len(n / 10)
    }
}

/// How far before the end of the file the `startxref` pointer is looked
/// for: 23 bytes more than the digits of the file size.
pub open spec fn startxref_window(filesize: nat) -> nat {
    if filesize == 0 {
        23
    } else {
        decimal_len(filesize) + 23
    }
}

/// The table with another version.
pub open spec fn with_version(m: XrefModel, v: Version) -> XrefModel {
    XrefModel { prev: m.prev, xref_stm: m.xref_stm, size: m.size, version: v, entries: m.entries }
}

/// The number of decimal digits of `n` (one for 0).
pub(crate) fn decimal_digits(n: usize) -> (r: usize)
    ensures
        r == decimal_len(n as nat),
        r <= 20,
{
    let mut k: usize = 1;
    let mut v = n;
    while v >= 10
        invariant
            decimal_len(n as nat) == k - 1 + decimal_len(v as nat),
            1 <= k <= 20,
            k + (if v >= 10000000000000000000 { 19nat } else if v >= 1000000000000000000 { 18nat } else if v >= 100000000000000000 { 17nat } else if v >= 10000000000000000 { 16nat } else if v >= 1000000000000000 { 15nat } else if v >= 100000000000000 { 14nat } else if v >= 10000000000000 { 13nat } else if v >= 1000000000000 { 12nat } else if v >= 100000000000 { 11nat } else if v >= 10000000000 { 10nat } else if v >= 1000000000 { 9nat } else if v >= 100000000 { 8nat } else if v >= 10000000 { 7nat } else if v >= 1000000 { 6nat } else if v >= 100000 { 5nat } else if v >= 10000 { 4nat } else if v >= 1000 { 3nat } else if v >= 100 { 2nat } else if v >= 10 { 1nat } else { 0nat }) <= 20,
        decreases v,
    {
        v = v / 10;
        k = k + 1;
    }
    k
}

/// Reads the widths `W` of a cross-reference stream.
fn read_widths(d: &Dictionary) -> (r: Result<Vec<usize>, XrefError>)
    ensures
        match spec_w(d@) {
            Ok(ws) => r matches Ok(v) && v@ == ws,
            Err(e) => r == Err::<Vec<usize>, XrefError>(e),
        },
{
    let w_name = "W";
    proof {
        reveal_strlit("W");
        assert(w_name@ =~= w_key());
    }
    let w = match d.get(w_name) {
        None => {
            return Err(XrefError::FieldNotFound { field: XrefField::W });
        },
        Some(Object::Array(a)) => {
            proof {
                crate::types::object::lemma_objects_view(a.data@);
            }
            match usizes_of(&a.data) {
                Ok(ws) => ws,
                Err(e) => {
                    return Err(
                        XrefError::InvalidArray {
                            field: XrefField::W,
                            source: ArrayError::FailedArrayConvertion(e),
                        },
                    );
                },
            }
        },
        Some(_) => {
            return Err(
                XrefError::InvalidArray { field: XrefField::W, source: ArrayError::UnexpectedObjectType },
            );
        },
    };
    if w.len() != 3 {
        return Err(XrefError::InvalidXrefStreamWSize { size: w.len() });
    }
    Ok(w)
}

/// Reads the object ranges `Index` of a cross-reference stream.
fn read_index(d: &Dictionary, size: usize) -> (r: Result<Vec<(usize, usize)>, XrefError>)
    ensures
        match spec_index(d@, size) {
            Ok(v) => r matches Ok(x) && x@ == v,
            Err(e) => r == Err::<Vec<(usize, usize)>, XrefError>(e),
        },
{
    let index_name = "Index";
    proof {
        reveal_strlit("Index");
        assert(index_name@ =~= index_key());
    }
    match d.get(index_name) {
        None => {
            let v = vec![(0usize, size)];
            assert(v@ =~= seq![(0usize, size)]);
            Ok(v)
        },
        Some(Object::Array(a)) => {
            proof {
                crate::types::object::lemma_objects_view(a.data@);
            }
            match pairs_of(&a.data) {
                Ok(v) => Ok(v),
                Err(e) => Err(XrefError::InvalidField { field: XrefField::Index, source: e }),
            }
        },
        Some(_) => Err(
            XrefError::InvalidArray {
                field: XrefField::Index,
                source: ArrayError::UnexpectedObjectType,
            },
        ),
    }
}

/// Where the next earlier cross-reference data is: at `XRefStm`, else at
/// `Prev`.
pub open spec fn next_offset(m: XrefModel) -> Option<u64> {
    if m.xref_stm is Some {
        m.xref_stm
    } else {
        m.prev
    }
}

/// Every entry of `a` is in `b`, unchanged.
pub open spec fn keeps(a: Map<(usize, usize), XrefEntry>, b: Map<(usize, usize), XrefEntry>) -> bool {
    forall|k: (usize, usize)| #[trigger] a.contains_key(k) ==> b.contains_key(k) && b[k] == a[k]
}

proof fn lemma_insert_all_first_keeps(m: Map<(usize, usize), XrefEntry>, pairs: Seq<((usize, usize), XrefEntry)>)
    ensures
        keeps(m, insert_all_first(m, pairs)),
    decreases pairs.len(),
{
    if pairs.len() > 0 {
        lemma_insert_all_first_keeps(m, pairs.drop_last());
    }
}

proof fn lemma_fold_range_keeps(
    m: Map<(usize, usize), XrefEntry>,
    w: Seq<usize>,
    data: Seq<u8>,
    es: int,
    pos: int,
    a: int,
    b: int,
)
    ensures
        keeps(m, fold_range(m, w, data, es, pos, a, b).entries),
    decreases b - a + 1,
{
    if !(a > b || es <= 0 || pos < 0 || pos + es > data.len()) {
        match stream_entry(w, data.subrange(pos, pos + es), a as usize) {
            Ok((key, e)) => {
                let m1 = insert_first(m, key, e);
                assert(keeps(m, m1));
                lemma_fold_range_keeps(m1, w, data, es, pos + es, a + 1, b);
                let f = fold_range(m1, w, data, es, pos + es, a + 1, b);
                assert(fold_range(m, w, data, es, pos, a, b) == f);
                assert forall|k: (usize, usize)| #[trigger] m.contains_key(k) implies f.entries.contains_key(k)
                    && f.entries[k] == m[k] by {
                    assert(m1.contains_key(k));
                }
            },
            Err(_) => {},
        }
    }
}

proof fn lemma_fold_pairs_keeps(
    m: Map<(usize, usize), XrefEntry>,
    w: Seq<usize>,
    data: Seq<u8>,
    es: int,
    pairs: Seq<(usize, usize)>,
)
    ensures
        keeps(m, fold_pairs(m, w, data, es, pairs).entries),
    decreases pairs.len(),
{
    reveal(fold_pairs);
    if pairs.len() > 0 {
        lemma_fold_pairs_keeps(m, w, data, es, pairs.drop_last());
        let f = fold_pairs(m, w, data, es, pairs.drop_last());
        if f.error is None {
            lemma_fold_range_keeps(
                f.entries,
                w,
                data,
                es,
                f.pos,
                pairs.last().0 as int,
                pairs.last().1 as int,
            );
        }
    }
}

/// Reading more cross-reference data never drops or changes an entry that
/// is already known: a section only adds the objects that it is the first

/// After a cross-reference table and its trailer are read, earlier
/// sections are named exactly when the trailer gives `XRefStm` or `Prev`.
pub proof fn lemma_more_tables_named(m: XrefModel, input: Seq<u8>)
    requires
        trailer_effect(m, input).1 is Meta,
    ensures
        spec_trailer(input) matches Outcome::Parsed(d, _) && ((trailer_effect(m, input).0.xref_stm is Some
            || trailer_effect(m, input).0.prev is Some) <==> (dict_get(d, xref_stm_key()) is Some || dict_get(
            d,
            prev_key(),
        ) is Some)),
{
}

/// The dictionary that names earlier cross-reference data in the section
/// `rest` begins with: the trailer after a table, or the dictionary of a
/// cross-reference stream; and whether the section is a table.
pub open spec fn section_dictionary(rest: Seq<u8>) -> Option<(Seq<(Seq<char>, ObjectModel)>, bool)> {
    match spec_xref_object(rest) {
        Outcome::Parsed(XrefObjectModel::Table(_), e) => match spec_trailer(rest.subrange(e, rest.len() as int)) {
            Outcome::Parsed(d, _) => Some((d, true)),
            _ => None,
        },
        Outcome::Parsed(XrefObjectModel::ObjectStream((d, _)), _) => Some((d, false)),
        Outcome::Parsed(XrefObjectModel::IndirectObjectStream((_, _, o)), _) => match spec_as_stream(o) {
            Some((d, _)) => Some((d, false)),
            None => None,
        },
        _ => None,
    }
}

/// Reading a section into data that names no cross-reference stream yet:
/// once read, earlier sections are named exactly when its dictionary gives
/// `Prev`, or, for a table, `XRefStm`.
pub proof fn lemma_read_names_more(m: XrefModel, rest: Seq<u8>, start: usize)
    requires
        m.xref_stm is None,
        table_read(m, rest, start).1 is Meta,
    ensures
        section_dictionary(rest) matches Some((d, table)) && ((table_read(m, rest, start).0.xref_stm is Some
            || table_read(m, rest, start).0.prev is Some) <==> (dict_get(d, prev_key()) is Some || (table
            && dict_get(d, xref_stm_key()) is Some))),
{
    match spec_xref_object(rest) {
        Outcome::Parsed(XrefObjectModel::Table(secs), e) => {
            let m1 = with_entries(m, insert_all_first(m.entries, table_pairs(secs)));
            lemma_more_tables_named(m1, rest.subrange(e, rest.len() as int));
        },
        _ => {},
    }
}

/// Reading a section keeps every entry that was known before it: an older
/// section never replaces what a newer one gave.
pub proof fn lemma_table_read_keeps(m: XrefModel, rest: Seq<u8>, start: usize)
    ensures
        keeps(m.entries, table_read(m, rest, start).0.entries),
{
    match spec_xref_object(rest) {
        Outcome::Parsed(XrefObjectModel::Table(secs), e) => {
            lemma_insert_all_first_keeps(m.entries, table_pairs(secs));
        },
        Outcome::Parsed(XrefObjectModel::ObjectStream((d, data)), _) => {
            lemma_stream_read_keeps(m, d, data);
        },
        Outcome::Parsed(XrefObjectModel::IndirectObjectStream((_, _, o)), _) => {
            match spec_as_stream(o) {
                Some((d, data)) => {
                    lemma_stream_read_keeps(m, d, data);
                },
                None => {},
            }
        },
        _ => {},
    }
}

proof fn lemma_stream_read_keeps(m: XrefModel, d: Seq<(Seq<char>, ObjectModel)>, data: Seq<u8>)
    ensures
        keeps(m.entries, stream_read(m, d, data).0.entries),
{
    match spec_decoded(d, data) {
        None => {},
        Some(decoded) => match spec_xref_data(d) {
            Err(_) => {},
            Ok(t) => {
                let m1 = with_trailer(m, t);
                match spec_w(d) {
                    Err(_) => {},
                    Ok(ws) => match spec_index(d, m1.size) {
                        Err(_) => {},
                        Ok(pairs) => {
                            lemma_fold_pairs_keeps(m1.entries, ws, decoded, entry_size(ws), pairs);
                        },
                    },
                }
            },
        },
    }
}

/// Whether the widths `W` of a cross-reference stream give entries of a
/// size that is not 0 and fits in `usize`.
fn widths_ok(d: &Dictionary) -> (r: bool)
    ensures
        r == widths_fit(d@),
{
    match read_widths(d) {
        Err(_) => true,
        Ok(ws) => {
            let a = ws[0];
            let b = ws[1];
            let c = ws[2];
            if a > usize::MAX - b {
                false
            } else if a + b > usize::MAX - c {
                false
            } else {
                a + b + c > 0
            }
        },
    }
}

/// Whether the cross-reference data at `offset` can be read: see
/// [`table_readable`].
pub fn table_readable_at(input: &[u8], offset: u64) -> (r: bool)
    ensures
        r == table_readable(input@, offset as int),
{
    if offset > input.len() as u64 {
        return false;
    }
    let start = offset as usize;
    let rest = slice_subrange(input, start, input.len());
    assert(rest@ == input@.subrange(offset as int, input@.len() as int));
    match xref_object(rest) {
        Err(ParseError::Error) => true,
        Err(_) => false,
        Ok((remained, XrefObject::Table(secs))) => {
            let ghost sv = sections_view(secs@);
            assert(spec_xref_object(rest@) matches Outcome::Parsed(XrefObjectModel::Table(t), _) && t
                == sv);
            let mut k: usize = 0;
            while k < secs.len()
                invariant
                    k <= secs@.len(),
                    offset <= input@.len(),
                    spec_xref_object(input@.subrange(offset as int, input@.len() as int)) matches Outcome::Parsed(
                        XrefObjectModel::Table(t),
                        _,
                    ) && t == sections_view(secs@),
                    forall|j: int|
                        0 <= j < k ==> #[trigger] sections_view(secs@)[j].0 + sections_view(
                            secs@,
                        )[j].2.len() <= usize::MAX + 1,
                decreases secs@.len() - k,
            {
                let n = secs[k].entries.len();
                assert(sections_view(secs@)[k as int] == secs@[k as int]@);
                assert(sections_view(secs@)[k as int].2.len() == n);
                if n > 0 && secs[k].first_id > usize::MAX - (n - 1) {
                    assert(!(sections_view(secs@)[k as int].0 + sections_view(secs@)[k as int].2.len()
                        <= usize::MAX + 1));
                    assert(!table_ids_fit(sections_view(secs@)));
                    return false;
                }
                k = k + 1;
            }
            assert(table_ids_fit(sections_view(secs@)));
            match trailer(remained) {
                Err(ParseError::Error) => true,
                Err(_) => false,
                Ok(_) => true,
            }
        },
        Ok((_, XrefObject::ObjectStream(st))) => widths_ok(&st.dictionary),
        Ok((_, XrefObject::IndirectObjectStream(io))) => match io.object.as_stream() {
            Ok(st) => widths_ok(&st.dictionary),
            Err(_) => true,
        },
    }
}

impl Xref {
    /// An empty table: no entries, size 0, version 2.0.
    pub fn new() -> (r: Xref)
        ensures
            r@.entries == Map::<(usize, usize), XrefEntry>::empty(),
            r@.prev is None,
            r@.xref_stm is None,
            r@.size == 0,
            r@.version == Version::Pdf2_0,
    {
        Xref {
            prev: None,
            xref_stm: None,
            size: 0,
            version: Version::Pdf2_0,
            entries: BTreeMap::new(),
        }
    }

    /// The entry of the object `ref_id`, if it is known.
    pub fn find_entry(&self, ref_id: &IndirectReference) -> (r: Option<&XrefEntry>)
        ensures
            match r {
                Some(e) => self@.entries.contains_key((ref_id.id, ref_id.gen_id)) && *e
                    == self@.entries[(ref_id.id, ref_id.gen_id)],
                None => !self@.entries.contains_key((ref_id.id, ref_id.gen_id)),
            },
    {
        self.entries.get(&(ref_id.id, ref_id.gen_id))
    }

    /// Whether an earlier section is named: by `XRefStm` or `Prev`.
    pub fn has_more_tables(&self) -> (r: bool)
        ensures
            r == (self@.xref_stm is Some || self@.prev is Some),
    {
        self.xref_stm.is_some() || self.prev.is_some()
    }

    /// Where the next earlier cross-reference data is, if any.
    pub fn next_table_offset(&self) -> (r: Option<u64>)
        ensures
            r == next_offset(self@),
    {
        match self.xref_stm {
            Some(o) => Some(o),
            None => self.prev,
        }
    }

    /// Adds `entry` for the object `key`, unless that object has an entry.
    pub fn insert_entry(&mut self, key: IndirectReference, entry: XrefEntry)
        ensures
            final(self)@.entries == insert_first(old(self)@.entries, (key.id, key.gen_id), entry),
            final(self)@.prev == old(self)@.prev,
            final(self)@.xref_stm == old(self)@.xref_stm,
            final(self)@.size == old(self)@.size,
            final(self)@.version == old(self)@.version,
    {
        if self.entries.contains_key(&(key.id, key.gen_id)) {
            return;
        }
        let _ = self.entries.insert((key.id, key.gen_id), entry);
    }

    /// Adds the entries of the table sections: the `i`-th entry of a section
    /// is object `first_id + i`, in use at its offset or free.
    pub fn parse_xref_table(&mut self, sections: Vec<XrefTableSection>) -> (r: Result<(), XrefError>)
        requires
            table_ids_fit(sections_view(sections@)),
        ensures
            r is Ok,
            final(self)@.entries == insert_all_first(
                old(self)@.entries,
                table_pairs(sections_view(sections@)),
            ),
            final(self)@.prev == old(self)@.prev,
            final(self)@.xref_stm == old(self)@.xref_stm,
            final(self)@.size == old(self)@.size,
            final(self)@.version == old(self)@.version,
    {
        let ghost secs = sections_view(sections@);
        let mut k: usize = 0;
        assert(secs.take(0) =~= Seq::<SectionModel>::empty());
        while k < sections.len()
            invariant
                k <= sections@.len(),
                secs == sections_view(sections@),
                secs.len() == sections@.len(),
                table_ids_fit(secs),
                self@.entries == insert_all_first(old(self)@.entries, table_pairs(secs.take(k as int))),
                self@.prev == old(self)@.prev,
                self@.xref_stm == old(self)@.xref_stm,
                self@.size == old(self)@.size,
                self@.version == old(self)@.version,
            decreases sections@.len() - k,
        {
            let section = &sections[k];
            let ghost sec = secs[k as int];
            let ghost before = table_pairs(secs.take(k as int));
            assert(secs.take(k + 1).drop_last() =~= secs.take(k as int));
            assert(secs.take(k + 1).last() == sec);
            assert(sec == section@);
            assert(sec.0 + sec.2.len() <= usize::MAX + 1);
            let mut i: usize = 0;
            while i < section.entries.len()
                invariant
                    i <= section.entries@.len(),
                    sec == section@,
                    sec.2.len() == section.entries@.len(),
                    sec.0 + sec.2.len() <= usize::MAX + 1,
                    self@.entries == insert_all_first(
                        old(self)@.entries,
                        before + Seq::new(i as nat, |j: int| table_pair(sec, j)),
                    ),
                    self@.prev == old(self)@.prev,
                    self@.xref_stm == old(self)@.xref_stm,
                    self@.size == old(self)@.size,
                    self@.version == old(self)@.version,
                decreases section.entries@.len() - i,
            {
                let parsed = section.entries[i];
                let id = section.first_id + i;
                let key = IndirectReference { id, gen_id: parsed.gen_id };
                let entry = if parsed.occupied {
                    XrefEntry::Occupied { offset: parsed.offset }
                } else {
                    XrefEntry::Free { next_id: id }
                };
                let ghost pairs = before + Seq::new(i as nat, |j: int| table_pair(sec, j));
                let ghost pairs1 = before + Seq::new((i + 1) as nat, |j: int| table_pair(sec, j));
                assert(pairs1.drop_last() =~= pairs);
                assert(pairs1.last() == table_pair(sec, i as int));
                assert(table_pair(sec, i as int) == ((key.id, key.gen_id), entry));
                self.insert_entry(key, entry);
                i = i + 1;
            }
            assert(before + Seq::new(i as nat, |j: int| table_pair(sec, j)) =~= table_pairs(
                secs.take(k + 1),
            ));
            k = k + 1;
        }
        assert(secs.take(k as int) =~= secs);
        Ok(())
    }

    /// Reads a trailer dictionary: on success the size becomes the larger
    /// one and `Prev` is taken; the metadata is given with the version.
    pub fn get_xref_data(&mut self, data: &Dictionary) -> (r: Result<XrefMetadata, XrefError>)
        ensures
            match spec_xref_data(data@) {
                Ok(t) => r matches Ok(m) && metadata_view(m) == trailer_metadata(t, old(self)@.version)
                    && same_model(final(self)@, with_trailer(old(self)@, t)),
                Err(e) => r == Err::<XrefMetadata, XrefError>(e) && same_model(final(self)@, old(self)@),
            },
    {
        let size_name = "Size";
        let prev_name = "Prev";
        let id_name = "ID";
        let root_name = "Root";
        let info_name = "Info";
        proof {
            reveal_strlit("Size");
            reveal_strlit("Prev");
            reveal_strlit("ID");
            reveal_strlit("Root");
            reveal_strlit("Info");
            assert(size_name@ =~= size_key());
            assert(prev_name@ =~= prev_key());
            assert(id_name@ =~= id_key());
            assert(root_name@ =~= root_key());
            assert(info_name@ =~= info_key());
        }
        let size = match data.get(size_name) {
            None => {
                return Err(XrefError::FieldNotFound { field: XrefField::Size });
            },
            Some(o) => match o.as_usize() {
                Ok(v) => v,
                Err(e) => {
                    return Err(XrefError::InvalidField { field: XrefField::Size, source: e });
                },
            },
        };
        let prev = match data.get(prev_name) {
            None => None,
            Some(o) => match o.as_u64() {
                Ok(v) => Some(v),
                Err(e) => {
                    return Err(XrefError::InvalidField { field: XrefField::Prev, source: e });
                },
            },
        };
        let file_hash = match data.get(id_name) {
            None => None,
            Some(o) => match crate::structures::hash::Hash::from_object(o) {
                Ok(h) => Some(h),
                Err(e) => {
                    return Err(XrefError::InvalidHash(e));
                },
            },
        };
        let root_id = match data.get(root_name) {
            None => {
                return Err(XrefError::FieldNotFound { field: XrefField::Root });
            },
            Some(o) => match o.as_indirect_ref() {
                Ok(x) => IndirectReference { id: x.id, gen_id: x.gen_id },
                Err(e) => {
                    return Err(XrefError::InvalidField { field: XrefField::Root, source: e });
                },
            },
        };
        let info_id = match data.get(info_name) {
            None => None,
            Some(o) => match o.as_indirect_ref() {
                Ok(x) => Some(IndirectReference { id: x.id, gen_id: x.gen_id }),
                Err(e) => {
                    return Err(XrefError::InvalidField { field: XrefField::Info, source: e });
                },
            },
        };
        if size > self.size {
            self.size = size;
        }
        self.prev = prev;
        Ok(XrefMetadata { root_id, version: self.version, hash: file_hash, info_id })
    }

    /// Reads the trailer that follows a table: its `XRefStm` is taken first,
    /// then the rest as by [`Xref::get_xref_data`]. The input must not end
    /// inside a comment, nor hold a literal string whose text is not valid
    /// UTF-8, where the parse reaches them.
    pub fn parse_trailer(&mut self, input: &[u8]) -> (r: Result<XrefMetadata, XrefError>)
        requires
            !(spec_trailer(input@) is Incomplete),
            !(spec_trailer(input@) is Panics),
        ensures
            same_model(final(self)@, trailer_effect(old(self)@, input@).0),
            outcome_agrees(r, trailer_effect(old(self)@, input@).1),
    {
        let trailer = match read_trailer(input) {
            Ok((_, d)) => d,
            Err(_) => {
                return Err(XrefError::ParseFile { section: FileSection::Trailer, offset: 0 });
            },
        };
        let stm_name = "XRefStm";
        proof {
            reveal_strlit("XRefStm");
            assert(stm_name@ =~= xref_stm_key());
        }
        let stm = match trailer.get(stm_name) {
            None => None,
            Some(o) => match o.as_u64() {
                Ok(v) => Some(v),
                Err(e) => {
                    return Err(XrefError::InvalidField { field: XrefField::XRefStm, source: e });
                },
            },
        };
        self.xref_stm = stm;
        self.get_xref_data(&trailer)
    }

    /// Adds the entry of object `id` that the entry bytes `entry` of a
    /// cross-reference stream give, with the widths `w`.
    pub fn parse_stream_entry(&mut self, w: &[usize], entry: &[u8], id: usize) -> (r: Result<
        (),
        XrefError,
    >)
        requires
            w@.len() == 3,
            w@[0] + w@[1] + w@[2] == entry@.len(),
        ensures
            match stream_entry(w@, entry@, id) {
                Ok((key, e)) => r is Ok && same_model(
                    final(self)@,
                    with_entries(old(self)@, insert_first(old(self)@.entries, key, e)),
                ),
                Err(x) => r == Err::<(), XrefError>(x) && same_model(final(self)@, old(self)@),
            },
    {
        let entry_len = entry.len();
        let mut entry_data: [usize; 3] = [1, 0, 0];
        let mut pos: usize = 0;
        let mut j: usize = 0;
        while j < 3
            invariant
                j <= 3,
                w@.len() == 3,
                entry_len == entry@.len(),
                w@[0] + w@[1] + w@[2] == entry@.len(),
                pos == (if j == 0 { 0 } else if j == 1 { w@[0] as int } else if j == 2 { w@[0] + w@[1] } else { w@[0] + w@[1] + w@[2] }),
                j > 0 ==> entry_data@[0] == entry_field(entry@, 0, w@[0], 1),
                j <= 0 ==> entry_data@[0] == 1,
                j > 1 ==> entry_data@[1] == entry_field(entry@, w@[0] as int, w@[1], 0),
                j <= 1 ==> entry_data@[1] == 0,
                j > 2 ==> entry_data@[2] == entry_field(entry@, w@[0] + w@[1], w@[2], 0),
                j <= 2 ==> entry_data@[2] == 0,
                entry_data@.len() == 3,
            decreases 3 - j,
        {
            let size = w[j];
            if size != 0 {
                assert(pos + size <= entry_len);
                let end = pos + size;
                let mut value: usize = 0;
                let mut q = pos;
                assert(entry@.subrange(pos as int, pos as int) =~= Seq::<u8>::empty());
                while q < end
                    invariant
                        pos <= q <= end <= entry@.len(),
                        end == pos + size,
                        value == be_value(entry@.subrange(pos as int, q as int)),
                    decreases end - q,
                {
                    assert(entry@.subrange(pos as int, q + 1).drop_last() =~= entry@.subrange(
                        pos as int,
                        q as int,
                    ));
                    value = value.wrapping_mul(256).wrapping_add(entry[q] as usize);
                    q = q + 1;
                }
                entry_data[j] = value;
                pos = pos + size;
            }
            j = j + 1;
        }
        match entry_data[0] {
            0 => {
                self.insert_entry(
                    IndirectReference { id, gen_id: entry_data[2] },
                    XrefEntry::Free { next_id: entry_data[1] },
                );
                Ok(())
            },
            1 => {
                self.insert_entry(
                    IndirectReference { id, gen_id: entry_data[2] },
                    XrefEntry::Occupied { offset: entry_data[1] },
                );
                Ok(())
            },
            2 => {
                self.insert_entry(
                    IndirectReference { id, gen_id: 0 },
                    XrefEntry::OccupiedCompressed {
                        stream_id: entry_data[1],
                        stream_ind: entry_data[2],
                    },
                );
                Ok(())
            },
            t => Err(XrefError::InvalidXrefStreamEntryType { entry_type: t }),
        }
    }

    /// Adds the entries of a cross-reference stream: its widths `W` and
    /// object ranges `Index` (objects 0 to `size` by default) say how its
    /// data divides into entries and which objects they describe. Entries
    /// that were read before a failing one stay.
    pub fn extract_xref_stream_data(&mut self, stream: Stream) -> (r: Result<(), XrefError>)
        requires
            widths_fit(stream.dictionary@),
        ensures
            same_model(final(self)@, stream_effect(old(self)@, stream.dictionary@, stream.data@).0),
            match stream_effect(old(self)@, stream.dictionary@, stream.data@).1 {
                Some(e) => r == Err::<(), XrefError>(e),
                None => r is Ok,
            },
    {
        let w = read_widths(&stream.dictionary)?;
        let index = read_index(&stream.dictionary, self.size)?;
        let es = w[0] + w[1] + w[2];
        self.read_pairs(w.as_slice(), stream.data.as_slice(), es, &index)
    }

    /// Reads the entries of the object ranges `index`, one range after the other.
    fn read_pairs(&mut self, w: &[usize], data: &[u8], es: usize, index: &Vec<(usize, usize)>) -> (r:
        Result<(), XrefError>)
        requires
            w@.len() == 3,
            es == entry_size(w@),
            0 < es,
        ensures
            ({
                let f = fold_pairs(old(self)@.entries, w@, data@, es as int, index@);
                &&& same_model(final(self)@, with_entries(old(self)@, f.entries))
                &&& match f.error {
                    Some(e) => r == Err::<(), XrefError>(e),
                    None => r is Ok,
                }
            }),
    {
        let ghost m0 = self@.entries;
        let mut pos: usize = 0;
        let mut p: usize = 0;
        assert(index@.take(0) =~= Seq::<(usize, usize)>::empty());
        proof {
            reveal(fold_pairs);
        }
        let dlen = data.len();
        while p < index.len()
            invariant
                p <= index@.len(),
                dlen == data@.len(),
                w@.len() == 3,
                es == entry_size(w@),
                0 < es,
                pos <= data@.len(),
                m0 == old(self)@.entries,
                fold_pairs(m0, w@, data@, es as int, index@.take(p as int)).entries == self@.entries,
                fold_pairs(m0, w@, data@, es as int, index@.take(p as int)).pos == pos as int,
                fold_pairs(m0, w@, data@, es as int, index@.take(p as int)).error is None,
                same_model(self@, with_entries(old(self)@, self@.entries)),
            decreases index@.len() - p,
        {
            let (a, b) = index[p];
            proof {
                lemma_fold_pairs_step(m0, w@, data@, es as int, index@, p as int);
            }
            match self.read_range(w, data, es, pos, a, b) {
                Ok(next) => {
                    pos = next;
                },
                Err(e) => {
                    proof {
                        lemma_fold_pairs_error(m0, w@, data@, es as int, index@, p + 1);
                    }
                    return Err(e);
                },
            }
            p = p + 1;
        }
        assert(index@.take(p as int) =~= index@);
        Ok(())
    }

    /// Reads the entries of objects `a` to `b` from the stream entries of
    /// `es` bytes that start at `pos` in `data`; gives where reading stopped.
    fn read_range(&mut self, w: &[usize], data: &[u8], es: usize, pos: usize, a: usize, b: usize) -> (r:
        Result<usize, XrefError>)
        requires
            w@.len() == 3,
            es == entry_size(w@),
            0 < es,
            pos <= data@.len(),
        ensures
            ({
                let f = fold_range(
                    old(self)@.entries,
                    w@,
                    data@,
                    es as int,
                    pos as int,
                    a as int,
                    b as int,
                );
                &&& same_model(final(self)@, with_entries(old(self)@, f.entries))
                &&& match f.error {
                    Some(e) => r == Err::<usize, XrefError>(e),
                    None => r == Ok::<usize, XrefError>(f.pos as usize) && 0 <= f.pos <= data@.len(),
                }
            }),
    {
        if a > b {
            return Ok(pos);
        }
        let ghost m0 = self@.entries;
        let mut id = a;
        let mut at = pos;
        loop
            invariant
                a <= id <= b,
                w@.len() == 3,
                es == entry_size(w@),
                0 < es,
                at <= data@.len(),
                fold_range(m0, w@, data@, es as int, pos as int, a as int, b as int) == fold_range(
                    self@.entries,
                    w@,
                    data@,
                    es as int,
                    at as int,
                    id as int,
                    b as int,
                ),
                same_model(self@, with_entries(old(self)@, self@.entries)),
                m0 == old(self)@.entries,
            decreases b - id,
        {
            if data.len() - at < es {
                return Ok(at);
            }
            let chunk = vstd::slice::slice_subrange(data, at, at + es);
            let ghost before = self@.entries;
            self.parse_stream_entry(w, chunk, id)?;
            at = at + es;
            if id == b {
                assert(fold_range(self@.entries, w@, data@, es as int, at as int, b + 1, b as int).pos
                    == at);
                return Ok(at);
            }
            id = id + 1;
        }
    }

    /// Reads a cross-reference stream: its dictionary as a trailer, then
    /// its entries.
    pub fn parse_xref_stream(&mut self, stream: Stream) -> (r: Result<XrefMetadata, XrefError>)
        requires
            widths_fit(stream.dictionary@),
        ensures
            match spec_xref_data(stream.dictionary@) {
                Err(e) => r == Err::<XrefMetadata, XrefError>(e) && same_model(final(self)@, old(self)@),
                Ok(t) => {
                    let (m2, err) = stream_effect(
                        with_trailer(old(self)@, t),
                        stream.dictionary@,
                        stream.data@,
                    );
                    &&& same_model(final(self)@, m2)
                    &&& match err {
                        Some(e) => r == Err::<XrefMetadata, XrefError>(e),
                        None => r matches Ok(m) && metadata_view(m) == trailer_metadata(
                            t,
                            old(self)@.version,
                        ),
                    }
                },
            },
    {
        let metadata = self.get_xref_data(&stream.dictionary)?;
        self.extract_xref_stream_data(stream)?;
        Ok(metadata)
    }

    /// Reads the cross-reference data at `offset`: a table and its trailer,
    /// or a cross-reference stream (possibly as an indirect object), whose
    /// data is decoded first.
    #[verifier::rlimit(60)]
    pub fn read_table(&mut self, input: &[u8], offset: u64) -> (r: Result<XrefMetadata, XrefError>)
        requires
            table_readable(input@, offset as int),
        ensures
            same_model(
                final(self)@,
                table_read(old(self)@, input@.subrange(offset as int, input@.len() as int), offset as usize).0,
            ),
            outcome_agrees(
                r,
                table_read(old(self)@, input@.subrange(offset as int, input@.len() as int), offset as usize).1,
            ),
    {
        let start = offset as usize;
        let rest = vstd::slice::slice_subrange(input, start, input.len());
        let (remained, data) = match read_xref(rest) {
            Ok(v) => v,
            Err(_) => {
                return Err(XrefError::ParseFile { section: FileSection::Xref, offset: start });
            },
        };
        match data {
            XrefObject::Table(sections) => {
                self.parse_xref_table(sections)?;
                self.parse_trailer(remained)
            },
            XrefObject::ObjectStream(stream) => self.read_stream(stream),
            XrefObject::IndirectObjectStream(indirect_object) => {
                let stream = match indirect_object.object.as_stream() {
                    Ok(st) => st.copy(),
                    Err(e) => {
                        return Err(XrefError::InvalidStream(e));
                    },
                };
                self.read_stream(stream)
            },
        }
    }

    /// Decodes a cross-reference stream and reads it.
    fn read_stream(&mut self, stream: Stream) -> (r: Result<XrefMetadata, XrefError>)
        requires
            widths_fit(stream.dictionary@),
        ensures
            same_model(final(self)@, stream_read(old(self)@, stream.dictionary@, stream.data@).0),
            outcome_agrees(r, stream_read(old(self)@, stream.dictionary@, stream.data@).1),
    {
        let mut stream = stream;
        match stream.process_filters() {
            Ok(()) => {},
            Err(e) => {
                return Err(XrefError::StreamProcessing(e));
            },
        }
        self.parse_xref_stream(stream)
    }

    /// Reads the next earlier cross-reference data: at `XRefStm`, else at
    /// `Prev`.
    pub fn read_additional_table(&mut self, input: &[u8]) -> (r: Result<(), XrefError>)
        requires
            match (if old(self)@.xref_stm is Some { old(self)@.xref_stm } else { old(self)@.prev }) {
                Some(o) => table_readable(input@, o as int),
                None => true,
            },
        ensures
            match (if old(self)@.xref_stm is Some { old(self)@.xref_stm } else { old(self)@.prev }) {
                None => r == Err::<(), XrefError>(XrefError::NoXRefAdditionalSources) && same_model(
                    final(self)@,
                    old(self)@,
                ),
                Some(o) => {
                    let (m, out) = table_read(
                        old(self)@,
                        input@.subrange(o as int, input@.len() as int),
                        o as usize,
                    );
                    &&& same_model(final(self)@, m)
                    &&& match out {
                        TableOutcome::Meta(_) => r is Ok,
                        TableOutcome::Fail(e) => r == Err::<(), XrefError>(e),
                        TableOutcome::StreamFail => r matches Err(XrefError::StreamProcessing(_)),
                    }
                },
            },
    {
        let offset = match self.xref_stm {
            Some(o) => o,
            None => match self.prev {
                Some(o) => o,
                None => {
                    return Err(XrefError::NoXRefAdditionalSources);
                },
            },
        };
        self.read_table(input, offset)?;
        Ok(())
    }

    /// Reads the version in the file header, then the `startxref` pointer,
    /// which is looked for in the last `digits(filesize) + 23` bytes.
    pub fn read_startxref(&mut self, input: &[u8], filesize: usize) -> (r: Result<u64, XrefError>)
        requires
            startxref_window(filesize as nat) <= filesize,
            filesize - startxref_window(filesize as nat) <= input@.len(),
        ensures
            match spec_header_version(input@) {
                None => r == Err::<u64, XrefError>(
                    XrefError::ParseFile { section: FileSection::Version, offset: 0 },
                ) && same_model(final(self)@, old(self)@),
                Some(vb) => if !valid_utf8(vb) {
                    r matches Err(XrefError::InvalidVersion(VersionError::InvalidBytes(_)))
                        && same_model(final(self)@, old(self)@)
                } else {
                    match version_of(decode_utf8(vb)) {
                        None => r matches Err(XrefError::InvalidVersion(VersionError::UnknownVersion(_)))
                            && same_model(final(self)@, old(self)@),
                        Some(v) => {
                            let start = filesize - startxref_window(filesize as nat);
                            &&& same_model(final(self)@, with_version(old(self)@, v))
                            &&& match spec_startxref(input@.subrange(start, input@.len() as int)) {
                                Outcome::Parsed(off, _) => r == Ok::<u64, XrefError>(off as u64),
                                _ => r == Err::<u64, XrefError>(
                                    XrefError::ParseFile {
                                        section: FileSection::Startxref,
                                        offset: start as usize,
                                    },
                                ),
                            }
                        },
                    }
                },
            },
    {
        let version = match read_version(input) {
            Ok((_, v)) => v,
            Err(_) => {
                return Err(XrefError::ParseFile { section: FileSection::Version, offset: 0 });
            },
        };
        self.version = match Version::from_bytes(version) {
            Ok(v) => v,
            Err(e) => {
                return Err(XrefError::InvalidVersion(e));
            },
        };
        let window = if filesize == 0 {
            23
        } else {
            decimal_digits(filesize) + 23
        };
        let start = filesize - window;
        match read_startxref(vstd::slice::slice_subrange(input, start, input.len())) {
            Ok((_, offset)) => Ok(offset),
            Err(_) => Err(XrefError::ParseFile { section: FileSection::Startxref, offset: start }),
        }
    }

    /// Reads the section that the last trailer names by `Prev`, if any.
    pub fn read_prev_table(&mut self, input: &[u8]) -> (r: Result<(), XrefError>)
        requires
            old(self)@.prev matches Some(o) ==> table_readable(input@, o as int),
        ensures
            match old(self)@.prev {
                None => r is Ok && same_model(final(self)@, old(self)@),
                Some(o) => {
                    let (m, out) = table_read(
                        old(self)@,
                        input@.subrange(o as int, input@.len() as int),
                        o as usize,
                    );
                    &&& same_model(final(self)@, m)
                    &&& match out {
                        TableOutcome::Meta(_) => r is Ok,
                        TableOutcome::Fail(e) => r == Err::<(), XrefError>(e),
                        TableOutcome::StreamFail => r matches Err(XrefError::StreamProcessing(_)),
                    }
                },
            },
            keeps(old(self)@.entries, final(self)@.entries),
    {
        proof {
            if let Some(o) = self@.prev {
                lemma_table_read_keeps(self@, input@.subrange(o as int, input@.len() as int), o as usize);
            }
        }
        match self.prev {
            Some(o) => {
                self.read_table(input, o)?;
                Ok(())
            },
            None => Ok(()),
        }
    }

    /// Reads the `startxref` pointer, then the cross-reference section that
    /// it points to.
    pub fn read(&mut self, input: &[u8], filesize: usize) -> (r: Result<XrefMetadata, XrefError>)
        requires
            startxref_window(filesize as nat) <= filesize,
            filesize - startxref_window(filesize as nat) <= input@.len(),
            spec_startxref(
                input@.subrange(filesize - startxref_window(filesize as nat), input@.len() as int),
            ) matches Outcome::Parsed(off, _) ==> table_readable(input@, off),
        ensures
            match spec_header_version(input@) {
                None => r == Err::<XrefMetadata, XrefError>(
                    XrefError::ParseFile { section: FileSection::Version, offset: 0 },
                ) && same_model(final(self)@, old(self)@),
                Some(vb) => if !valid_utf8(vb) {
                    r matches Err(XrefError::InvalidVersion(VersionError::InvalidBytes(_)))
                        && same_model(final(self)@, old(self)@)
                } else {
                    match version_of(decode_utf8(vb)) {
                        None => r matches Err(XrefError::InvalidVersion(VersionError::UnknownVersion(_)))
                            && same_model(final(self)@, old(self)@),
                        Some(v) => {
                            let start = filesize - startxref_window(filesize as nat);
                            match spec_startxref(input@.subrange(start, input@.len() as int)) {
                                Outcome::Parsed(off, _) => {
                                    let (m, out) = table_read(
                                        with_version(old(self)@, v),
                                        input@.subrange(off, input@.len() as int),
                                        off as usize,
                                    );
                                    same_model(final(self)@, m) && outcome_agrees(r, out)
                                },
                                _ => r == Err::<XrefMetadata, XrefError>(
                                    XrefError::ParseFile {
                                        section: FileSection::Startxref,
                                        offset: start as usize,
                                    },
                                ) && same_model(final(self)@, with_version(old(self)@, v)),
                            }
                        },
                    }
                },
            },
    {
        let ghost before = self@;
        let offset = self.read_startxref(input, filesize)?;
        let ghost mid = self@;
        let m = self.read_table(input, offset)?;
        assert(same_model(mid, with_version(before, mid.version)));
        Ok(m)
    }
}

} // verus!
