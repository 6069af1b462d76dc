use std::io::Read;

use vstd::prelude::*;

use crate::types::dictionary::{dict_get, Dictionary};
use crate::types::object::{integer_of, Object, ObjectError, ObjectModel};

verus! {

/// A stream object: its dictionary and the bytes between `stream` and
/// `endstream`.
#[derive(Debug, PartialEq)]
pub struct Stream {
    pub dictionary: Dictionary,
    pub data: Vec<u8>,
}

impl View for Stream {
    type V = (Seq<(Seq<char>, ObjectModel)>, Seq<u8>);

    open spec fn view(&self) -> Self::V {
        (self.dictionary@, self.data@)
    }
}

/// What zlib decompression of `data` gives: the decompressed bytes, or
/// `None` when `data` is not a valid zlib stream.
pub uninterp spec fn zlib_inflate(data: Seq<u8>) -> Option<Seq<u8>>;

/// Decompresses `data` with `flate2::read::ZlibDecoder` and `read_to_end`.
/// The outcome depends on the bytes alone; it is named [`zlib_inflate`] and
/// nothing more is claimed of it.
#[verifier::external_body]
pub(crate) fn zlib_decode(data: &[u8]) -> (r: Option<Vec<u8>>)
    ensures
        match zlib_inflate(data@) {
            Some(out) => r matches Some(v) && v@ == out,
            None => r is None,
        },
{
    let mut decoder = flate2::read::ZlibDecoder::new(data);
    let mut out = Vec::new();
    match decoder.read_to_end(&mut out) {
        Ok(_) => Some(out),
        Err(_) => None,
    }
}

/// Why the data of a stream could not be decoded.
#[derive(Debug, PartialEq)]
pub enum StreamError {
    /// `Length` is not an integer that fits in `usize`.
    UnexpectedDictionaryValue(ObjectError),
    /// There is no `Length`.
    NoStreamLength,
    /// A filter other than `FlateDecode` is named.
    InvalidStreamFilter(String),
    /// `Filter` holds an object that is neither a name nor an array.
    InvalidStreamFiltersObject(Object),
    /// The data is not a valid zlib stream.
    Decompression,
}

/// A filter: none, zlib decompression, or several.
pub enum FilterModel {
    Plain,
    Flate,
    Pipeline(Seq<FilterModel>),
}

/// Why a `Filter` entry names no filter.
pub enum FilterFailure {
    UnknownName(Seq<char>),
    NotAFilter(ObjectModel),
}

pub open spec fn flate_decode_name() -> Seq<char> {
    seq!['F', 'l', 'a', 't', 'e', 'D', 'e', 'c', 'o', 'd', 'e']
}

/// The filter that a `Filter` entry names: `/FlateDecode`, or an array of
/// filters; the first element that names none gives the failure.
pub open spec fn spec_filter(o: ObjectModel) -> Result<FilterModel, FilterFailure>
    decreases o,
{
    match o {
        ObjectModel::Name(n) => if n == flate_decode_name() {
            Ok(FilterModel::Flate)
        } else {
            Err(FilterFailure::UnknownName(n))
        },
        ObjectModel::Array(items) => match spec_filters(items) {
            Ok(fs) => Ok(FilterModel::Pipeline(fs)),
            Err(e) => Err(e),
        },
        _ => Err(FilterFailure::NotAFilter(o)),
    }
}

/// The filters that the elements of an array name.
pub open spec fn spec_filters(items: Seq<ObjectModel>) -> Result<Seq<FilterModel>, FilterFailure>
    decreases items,
{
    if items.len() == 0 {
        Ok(Seq::empty())
    } else {
        match spec_filters(items.drop_last()) {
            Ok(fs) => match spec_filter(items.last()) {
                Ok(f) => Ok(fs.push(f)),
                Err(e) => Err(e),
            },
            Err(e) => Err(e),
        }
    }
}

/// The data decoded by a filter; the filters of a pipeline are applied
/// last first.
pub open spec fn spec_apply(data: Seq<u8>, f: FilterModel) -> Option<Seq<u8>>
    decreases f,
{
    match f {
        FilterModel::Plain => Some(data),
        FilterModel::Flate => zlib_inflate(data),
        FilterModel::Pipeline(fs) => spec_apply_all(data, fs),
    }
}

/// The data decoded by the filters `fs`, the last one first.
pub open spec fn spec_apply_all(data: Seq<u8>, fs: Seq<FilterModel>) -> Option<Seq<u8>>
    decreases fs,
{
    if fs.len() == 0 {
        Some(data)
    } else {
        match spec_apply(data, fs.last()) {
            Some(d) => spec_apply_all(d, fs.drop_last()),
            None => None,
        }
    }
}

/// A filter of a stream: none, zlib decompression, or several in turn.
#[derive(Debug)]
pub enum StreamFilterType {
    NoFilter,
    FlateDecode,
    PipeLine(Vec<StreamFilterType>),
}

pub open spec fn filter_view(f: StreamFilterType) -> FilterModel
    decreases f,
{
    match f {
        StreamFilterType::NoFilter => FilterModel::Plain,
        StreamFilterType::FlateDecode => FilterModel::Flate,
        StreamFilterType::PipeLine(v) => FilterModel::Pipeline(filters_view(v@)),
    }
}

pub open spec fn filters_view(v: Seq<StreamFilterType>) -> Seq<FilterModel>
    decreases v,
{
    if v.len() == 0 {
        Seq::empty()
    } else {
        filters_view(v.drop_last()).push(filter_view(v.last()))
    }
}

pub proof fn lemma_filters_view(v: Seq<StreamFilterType>)
    ensures
        filters_view(v).len() == v.len(),
        forall|i: int| 0 <= i < v.len() ==> #[trigger] filters_view(v)[i] == filter_view(v[i]),
    decreases v.len(),
{
    if v.len() > 0 {
        lemma_filters_view(v.drop_last());
    }
}

/// A failure of the spec agrees with an error.
pub open spec fn failure_agrees(e: StreamError, f: FilterFailure) -> bool {
    match f {
        FilterFailure::UnknownName(n) => e matches StreamError::InvalidStreamFilter(m) && m@ == n,
        FilterFailure::NotAFilter(o) => e matches StreamError::InvalidStreamFiltersObject(x) && x@
            == o,
    }
}

/// Reads the filter that a `Filter` entry names.
pub fn process_filter(filter: &Object) -> (r: Result<StreamFilterType, StreamError>)
    ensures
        match spec_filter(filter@) {
            Ok(f) => r matches Ok(t) && filter_view(t) == f,
            Err(x) => r matches Err(e) && failure_agrees(e, x),
        },
    decreases filter,
{
    match filter {
        Object::Name(name) => {
            let flate = "FlateDecode";
            proof {
                reveal_strlit("FlateDecode");
                assert(flate@ =~= flate_decode_name());
            }
            if crate::text::same_text(name.as_str(), flate) {
                Ok(StreamFilterType::FlateDecode)
            } else {
                Err(StreamError::InvalidStreamFilter(name.clone()))
            }
        },
        Object::Array(pipeline) => {
            proof {
                crate::types::object::lemma_objects_view(pipeline.data@);
                assert(pipeline@ =~= objects_view_of(pipeline.data@));
            }
            match process_filter_list(&pipeline.data) {
                Ok(out) => Ok(StreamFilterType::PipeLine(out)),
                Err(e) => Err(e),
            }
        },
        _ => Err(StreamError::InvalidStreamFiltersObject(filter.copy())),
    }
}

pub open spec fn objects_view_of(v: Seq<Object>) -> Seq<ObjectModel> {
    crate::types::object::objects_view(v)
}

/// Reads the filters that the elements of `items` name.
fn process_filter_list(items: &Vec<Object>) -> (r: Result<Vec<StreamFilterType>, StreamError>)
    ensures
        match spec_filters(objects_view_of(items@)) {
            Ok(fs) => r matches Ok(v) && filters_view(v@) == fs,
            Err(x) => r matches Err(e) && failure_agrees(e, x),
        },
    decreases items,
{
    let ghost all = objects_view_of(items@);
    proof {
        crate::types::object::lemma_objects_view(items@);
    }
    let mut out: Vec<StreamFilterType> = Vec::new();
    let mut i: usize = 0;
    assert(all.take(0) =~= Seq::<ObjectModel>::empty());
    assert(filters_view(out@) =~= Seq::<FilterModel>::empty());
    while i < items.len()
        invariant
            i <= items@.len(),
            all == objects_view_of(items@),
            all.len() == items@.len(),
            forall|j: int| 0 <= j < items@.len() ==> #[trigger] all[j] == items@[j]@,
            spec_filters(all.take(i as int)) == Ok::<Seq<FilterModel>, FilterFailure>(
                filters_view(out@),
            ),
        decreases items@.len() - i,
    {
        assert(all.take(i + 1).drop_last() =~= all.take(i as int));
        assert(all.take(i + 1).last() == all[i as int]);
        assert(decreases_to!(items => items@[i as int]));
        match process_filter(&items[i]) {
            Ok(f) => {
                let ghost before = out@;
                out.push(f);
                assert(out@.drop_last() =~= before);
            },
            Err(e) => {
                assert(spec_filters(all.take(i + 1)) is Err);
                proof {
                    lemma_filters_prefix_err(all, i + 1);
                }
                return Err(e);
            },
        }
        i = i + 1;
    }
    assert(all.take(i as int) =~= all);
    Ok(out)
}

/// A failure among the first `k` elements is the failure of them all.
proof fn lemma_filters_prefix_err(items: Seq<ObjectModel>, k: int)
    requires
        0 <= k <= items.len(),
        spec_filters(items.take(k)) is Err,
    ensures
        spec_filters(items) == spec_filters(items.take(k)),
    decreases items.len() - k,
{
    if k < items.len() {
        assert(items.take(k + 1).drop_last() =~= items.take(k));
        lemma_filters_prefix_err(items, k + 1);
    } else {
        assert(items.take(k) =~= items);
    }
}

/// Decodes `data` with `filter`. `content_length`, the length that the
/// stream dictionary gives, does not change the result.
pub fn apply_filter(data: &[u8], filter: &StreamFilterType, content_length: usize) -> (r: Option<
    Vec<u8>,
>)
    ensures
        match spec_apply(data@, filter_view(*filter)) {
            Some(out) => r matches Some(v) && v@ == out,
            None => r is None,
        },
    decreases filter,
{
    match filter {
        StreamFilterType::NoFilter => Some(vstd::slice::slice_to_vec(data)),
        StreamFilterType::FlateDecode => zlib_decode(data),
        StreamFilterType::PipeLine(filters) => apply_pipeline(data, filters, content_length),
    }
}

/// Decodes `data` with the filters `filters`, the last one first.
fn apply_pipeline(data: &[u8], filters: &Vec<StreamFilterType>, content_length: usize) -> (r: Option<
    Vec<u8>,
>)
    ensures
        match spec_apply_all(data@, filters_view(filters@)) {
            Some(out) => r matches Some(v) && v@ == out,
            None => r is None,
        },
    decreases filters,
{
    proof {
        lemma_filters_view(filters@);
    }
    let mut cur = vstd::slice::slice_to_vec(data);
    let mut k = filters.len();
    assert(filters_view(filters@).take(k as int) =~= filters_view(filters@));
    while k > 0
        invariant
            k <= filters@.len(),
            filters_view(filters@).len() == filters@.len(),
            forall|i: int|
                0 <= i < filters@.len() ==> #[trigger] filters_view(filters@)[i] == filter_view(
                    filters@[i],
                ),
            spec_apply_all(data@, filters_view(filters@)) == spec_apply_all(
                cur@,
                filters_view(filters@).take(k as int),
            ),
        decreases k,
    {
        assert(decreases_to!(filters => filters@[k - 1]));
        let ghost fs = filters_view(filters@).take(k as int);
        assert(fs.drop_last() =~= filters_view(filters@).take(k - 1));
        match apply_filter(cur.as_slice(), &filters[k - 1], content_length) {
            Some(next) => {
                cur = next;
            },
            None => {
                return None;
            },
        }
        k = k - 1;
    }
    assert(filters_view(filters@).take(0) =~= Seq::<FilterModel>::empty());
    Some(cur)
}

/// The data of a stream with dictionary `d` once decoded by the filters it
/// names, or `None` when it gives no usable `Length`, names no filter, or
/// the data does not decode.
pub open spec fn spec_decoded(d: Seq<(Seq<char>, ObjectModel)>, data: Seq<u8>) -> Option<Seq<u8>> {
    match dict_get(d, seq!['L', 'e', 'n', 'g', 't', 'h']) {
        None => None,
        Some(len) => if integer_of(len) is Some && 0 <= integer_of(len)->0 <= usize::MAX {
            match dict_get(d, seq!['F', 'i', 'l', 't', 'e', 'r']) {
                None => Some(data),
                Some(fo) => match spec_filter(fo) {
                    Err(_) => None,
                    Ok(f) => spec_apply(data, f),
                },
            }
        } else {
            None
        },
    }
}

impl Stream {
    /// Decodes the stream's data with the filters that its dictionary names,
    /// after checking that it gives a `Length`; on an error the stream is
    /// left as it was.
    pub fn process_filters(&mut self) -> (r: Result<(), StreamError>)
        ensures
            match dict_get(old(self).dictionary@, seq!['L', 'e', 'n', 'g', 't', 'h']) {
                None => r matches Err(StreamError::NoStreamLength) && *final(self) == *old(self),
                Some(len) => if integer_of(len) is Some && 0 <= integer_of(len)->0 <= usize::MAX {
                    match dict_get(
                        old(self).dictionary@,
                        seq!['F', 'i', 'l', 't', 'e', 'r'],
                    ) {
                        None => r is Ok && final(self)@ == old(self)@,
                        Some(fo) => match spec_filter(fo) {
                            Err(x) => (r matches Err(e) && failure_agrees(e, x)) && *final(self)
                                == *old(self),
                            Ok(f) => match spec_apply(old(self).data@, f) {
                                Some(out) => r is Ok && final(self).dictionary == old(
                                    self,
                                ).dictionary && final(self).data@ == out,
                                None => r matches Err(StreamError::Decompression) && *final(self)
                                    == *old(self),
                            },
                        },
                    }
                } else {
                    r matches Err(StreamError::UnexpectedDictionaryValue(_)) && *final(self)
                        == *old(self)
                },
            },
            match spec_decoded(old(self).dictionary@, old(self).data@) {
                Some(out) => r is Ok && final(self).dictionary == old(self).dictionary
                    && final(self).data@ == out,
                None => r is Err,
            },
    {
        let length_key = "Length";
        let filter_key = "Filter";
        proof {
            reveal_strlit("Length");
            reveal_strlit("Filter");
            assert(length_key@ =~= seq!['L', 'e', 'n', 'g', 't', 'h']);
            assert(filter_key@ =~= seq!['F', 'i', 'l', 't', 'e', 'r']);
        }
        let content_length = match self.dictionary.get(length_key) {
            None => {
                return Err(StreamError::NoStreamLength);
            },
            Some(o) => match o.as_usize() {
                Ok(n) => n,
                Err(e) => {
                    return Err(StreamError::UnexpectedDictionaryValue(e));
                },
            },
        };
        let filter = match self.dictionary.get(filter_key) {
            Some(object) => process_filter(object)?,
            None => StreamFilterType::NoFilter,
        };
        match apply_filter(self.data.as_slice(), &filter, content_length) {
            Some(out) => {
                self.data = out;
                Ok(())
            },
            None => Err(StreamError::Decompression),
        }
    }
}

} // verus!
