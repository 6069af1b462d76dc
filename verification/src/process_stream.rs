//! Reading a stream object on its own: its dictionary records, with
//! `Length` and `Filter` taken out, and its data decoded by the filters in
//! the order they are named.

use vstd::prelude::*;

use crate::parser::object::{spec_stream, stream, stream_parts};
use crate::parser::outcome::Outcome;
use crate::types::object::{integer_of, lemma_records_view, records_view, Object, ObjectKind, ObjectModel};
use crate::types::stream::{
    filter_view, filters_view, lemma_filters_view, process_filter, spec_filter, zlib_decode,
    zlib_inflate, FilterFailure, FilterModel, StreamError, StreamFilterType,
};

verus! {

/// Why a stream could not be read.
#[derive(Debug, PartialEq)]
pub enum ProcessStreamError {
    /// The input does not start with a stream object.
    Parser,
    /// `Length` is not an integer, or `Filter` neither a name nor an array.
    InvalidObjectType { expected: ObjectKind, got: Object },
    /// A filter other than `FlateDecode` is named.
    InvalidStreamFilterName(String),
    /// The data is to be decompressed but no `Length` is given.
    InvalidStreamLength,
    /// The data is not a valid zlib stream.
    Decompression,
}

/// Why the records of a stream dictionary could not be read.
pub enum RecordFailure {
    Length(ObjectModel),
    Filter(FilterFailure),
}

/// Why the data could not be decoded.
pub enum DecodeFailure {
    NoLength,
    Decompression,
}

/// What the records `rs` give, read in order: the `Length` (when it is an
/// integer), the filter, and the other records; the first record of the
/// wrong kind fails.
pub open spec fn spec_records(rs: Seq<(Seq<char>, ObjectModel)>) -> Result<
    (Option<int>, FilterModel, Seq<(Seq<char>, ObjectModel)>),
    RecordFailure,
>
    decreases rs.len(),
{
    if rs.len() == 0 {
        Ok((None, FilterModel::Plain, Seq::empty()))
    } else {
        match spec_records(rs.drop_last()) {
            Err(f) => Err(f),
            Ok((len, f, rest)) => {
                let (k, v) = rs.last();
                if k == "Length"@ {
                    match integer_of(v) {
                        Some(i) => Ok((Some(i), f, rest)),
                        None => Err(RecordFailure::Length(v)),
                    }
                } else if k == "Filter"@ {
                    match spec_filter(v) {
                        Ok(nf) => Ok((len, nf, rest)),
                        Err(x) => Err(RecordFailure::Filter(x)),
                    }
                } else {
                    Ok((len, f, rest.push((k, v))))
                }
            },
        }
    }
}

/// The data decoded by the filter `f`, a pipeline in the order given;
/// decompressing needs a length.
pub open spec fn spec_decode_in_order(data: Seq<u8>, f: FilterModel, has_length: bool) -> Result<
    Seq<u8>,
    DecodeFailure,
>
    decreases f,
{
    match f {
        FilterModel::Plain => Ok(data),
        FilterModel::Flate => if !has_length {
            Err(DecodeFailure::NoLength)
        } else {
            match zlib_inflate(data) {
                Some(out) => Ok(out),
                None => Err(DecodeFailure::Decompression),
            }
        },
        FilterModel::Pipeline(fs) => spec_fold_in_order(data, fs, has_length),
    }
}

/// The data decoded by the filters `fs`, the first one first.
pub open spec fn spec_fold_in_order(data: Seq<u8>, fs: Seq<FilterModel>, has_length: bool) -> Result<
    Seq<u8>,
    DecodeFailure,
>
    decreases fs,
{
    if fs.len() == 0 {
        Ok(data)
    } else {
        match spec_decode_in_order(data, fs[0], has_length) {
            Ok(d) => spec_fold_in_order(d, fs.drop_first(), has_length),
            Err(e) => Err(e),
        }
    }
}

/// An error agrees with a failure to read the records.
pub open spec fn record_error_agrees(e: ProcessStreamError, f: RecordFailure) -> bool {
    match f {
        RecordFailure::Length(v) => e matches ProcessStreamError::InvalidObjectType { expected, got }
            && expected == ObjectKind::Integer && got@ == v,
        RecordFailure::Filter(FilterFailure::UnknownName(n)) => e matches ProcessStreamError::InvalidStreamFilterName(
            m,
        ) && m@ == n,
        RecordFailure::Filter(FilterFailure::NotAFilter(o)) => e matches ProcessStreamError::InvalidObjectType {
            expected,
            got,
        } && expected == ObjectKind::Name && got@ == o,
    }
}

/// An error agrees with a failure to decode.
pub open spec fn decode_error_agrees(e: ProcessStreamError, f: DecodeFailure) -> bool {
    match f {
        DecodeFailure::NoLength => e is InvalidStreamLength,
        DecodeFailure::Decompression => e is Decompression,
    }
}

/// Decodes `data` with `filter`, a pipeline in the order given.
fn decode_in_order(data: Vec<u8>, filter: &StreamFilterType, has_length: bool) -> (r: Result<
    Vec<u8>,
    ProcessStreamError,
>)
    ensures
        match spec_decode_in_order(data@, filter_view(*filter), has_length) {
            Ok(out) => r matches Ok(v) && v@ == out,
            Err(f) => r matches Err(e) && decode_error_agrees(e, f),
        },
    decreases filter,
{
    match filter {
        StreamFilterType::NoFilter => Ok(data),
        StreamFilterType::FlateDecode => {
            if !has_length {
                return Err(ProcessStreamError::InvalidStreamLength);
            }
            match zlib_decode(data.as_slice()) {
                Some(out) => Ok(out),
                None => Err(ProcessStreamError::Decompression),
            }
        },
        StreamFilterType::PipeLine(filters) => {
            proof {
                lemma_filters_view(filters@);
            }
            let ghost fv = filters_view(filters@);
            let mut cur = data;
            let mut i: usize = 0;
            assert(fv.skip(0) =~= fv);
            while i < filters.len()
                invariant
                    i <= filters@.len(),
                    fv == filters_view(filters@),
                    fv.len() == filters@.len(),
                    forall|j: int| 0 <= j < filters@.len() ==> #[trigger] fv[j] == filter_view(filters@[j]),
                    *filter == StreamFilterType::PipeLine(*filters),
                    spec_decode_in_order(data@, filter_view(*filter), has_length) == spec_fold_in_order(
                        cur@,
                        fv.skip(i as int),
                        has_length,
                    ),
                decreases filters@.len() - i,
            {
                assert(decreases_to!(filters => filters@[i as int]));
                assert(fv.skip(i as int)[0] == fv[i as int]);
                assert(fv.skip(i as int).drop_first() =~= fv.skip(i + 1));
                cur = decode_in_order(cur, &filters[i], has_length)?;
                i = i + 1;
            }
            Ok(cur)
        },
    }
}

/// Reads a stream object at the start of `input`: the records of its
/// dictionary other than `Length` and `Filter`, and its data decoded by the
/// filters that `Filter` names, in the order named. Decompressing needs a
/// `Length`, which must be an integer. The input must not end inside a
/// comment nor hold a literal string that is not UTF-8 where the parse
/// reaches them.
pub fn process_stream(input: &[u8]) -> (r: Result<(Vec<(String, Object)>, Vec<u8>), ProcessStreamError>)
    requires
        !(spec_stream(input@, 0) is Incomplete),
        !(spec_stream(input@, 0) is Panics),
    ensures
        match spec_stream(input@, 0) {
            Outcome::Parsed(o, _) => match spec_records(stream_parts(o).0) {
                Err(f) => r matches Err(e) && record_error_agrees(e, f),
                Ok((len, f, rest)) => match spec_decode_in_order(stream_parts(o).1, f, len is Some) {
                    Ok(out) => r matches Ok((rs, data)) && records_view(rs@) == rest && data@ == out,
                    Err(x) => r matches Err(e) && decode_error_agrees(e, x),
                },
            },
            _ => r == Err::<(Vec<(String, Object)>, Vec<u8>), ProcessStreamError>(
                ProcessStreamError::Parser,
            ),
        },
{
    let st = match stream(input) {
        Ok((_, st)) => st,
        Err(_) => {
            return Err(ProcessStreamError::Parser);
        },
    };
    let records = &st.dictionary.records;
    proof {
        lemma_records_view(records@);
    }
    let ghost all = records_view(records@);
    let mut has_length = false;
    let mut filter = StreamFilterType::NoFilter;
    let mut rest: Vec<(String, Object)> = Vec::new();
    let mut i: usize = 0;
    assert(all.take(0) =~= Seq::<(Seq<char>, ObjectModel)>::empty());
    assert(records_view(rest@) =~= Seq::<(Seq<char>, ObjectModel)>::empty());
    while i < records.len()
        invariant
            i <= records@.len(),
            all == records_view(records@),
            all.len() == records@.len(),
            spec_stream(input@, 0) matches Outcome::Parsed(o, _) && stream_parts(o).0 == all,
            forall|j: int| 0 <= j < records@.len() ==> #[trigger] all[j] == (records@[j].0@, records@[j].1@),
            spec_records(all.take(i as int)) matches Ok((len, f, rs)) && (len is Some) == has_length
                && f == filter_view(filter) && rs == records_view(rest@),
        decreases records@.len() - i,
    {
        assert(all.take(i + 1).drop_last() =~= all.take(i as int));
        assert(all.take(i + 1).last() == all[i as int]);
        let (key, value) = &records[i];
        assert(all[i as int] == (key@, value@));
        if crate::text::same_text(key.as_str(), "Length") {
            match value {
                Object::Numeric(crate::types::numeric::Numeric::Integer(_)) => {
                    has_length = true;
                },
                _ => {
                    proof {
                        lemma_records_error(all, i + 1);
                    }
                    return Err(
                        ProcessStreamError::InvalidObjectType {
                            expected: ObjectKind::Integer,
                            got: value.copy(),
                        },
                    );
                },
            }
        } else if crate::text::same_text(key.as_str(), "Filter") {
            match process_filter(value) {
                Ok(f) => {
                    filter = f;
                },
                Err(e) => {
                    proof {
                        lemma_records_error(all, i + 1);
                    }
                    return Err(
                        match e {
                            StreamError::InvalidStreamFilter(n) => ProcessStreamError::InvalidStreamFilterName(
                                n,
                            ),
                            StreamError::InvalidStreamFiltersObject(o) => ProcessStreamError::InvalidObjectType {
                                expected: ObjectKind::Name,
                                got: o,
                            },
                            _ => ProcessStreamError::Parser,
                        },
                    );
                },
            }
        } else {
            let ghost before = rest@;
            rest.push((key.clone(), value.copy()));
            assert(rest@.drop_last() =~= before);
        }
        i = i + 1;
    }
    assert(all.take(i as int) =~= all);
    let data = decode_in_order(st.data, &filter, has_length)?;
    Ok((rest, data))
}

/// A failure among the first `k` records is the failure of them all.
proof fn lemma_records_error(rs: Seq<(Seq<char>, ObjectModel)>, k: int)
    requires
        0 <= k <= rs.len(),
        spec_records(rs.take(k)) is Err,
    ensures
        spec_records(rs) == spec_records(rs.take(k)),
    decreases rs.len() - k,
{
    if k < rs.len() {
        assert(rs.take(k + 1).drop_last() =~= rs.take(k));
        lemma_records_error(rs, k + 1);
    } else {
        assert(rs.take(k) =~= rs);
    }
}

} // verus!
