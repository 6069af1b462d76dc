//! Object streams: several objects stored in the data of one stream, after
//! a header of object numbers and offsets.

use vstd::prelude::*;
use vstd::slice::slice_subrange;

use crate::parser::object::{object, read_object, spec_object};
use crate::parser::object_stream::{
    object_stream_header, pairs_view, read_object_stream_header, spec_object_stream_header,
};
use crate::parser::outcome::{Outcome, ParseError};
use crate::types::dictionary::Dictionary;
use crate::structures::xref::{spec_as_ref, spec_as_usize};
use crate::types::dictionary::dict_get;
use crate::types::indirect_object::IndirectReference;
use crate::types::object::{Object, ObjectError, ObjectModel};
use crate::types::stream::{spec_decoded, Stream, StreamError};

verus! {

/// One object of the stream: its number and where its text starts, counted
/// from the first object.
#[derive(Debug, Clone, Copy, PartialEq, Eq)]
struct Entry {
    _id: usize,
    offset: usize,
}

/// An object stream, its data decoded.
#[derive(Debug)]
pub struct ObjectStream {
    ids: Vec<Entry>,
    first_offset: usize,
    _extends: Option<IndirectReference>,
    data: Vec<u8>,
}

/// A field of the stream dictionary.
#[derive(Debug, Clone, Copy, PartialEq, Eq, Structural)]
pub enum ObjectStreamField {
    N,
    First,
    Extends,
}

/// Why a stream is not an object stream, or an object cannot be taken from it.
#[derive(Debug, PartialEq)]
pub enum ObjectStreamError {
    FiltersProcessing(StreamError),
    FieldNotFound { field: ObjectStreamField },
    InvalidField { field: ObjectStreamField, source: ObjectError },
    ParseIds,
    /// The stream holds no object with this index.
    IdNotFound { id: usize },
    ParseObject,
}

/// The value of an [`ObjectStream`]: the objects' numbers and offsets, where
/// the first object starts, the stream it extends, and the data.
pub struct ObjectStreamModel {
    pub ids: Seq<(int, int)>,
    pub first_offset: int,
    pub extends: Option<IndirectReference>,
    pub data: Seq<u8>,
}

impl View for ObjectStream {
    type V = ObjectStreamModel;

    closed spec fn view(&self) -> ObjectStreamModel {
        ObjectStreamModel {
            ids: self.ids@.map_values(|e: Entry| (e._id as int, e.offset as int)),
            first_offset: self.first_offset as int,
            extends: self._extends,
            data: self.data@,
        }
    }
}

pub open spec fn n_key() -> Seq<char> {
    seq!['N']
}

pub open spec fn first_key() -> Seq<char> {
    seq!['F', 'i', 'r', 's', 't']
}

pub open spec fn extends_key() -> Seq<char> {
    seq!['E', 'x', 't', 'e', 'n', 'd', 's']
}

/// A required integer entry of the stream dictionary.
pub open spec fn required_usize(d: Seq<(Seq<char>, ObjectModel)>, k: Seq<char>, f: ObjectStreamField) -> Result<usize, ObjectStreamError> {
    match dict_get(d, k) {
        None => Err(ObjectStreamError::FieldNotFound { field: f }),
        Some(o) => match spec_as_usize(o) {
            Ok(v) => Ok(v),
            Err(e) => Err(ObjectStreamError::InvalidField { field: f, source: e }),
        },
    }
}

/// What the dictionary of an object stream gives: `N`, `First`, `Extends`.
pub open spec fn spec_stream_fields(d: Seq<(Seq<char>, ObjectModel)>) -> Result<(usize, usize, Option<IndirectReference>), ObjectStreamError> {
    match required_usize(d, n_key(), ObjectStreamField::N) {
        Err(e) => Err(e),
        Ok(n) => match required_usize(d, first_key(), ObjectStreamField::First) {
            Err(e) => Err(e),
            Ok(first) => match dict_get(d, extends_key()) {
                None => Ok((n, first, None)),
                Some(o) => match spec_as_ref(o) {
                    Ok(r) => Ok((n, first, Some(r))),
                    Err(e) => Err(
                        ObjectStreamError::InvalidField { field: ObjectStreamField::Extends, source: e },
                    ),
                },
            },
        },
    }
}

/// The header of the decoded data can be read: `First` lies within the data
/// and the header does not end inside a comment.
pub open spec fn header_readable(d: Seq<(Seq<char>, ObjectModel)>, data: Seq<u8>) -> bool {
    spec_decoded(d, data) matches Some(decoded) ==> (spec_stream_fields(d) matches Ok((n, first, _))
        ==> first <= decoded.len() && !(spec_object_stream_header(decoded.take(first as int), n as nat) is Incomplete))
}

/// `r` is what reading an object stream with dictionary `d` and data
/// `data` gives.
pub open spec fn object_stream_read(
    d: Seq<(Seq<char>, ObjectModel)>,
    data: Seq<u8>,
    r: Result<ObjectStream, ObjectStreamError>,
) -> bool {
    match spec_decoded(d, data) {
        None => r matches Err(ObjectStreamError::FiltersProcessing(_)),
        Some(decoded) => match spec_stream_fields(d) {
            Err(e) => r == Err::<ObjectStream, ObjectStreamError>(e),
            Ok((n, first, extends)) => match spec_object_stream_header(
                decoded.take(first as int),
                n as nat,
            ) {
                Outcome::Parsed(pairs, _) => r matches Ok(os) && os@.ids == pairs && os@.first_offset
                    == first && os@.extends == extends && os@.data == decoded,
                _ => r == Err::<ObjectStream, ObjectStreamError>(ObjectStreamError::ParseIds),
            },
        },
    }
}

/// The `index`-th object of an object stream, when its text lies within the
/// data and can be read.
pub open spec fn object_at_index(s: ObjectStreamModel, index: int) -> Option<ObjectModel> {
    if 0 <= index < s.ids.len() && s.first_offset + s.ids[index].1 <= s.data.len() {
        match spec_object(s.data.skip(s.first_offset + s.ids[index].1), 0) {
            Outcome::Parsed(v, _) => Some(v),
            _ => None,
        }
    } else {
        None
    }
}

/// Reads `N`, `First` and `Extends` from the dictionary of an object stream.
fn stream_fields(d: &Dictionary) -> (r: Result<(usize, usize, Option<IndirectReference>), ObjectStreamError>)
    ensures
        r == spec_stream_fields(d@),
{
    let n_name = "N";
    let first_name = "First";
    let extends_name = "Extends";
    proof {
        reveal_strlit("N");
        reveal_strlit("First");
        reveal_strlit("Extends");
        assert(n_name@ =~= n_key());
        assert(first_name@ =~= first_key());
        assert(extends_name@ =~= extends_key());
    }
    let n = match d.get(n_name) {
        None => {
            return Err(ObjectStreamError::FieldNotFound { field: ObjectStreamField::N });
        },
        Some(o) => match o.as_usize() {
            Ok(v) => v,
            Err(e) => {
                return Err(ObjectStreamError::InvalidField { field: ObjectStreamField::N, source: e });
            },
        },
    };
    let first = match d.get(first_name) {
        None => {
            return Err(ObjectStreamError::FieldNotFound { field: ObjectStreamField::First });
        },
        Some(o) => match o.as_usize() {
            Ok(v) => v,
            Err(e) => {
                return Err(
                    ObjectStreamError::InvalidField { field: ObjectStreamField::First, source: e },
                );
            },
        },
    };
    let extends = match d.get(extends_name) {
        None => None,
        Some(o) => match o.as_indirect_ref() {
            Ok(x) => Some(IndirectReference { id: x.id, gen_id: x.gen_id }),
            Err(e) => {
                return Err(
                    ObjectStreamError::InvalidField { field: ObjectStreamField::Extends, source: e },
                );
            },
        },
    };
    Ok((n, first, extends))
}

impl ObjectStream {
    /// Reads an object stream: decodes its data, reads `N`, `First` and
    /// `Extends`, then the header of `N` pairs before `First`.
    pub fn from_stream(stream: Stream) -> (r: Result<ObjectStream, ObjectStreamError>)
        requires
            header_readable(stream.dictionary@, stream.data@),
        ensures
            object_stream_read(stream.dictionary@, stream.data@, r),
    {
        let mut stream = stream;
        match stream.process_filters() {
            Ok(()) => {},
            Err(e) => {
                return Err(ObjectStreamError::FiltersProcessing(e));
            },
        }
        let (n, first, extends) = match stream_fields(&stream.dictionary) {
            Ok(v) => v,
            Err(e) => {
                return Err(e);
            },
        };
        let header = slice_subrange(stream.data.as_slice(), 0, first);
        assert(header@ =~= stream.data@.take(first as int));
        let pairs = match read_object_stream_header(header, n) {
            Ok(p) => p,
            Err(_) => {
                return Err(ObjectStreamError::ParseIds);
            },
        };
        let mut ids: Vec<Entry> = Vec::new();
        let mut i: usize = 0;
        while i < pairs.len()
            invariant
                i <= pairs@.len(),
                ids@.len() == i,
                forall|j: int|
                    0 <= j < i ==> #[trigger] ids@[j]._id == pairs@[j].0 && ids@[j].offset
                        == pairs@[j].1,
            decreases pairs@.len() - i,
        {
            let (id, offset) = pairs[i];
            ids.push(Entry { _id: id, offset });
            i = i + 1;
        }
        let os = ObjectStream { ids, first_offset: first, _extends: extends, data: stream.data };
        assert(os@.ids =~= pairs_view(pairs@));
        Ok(os)
    }

    /// The number of objects in the stream.
    pub fn len(&self) -> (r: usize)
        ensures
            r == self@.ids.len(),
    {
        self.ids.len()
    }

    /// Where the text of the `index`-th object starts in the data, when it
    /// lies within the data.
    pub fn object_start(&self, index: usize) -> (r: Option<usize>)
        requires
            index < self@.ids.len(),
        ensures
            match r {
                Some(p) => p == self@.first_offset + self@.ids[index as int].1 && p <= self@.data.len(),
                None => self@.first_offset + self@.ids[index as int].1 > self@.data.len(),
            },
    {
        let offset = self.ids[index].offset;
        if offset > self.data.len() || self.first_offset > self.data.len() - offset {
            None
        } else {
            Some(self.first_offset + offset)
        }
    }

    /// The `index`-th object of the stream: an error when the stream holds
    /// no object with that index, or when its text does not lie within the
    /// data or cannot be read. The text must not end inside a comment or
    /// hold a literal string whose text is not valid UTF-8.
    pub fn get_object_by_index(&self, index: usize) -> (r: Result<Object, ObjectStreamError>)
        requires
            index < self@.ids.len() && self@.first_offset + self@.ids[index as int].1 <= self@.data.len()
                ==> !(spec_object(
                self@.data.skip(self@.first_offset + self@.ids[index as int].1),
                0,
            ) is Incomplete) && !(spec_object(
                self@.data.skip(self@.first_offset + self@.ids[index as int].1),
                0,
            ) is Panics),
        ensures
            index >= self@.ids.len() ==> r == Err::<Object, ObjectStreamError>(
                ObjectStreamError::IdNotFound { id: index },
            ),
            index < self@.ids.len() && self@.first_offset + self@.ids[index as int].1 > self@.data.len()
                ==> r == Err::<Object, ObjectStreamError>(ObjectStreamError::ParseObject),
            index < self@.ids.len() && self@.first_offset + self@.ids[index as int].1 <= self@.data.len()
                ==> match spec_object(self@.data.skip(self@.first_offset + self@.ids[index as int].1), 0) {
                Outcome::Parsed(v, _) => r matches Ok(o) && o@ == v,
                _ => r == Err::<Object, ObjectStreamError>(ObjectStreamError::ParseObject),
            },
    {
        if index >= self.ids.len() {
            return Err(ObjectStreamError::IdNotFound { id: index });
        }
        let start = match self.object_start(index) {
            Some(p) => p,
            None => {
                return Err(ObjectStreamError::ParseObject);
            },
        };
        let rest = slice_subrange(self.data.as_slice(), start, self.data.len());
        assert(rest@ =~= self@.data.skip(start as int));
        match read_object(rest) {
            Ok(o) => Ok(o),
            Err(_) => Err(ObjectStreamError::ParseObject),
        }
    }

    /// Whether the `index`-th object can be taken: the index is that of an
    /// object, whose text lies within the data and does not end inside a
    /// comment or hold a literal string whose text is not valid UTF-8.
    pub fn object_readable(&self, index: usize) -> (r: bool)
        ensures
            r == (index < self@.ids.len() && self@.first_offset + self@.ids[index as int].1
                <= self@.data.len() && !(spec_object(
                self@.data.skip(self@.first_offset + self@.ids[index as int].1),
                0,
            ) is Incomplete) && !(spec_object(
                self@.data.skip(self@.first_offset + self@.ids[index as int].1),
                0,
            ) is Panics)),
    {
        if index >= self.ids.len() {
            return false;
        }
        let start = match self.object_start(index) {
            Some(p) => p,
            None => {
                return false;
            },
        };
        let rest = slice_subrange(self.data.as_slice(), start, self.data.len());
        assert(rest@ =~= self@.data.skip(start as int));
        match object(rest) {
            Err(ParseError::Incomplete) => false,
            Err(ParseError::Abort) => false,
            _ => true,
        }
    }

    /// Reads an object stream as [`ObjectStream::from_stream`] does, when
    /// its header can be read: `None` when `First` lies past the decoded
    /// data or the header ends inside a comment.
    pub fn from_stream_checked(stream: Stream) -> (r: Option<Result<ObjectStream, ObjectStreamError>>)
        ensures
            match r {
                None => !header_readable(stream.dictionary@, stream.data@),
                Some(x) => header_readable(stream.dictionary@, stream.data@) && object_stream_read(
                    stream.dictionary@,
                    stream.data@,
                    x,
                ),
            },
    {
        let mut probe = stream.copy();
        match probe.process_filters() {
            Ok(()) => {},
            Err(_) => {
                return Some(ObjectStream::from_stream(stream));
            },
        }
        let (n, first) = match stream_fields(&probe.dictionary) {
            Ok((n, first, _)) => (n, first),
            Err(_) => {
                return Some(ObjectStream::from_stream(stream));
            },
        };
        if first > probe.data.len() {
            return None;
        }
        let header = slice_subrange(probe.data.as_slice(), 0, first);
        assert(header@ =~= probe.data@.take(first as int));
        match object_stream_header(header, n) {
            Err(ParseError::Incomplete) => None,
            _ => Some(ObjectStream::from_stream(stream)),
        }
    }
}

} // verus!
