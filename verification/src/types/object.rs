use vstd::prelude::*;

use crate::types::array::{Array, ArrayBuilder};
use crate::types::dictionary::Dictionary;
use crate::types::indirect_object::{IndirectObject, IndirectReference};
use crate::types::numeric::{Numeric, NumericModel};
use crate::types::stream::Stream;
use crate::types::string::{PdfString, StringModel};

verus! {

/// The fundamental PDF objects.
#[derive(Debug, PartialEq)]
pub enum Object {
    /// `true` or `false`
    Boolean(bool),
    /// An integer or a real number
    Numeric(Numeric),
    /// A literal `( ... )` or hexadecimal `< ... >` string
    String(PdfString),
    /// A name `/...`, decoded
    Name(String),
    /// `null`
    Null,
    /// `[ ... ]`
    Array(Array),
    /// `<< ... >>`
    Dictionary(Dictionary),
    /// A dictionary followed by `stream ... endstream`
    Stream(Stream),
    /// `id gen obj ... endobj`
    IndirectDefinition(IndirectObject),
    /// `id gen R`
    IndirectReference(IndirectReference),
}

/// The mathematical value of an [`Object`]. A dictionary is the list of its
/// entries in increasing order of their keys' UTF-8 bytes, each key once.
pub enum ObjectModel {
    Boolean(bool),
    Numeric(NumericModel),
    String(StringModel),
    Name(Seq<char>),
    Null,
    Array(Seq<ObjectModel>),
    Dictionary(Seq<(Seq<char>, ObjectModel)>),
    Stream(Seq<(Seq<char>, ObjectModel)>, Seq<u8>),
    IndirectDefinition(int, int, Box<ObjectModel>),
    IndirectReference(int, int),
}

pub open spec fn object_view(o: Object) -> ObjectModel
    decreases o,
{
    match o {
        Object::Boolean(b) => ObjectModel::Boolean(b),
        Object::Numeric(n) => ObjectModel::Numeric(n@),
        Object::String(s) => ObjectModel::String(s@),
        Object::Name(n) => ObjectModel::Name(n@),
        Object::Null => ObjectModel::Null,
        Object::Array(a) => ObjectModel::Array(objects_view(a.data@)),
        Object::Dictionary(d) => ObjectModel::Dictionary(records_view(d.records@)),
        Object::Stream(st) => ObjectModel::Stream(records_view(st.dictionary.records@), st.data@),
        Object::IndirectDefinition(io) => ObjectModel::IndirectDefinition(
            io.id as int,
            io.gen_id as int,
            Box::new(object_view(*io.object)),
        ),
        Object::IndirectReference(r) => ObjectModel::IndirectReference(r.id as int, r.gen_id as int),
    }
}

pub open spec fn objects_view(s: Seq<Object>) -> Seq<ObjectModel>
    decreases s,
{
    if s.len() == 0 {
        Seq::empty()
    } else {
        objects_view(s.drop_last()).push(object_view(s.last()))
    }
}

pub open spec fn records_view(s: Seq<(String, Object)>) -> Seq<(Seq<char>, ObjectModel)>
    decreases s,
{
    if s.len() == 0 {
        Seq::empty()
    } else {
        records_view(s.drop_last()).push((s.last().0@, object_view(s.last().1)))
    }
}

pub proof fn lemma_objects_view(s: Seq<Object>)
    ensures
        objects_view(s).len() == s.len(),
        forall|i: int| 0 <= i < s.len() ==> #[trigger] objects_view(s)[i] == object_view(s[i]),
    decreases s.len(),
{
    if s.len() > 0 {
        lemma_objects_view(s.drop_last());
    }
}

pub proof fn lemma_records_view(s: Seq<(String, Object)>)
    ensures
        records_view(s).len() == s.len(),
        forall|i: int|
            0 <= i < s.len() ==> #[trigger] records_view(s)[i] == (s[i].0@, object_view(s[i].1)),
    decreases s.len(),
{
    if s.len() > 0 {
        lemma_records_view(s.drop_last());
    }
}

impl View for Object {
    type V = ObjectModel;

    open spec fn view(&self) -> ObjectModel {
        object_view(*self)
    }
}

impl View for Array {
    type V = Seq<ObjectModel>;

    open spec fn view(&self) -> Seq<ObjectModel> {
        objects_view(self.data@)
    }
}

impl View for Dictionary {
    type V = Seq<(Seq<char>, ObjectModel)>;

    open spec fn view(&self) -> Seq<(Seq<char>, ObjectModel)> {
        records_view(self.records@)
    }
}

/// The kind of object that an accessor expected.
#[derive(Debug, Clone, Copy, PartialEq, Eq)]
pub enum ObjectKind {
    Integer,
    Boolean,
    Name,
    String,
    Dictionary,
    IndirectReference,
    Stream,
    Array,
    Real,
}

/// Why an object could not be read as a value of some kind.
#[derive(Debug, Clone, Copy, PartialEq, Eq)]
pub enum ObjectError {
    /// The object is of another kind.
    UnexpectedObjectType { expected: ObjectKind },
    /// The integer does not fit in the requested type.
    TypeConvertion,
}

/// The value of `o` as an integer, if it is one.
pub open spec fn integer_of(o: ObjectModel) -> Option<int> {
    match o {
        ObjectModel::Numeric(NumericModel::Integer(v)) => Some(v),
        _ => None,
    }
}

/// The value of an object read as an integer that fits in `u16`.
pub open spec fn spec_as_u16(o: ObjectModel) -> Result<u16, ObjectError> {
    match integer_of(o) {
        Some(v) => if 0 <= v <= 65535 {
            Ok(v as u16)
        } else {
            Err(ObjectError::TypeConvertion)
        },
        None => Err(ObjectError::UnexpectedObjectType { expected: ObjectKind::Integer }),
    }
}

/// The entries of an object read as a dictionary: a dictionary, or an
/// indirect definition that holds one.
pub open spec fn spec_as_dictionary(o: ObjectModel) -> Result<Seq<(Seq<char>, ObjectModel)>, ObjectError> {
    match o {
        ObjectModel::Dictionary(d) => Ok(d),
        ObjectModel::IndirectDefinition(_, _, inner) => match *inner {
            ObjectModel::Dictionary(d) => Ok(d),
            _ => Err(ObjectError::UnexpectedObjectType { expected: ObjectKind::Dictionary }),
        },
        _ => Err(ObjectError::UnexpectedObjectType { expected: ObjectKind::Dictionary }),
    }
}

/// The dictionary and data of an object read as a stream: a stream, or an
/// indirect definition that holds one.
pub open spec fn spec_as_stream_parts(o: ObjectModel) -> Result<(Seq<(Seq<char>, ObjectModel)>, Seq<u8>), ObjectError> {
    match o {
        ObjectModel::Stream(d, b) => Ok((d, b)),
        ObjectModel::IndirectDefinition(_, _, inner) => match *inner {
            ObjectModel::Stream(d, b) => Ok((d, b)),
            _ => Err(ObjectError::UnexpectedObjectType { expected: ObjectKind::Stream }),
        },
        _ => Err(ObjectError::UnexpectedObjectType { expected: ObjectKind::Stream }),
    }
}

/// The text of an object read as a name.
pub open spec fn spec_as_name(o: ObjectModel) -> Result<Seq<char>, ObjectError> {
    match o {
        ObjectModel::Name(n) => Ok(n),
        _ => Err(ObjectError::UnexpectedObjectType { expected: ObjectKind::Name }),
    }
}

/// The reference of an object read as an indirect reference.
pub open spec fn spec_as_reference(o: ObjectModel) -> Result<(int, int), ObjectError> {
    match o {
        ObjectModel::IndirectReference(id, g) => Ok((id, g)),
        _ => Err(ObjectError::UnexpectedObjectType { expected: ObjectKind::IndirectReference }),
    }
}

/// The value of an object read as a boolean.
pub open spec fn spec_as_bool(o: ObjectModel) -> Result<bool, ObjectError> {
    match o {
        ObjectModel::Boolean(b) => Ok(b),
        _ => Err(ObjectError::UnexpectedObjectType { expected: ObjectKind::Boolean }),
    }
}

impl Object {
    /// Whether the object is `null`.
    pub fn is_null(&self) -> (r: bool)
        ensures
            r == (*self is Null),
    {
        match self {
            Object::Null => true,
            _ => false,
        }
    }

    /// The object as an integer.
    pub fn as_integer(&self) -> (r: Result<i64, ObjectError>)
        ensures
            match integer_of(self@) {
                Some(v) => r == Ok::<i64, ObjectError>(v as i64),
                None => r == Err::<i64, ObjectError>(
                    ObjectError::UnexpectedObjectType { expected: ObjectKind::Integer },
                ),
            },
    {
        match self {
            Object::Numeric(Numeric::Integer(v)) => Ok(*v),
            _ => Err(ObjectError::UnexpectedObjectType { expected: ObjectKind::Integer }),
        }
    }

    /// The object as an integer that fits in `usize`.
    pub fn as_usize(&self) -> (r: Result<usize, ObjectError>)
        ensures
            match integer_of(self@) {
                Some(v) => if 0 <= v <= usize::MAX {
                    r == Ok::<usize, ObjectError>(v as usize)
                } else {
                    r == Err::<usize, ObjectError>(ObjectError::TypeConvertion)
                },
                None => r == Err::<usize, ObjectError>(
                    ObjectError::UnexpectedObjectType { expected: ObjectKind::Integer },
                ),
            },
    {
        match self {
            Object::Numeric(Numeric::Integer(v)) => {
                if *v < 0 {
                    Err(ObjectError::TypeConvertion)
                } else if *v as u64 > usize::MAX as u64 {
                    Err(ObjectError::TypeConvertion)
                } else {
                    Ok(*v as usize)
                }
            },
            _ => Err(ObjectError::UnexpectedObjectType { expected: ObjectKind::Integer }),
        }
    }

    /// The object as an integer that fits in `u16`.
    pub fn as_u16(&self) -> (r: Result<u16, ObjectError>)
        ensures
            r == spec_as_u16(self@),
    {
        match self {
            Object::Numeric(Numeric::Integer(v)) => {
                if *v < 0 || *v > 65535 {
                    Err(ObjectError::TypeConvertion)
                } else {
                    Ok(*v as u16)
                }
            },
            _ => Err(ObjectError::UnexpectedObjectType { expected: ObjectKind::Integer }),
        }
    }

    /// The object as a number: an integer or a real number.
    pub fn as_number(&self) -> (r: Result<&Numeric, ObjectError>)
        ensures
            match self@ {
                ObjectModel::Numeric(n) => r matches Ok(x) && x@ == n,
                _ => r == Err::<&Numeric, ObjectError>(
                    ObjectError::UnexpectedObjectType { expected: ObjectKind::Real },
                ),
            },
    {
        match self {
            Object::Numeric(n) => Ok(n),
            _ => Err(ObjectError::UnexpectedObjectType { expected: ObjectKind::Real }),
        }
    }

    /// The object as an integer that fits in `u64`.
    pub fn as_u64(&self) -> (r: Result<u64, ObjectError>)
        ensures
            match integer_of(self@) {
                Some(v) => if 0 <= v {
                    r == Ok::<u64, ObjectError>(v as u64)
                } else {
                    r == Err::<u64, ObjectError>(ObjectError::TypeConvertion)
                },
                None => r == Err::<u64, ObjectError>(
                    ObjectError::UnexpectedObjectType { expected: ObjectKind::Integer },
                ),
            },
    {
        match self {
            Object::Numeric(Numeric::Integer(v)) => {
                if *v < 0 {
                    Err(ObjectError::TypeConvertion)
                } else {
                    Ok(*v as u64)
                }
            },
            _ => Err(ObjectError::UnexpectedObjectType { expected: ObjectKind::Integer }),
        }
    }

    /// The object as a boolean.
    pub fn as_bool(&self) -> (r: Result<bool, ObjectError>)
        ensures
            match self@ {
                ObjectModel::Boolean(b) => r == Ok::<bool, ObjectError>(b),
                _ => r == Err::<bool, ObjectError>(
                    ObjectError::UnexpectedObjectType { expected: ObjectKind::Boolean },
                ),
            },
    {
        match self {
            Object::Boolean(b) => Ok(*b),
            _ => Err(ObjectError::UnexpectedObjectType { expected: ObjectKind::Boolean }),
        }
    }

    /// The object as a name.
    pub fn as_name(&self) -> (r: Result<&str, ObjectError>)
        ensures
            match self@ {
                ObjectModel::Name(n) => r matches Ok(t) && t@ == n,
                _ => r == Err::<&str, ObjectError>(
                    ObjectError::UnexpectedObjectType { expected: ObjectKind::Name },
                ),
            },
    {
        match self {
            Object::Name(n) => Ok(n.as_str()),
            _ => Err(ObjectError::UnexpectedObjectType { expected: ObjectKind::Name }),
        }
    }

    /// The object as a string object.
    pub fn as_string(&self) -> (r: Result<&PdfString, ObjectError>)
        ensures
            match self@ {
                ObjectModel::String(t) => r matches Ok(x) && x@ == t,
                _ => r == Err::<&PdfString, ObjectError>(
                    ObjectError::UnexpectedObjectType { expected: ObjectKind::String },
                ),
            },
    {
        match self {
            Object::String(t) => Ok(t),
            _ => Err(ObjectError::UnexpectedObjectType { expected: ObjectKind::String }),
        }
    }

    /// The object as a dictionary: a dictionary, or an indirect definition
    /// that holds one.
    pub fn as_dictionary(&self) -> (r: Result<&Dictionary, ObjectError>)
        ensures
            match self@ {
                ObjectModel::Dictionary(d) => r matches Ok(x) && x@ == d,
                ObjectModel::IndirectDefinition(_, _, inner) => match *inner {
                    ObjectModel::Dictionary(d) => r matches Ok(x) && x@ == d,
                    _ => r == Err::<&Dictionary, ObjectError>(
                        ObjectError::UnexpectedObjectType { expected: ObjectKind::Dictionary },
                    ),
                },
                _ => r == Err::<&Dictionary, ObjectError>(
                    ObjectError::UnexpectedObjectType { expected: ObjectKind::Dictionary },
                ),
            },
    {
        proof {
            reveal_with_fuel(object_view, 2);
        }
        match self {
            Object::Dictionary(d) => Ok(d),
            Object::IndirectDefinition(io) => match &*io.object {
                Object::Dictionary(d) => Ok(d),
                _ => Err(ObjectError::UnexpectedObjectType { expected: ObjectKind::Dictionary }),
            },
            _ => Err(ObjectError::UnexpectedObjectType { expected: ObjectKind::Dictionary }),
        }
    }

    /// The object as an indirect reference.
    pub fn as_indirect_ref(&self) -> (r: Result<&IndirectReference, ObjectError>)
        ensures
            match self@ {
                ObjectModel::IndirectReference(id, g) => r matches Ok(x) && x.id == id && x.gen_id
                    == g,
                _ => r == Err::<&IndirectReference, ObjectError>(
                    ObjectError::UnexpectedObjectType { expected: ObjectKind::IndirectReference },
                ),
            },
    {
        match self {
            Object::IndirectReference(x) => Ok(x),
            _ => Err(ObjectError::UnexpectedObjectType { expected: ObjectKind::IndirectReference }),
        }
    }

    /// The object as a stream: a stream, or an indirect definition that
    /// holds one.
    pub fn as_stream(&self) -> (r: Result<&Stream, ObjectError>)
        ensures
            match self@ {
                ObjectModel::Stream(d, b) => r matches Ok(x) && x@ == (d, b),
                ObjectModel::IndirectDefinition(_, _, inner) => match *inner {
                    ObjectModel::Stream(d, b) => r matches Ok(x) && x@ == (d, b),
                    _ => r == Err::<&Stream, ObjectError>(
                        ObjectError::UnexpectedObjectType { expected: ObjectKind::Stream },
                    ),
                },
                _ => r == Err::<&Stream, ObjectError>(
                    ObjectError::UnexpectedObjectType { expected: ObjectKind::Stream },
                ),
            },
    {
        proof {
            reveal_with_fuel(object_view, 2);
        }
        match self {
            Object::Stream(st) => Ok(st),
            Object::IndirectDefinition(io) => match &*io.object {
                Object::Stream(st) => Ok(st),
                _ => Err(ObjectError::UnexpectedObjectType { expected: ObjectKind::Stream }),
            },
            _ => Err(ObjectError::UnexpectedObjectType { expected: ObjectKind::Stream }),
        }
    }

    /// The object as an array, for reading it element by element.
    pub fn as_array(&self) -> (r: ArrayBuilder<'_>)
        ensures
            r.array == self,
    {
        ArrayBuilder::new(self)
    }
}

} // verus!
