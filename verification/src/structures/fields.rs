//! Reading optional entries of a dictionary as values of some kind: an
//! entry that is absent gives `None`, one of the wrong kind an error.

use vstd::prelude::*;

use crate::types::array::{spec_rectangle, Array, ArrayError};
use crate::types::dictionary::{dict_get, Dictionary};
use crate::types::indirect_object::IndirectReference;
use crate::types::numeric::{Numeric, NumericModel};
use crate::types::object::{
    spec_as_bool, spec_as_dictionary, spec_as_name, spec_as_reference, spec_as_stream_parts,
    spec_as_u16, Object, ObjectError, ObjectKind, ObjectModel,
};
use crate::structures::xref::spec_as_usize;
use crate::types::rectangle::Rectangle;
use crate::types::stream::Stream;

verus! {

/// An optional entry read with `f`: absent gives `None`.
pub open spec fn opt_field<V, E>(o: Option<ObjectModel>, f: spec_fn(ObjectModel) -> Result<V, E>) -> Result<
    Option<V>,
    E,
> {
    match o {
        None => Ok(None),
        Some(x) => match f(x) {
            Ok(v) => Ok(Some(v)),
            Err(e) => Err(e),
        },
    }
}

/// An object read as a number.
pub open spec fn spec_as_number(o: ObjectModel) -> Result<NumericModel, ObjectError> {
    match o {
        ObjectModel::Numeric(n) => Ok(n),
        _ => Err(ObjectError::UnexpectedObjectType { expected: ObjectKind::Real }),
    }
}

/// An object read as an array.
pub open spec fn spec_as_array(o: ObjectModel) -> Result<Seq<ObjectModel>, ArrayError> {
    match o {
        ObjectModel::Array(items) => Ok(items),
        _ => Err(ArrayError::UnexpectedObjectType),
    }
}

/// The entry `key`, read as a dictionary.
pub fn get_dictionary(d: &Dictionary, key: &str) -> (r: Result<Option<Dictionary>, ObjectError>)
    ensures
        match opt_field(dict_get(d@, key@), |o: ObjectModel| spec_as_dictionary(o)) {
            Ok(Some(v)) => r matches Ok(Some(x)) && x@ == v,
            Ok(None) => r matches Ok(None),
            Err(e) => r == Err::<Option<Dictionary>, ObjectError>(e),
        },
{
    match d.get(key) {
        None => Ok(None),
        Some(o) => match o.as_dictionary() {
            Ok(x) => Ok(Some(x.copy())),
            Err(e) => Err(e),
        },
    }
}

/// The entry `key`, read as a stream.
pub fn get_stream(d: &Dictionary, key: &str) -> (r: Result<Option<Stream>, ObjectError>)
    ensures
        match opt_field(dict_get(d@, key@), |o: ObjectModel| spec_as_stream_parts(o)) {
            Ok(Some(v)) => r matches Ok(Some(x)) && x@ == v,
            Ok(None) => r matches Ok(None),
            Err(e) => r == Err::<Option<Stream>, ObjectError>(e),
        },
{
    match d.get(key) {
        None => Ok(None),
        Some(o) => match o.as_stream() {
            Ok(x) => Ok(Some(x.copy())),
            Err(e) => Err(e),
        },
    }
}

/// The entry `key`, read as a rectangle.
pub fn get_rectangle(d: &Dictionary, key: &str) -> (r: Result<Option<Rectangle>, ArrayError>)
    ensures
        match opt_field(dict_get(d@, key@), |o: ObjectModel| spec_rectangle(o)) {
            Ok(Some(v)) => r matches Ok(Some(x)) && x@ == v,
            Ok(None) => r matches Ok(None),
            Err(e) => r == Err::<Option<Rectangle>, ArrayError>(e),
        },
{
    match d.get(key) {
        None => Ok(None),
        Some(o) => match o.as_array().rectangle() {
            Ok(x) => Ok(Some(x)),
            Err(e) => Err(e),
        },
    }
}

/// The entry `key`, read as an array.
pub fn get_array(d: &Dictionary, key: &str) -> (r: Result<Option<Array>, ArrayError>)
    ensures
        match opt_field(dict_get(d@, key@), |o: ObjectModel| spec_as_array(o)) {
            Ok(Some(v)) => r matches Ok(Some(x)) && x@ == v,
            Ok(None) => r matches Ok(None),
            Err(e) => r == Err::<Option<Array>, ArrayError>(e),
        },
{
    match d.get(key) {
        None => Ok(None),
        Some(o) => match o.as_array().generic() {
            Ok(x) => Ok(Some(x)),
            Err(e) => Err(e),
        },
    }
}

/// The entry `key`, read as an integer that fits in `u16`.
pub fn get_u16(d: &Dictionary, key: &str) -> (r: Result<Option<u16>, ObjectError>)
    ensures
        r == opt_field(dict_get(d@, key@), |o: ObjectModel| spec_as_u16(o)),
{
    match d.get(key) {
        None => Ok(None),
        Some(o) => match o.as_u16() {
            Ok(x) => Ok(Some(x)),
            Err(e) => Err(e),
        },
    }
}

/// The entry `key`, read as an integer that fits in `usize`.
pub fn get_usize(d: &Dictionary, key: &str) -> (r: Result<Option<usize>, ObjectError>)
    ensures
        r == opt_field(dict_get(d@, key@), |o: ObjectModel| spec_as_usize(o)),
{
    match d.get(key) {
        None => Ok(None),
        Some(o) => match o.as_usize() {
            Ok(x) => Ok(Some(x)),
            Err(e) => Err(e),
        },
    }
}

/// The entry `key`, read as a number.
pub fn get_number(d: &Dictionary, key: &str) -> (r: Result<Option<Numeric>, ObjectError>)
    ensures
        match opt_field(dict_get(d@, key@), |o: ObjectModel| spec_as_number(o)) {
            Ok(Some(v)) => r matches Ok(Some(x)) && x@ == v,
            Ok(None) => r matches Ok(None),
            Err(e) => r == Err::<Option<Numeric>, ObjectError>(e),
        },
{
    match d.get(key) {
        None => Ok(None),
        Some(o) => match o.as_number() {
            Ok(x) => Ok(Some(crate::types::copy::copy_numeric(x))),
            Err(e) => Err(e),
        },
    }
}

/// The entry `key`, read as a name.
pub fn get_name(d: &Dictionary, key: &str) -> (r: Result<Option<String>, ObjectError>)
    ensures
        match opt_field(dict_get(d@, key@), |o: ObjectModel| spec_as_name(o)) {
            Ok(Some(v)) => r matches Ok(Some(x)) && x@ == v,
            Ok(None) => r matches Ok(None),
            Err(e) => r == Err::<Option<String>, ObjectError>(e),
        },
{
    match d.get(key) {
        None => Ok(None),
        Some(o) => match o.as_name() {
            Ok(x) => Ok(Some(x.to_string())),
            Err(e) => Err(e),
        },
    }
}

/// The entry `key`, read as an indirect reference.
pub fn get_reference(d: &Dictionary, key: &str) -> (r: Result<Option<IndirectReference>, ObjectError>)
    ensures
        match opt_field(dict_get(d@, key@), |o: ObjectModel| spec_as_reference(o)) {
            Ok(Some(v)) => r matches Ok(Some(x)) && x@ == v,
            Ok(None) => r matches Ok(None),
            Err(e) => r == Err::<Option<IndirectReference>, ObjectError>(e),
        },
{
    match d.get(key) {
        None => Ok(None),
        Some(o) => match o.as_indirect_ref() {
            Ok(x) => Ok(Some(*x)),
            Err(e) => Err(e),
        },
    }
}

/// The entry `key`, read as a boolean.
pub fn get_bool(d: &Dictionary, key: &str) -> (r: Result<Option<bool>, ObjectError>)
    ensures
        r == opt_field(dict_get(d@, key@), |o: ObjectModel| spec_as_bool(o)),
{
    match d.get(key) {
        None => Ok(None),
        Some(o) => match o.as_bool() {
            Ok(x) => Ok(Some(x)),
            Err(e) => Err(e),
        },
    }
}

/// A copy of the entry `key`, if there is one.
pub fn get_cloned(d: &Dictionary, key: &str) -> (r: Option<Object>)
    ensures
        match dict_get(d@, key@) {
            Some(v) => r matches Some(x) && x@ == v,
            None => r is None,
        },
{
    match d.get(key) {
        None => None,
        Some(o) => Some(o.copy()),
    }
}

} // verus!
