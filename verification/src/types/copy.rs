//! Copies of objects that keep their value.

use vstd::prelude::*;

use crate::types::array::Array;
use crate::types::dictionary::Dictionary;
use crate::types::indirect_object::{IndirectObject, IndirectReference};
use crate::types::numeric::Numeric;
use crate::types::object::{
    lemma_objects_view, lemma_records_view, object_view, objects_view, records_view, Object,
};
use crate::types::stream::Stream;
use crate::types::string::PdfString;

verus! {

/// A copy of a number.
pub fn copy_numeric(n: &Numeric) -> (r: Numeric)
    ensures
        r@ == n@,
{
    match n {
        Numeric::Integer(i) => Numeric::Integer(*i),
        Numeric::Real(t) => Numeric::Real(t.clone()),
    }
}

/// A copy of a string object.
pub fn copy_string(s: &PdfString) -> (r: PdfString)
    ensures
        r@ == s@,
{
    match s {
        PdfString::Literal(t) => PdfString::Literal(t.clone()),
        PdfString::Hexadecimal(b) => PdfString::Hexadecimal(b.clone()),
    }
}

/// A copy of an object, nested objects included.
pub fn copy_object(o: &Object) -> (r: Object)
    ensures
        r@ == o@,
    decreases o,
{
    match o {
        Object::Boolean(b) => Object::Boolean(*b),
        Object::Numeric(n) => Object::Numeric(copy_numeric(n)),
        Object::String(s) => Object::String(copy_string(s)),
        Object::Name(n) => Object::Name(n.clone()),
        Object::Null => Object::Null,
        Object::Array(a) => Object::Array(Array { data: copy_objects(&a.data) }),
        Object::Dictionary(d) => Object::Dictionary(Dictionary { records: copy_records(&d.records) }),
        Object::Stream(st) => Object::Stream(
            Stream {
                dictionary: Dictionary { records: copy_records(&st.dictionary.records) },
                data: st.data.clone(),
            },
        ),
        Object::IndirectDefinition(io) => {
            let inner = copy_object(&io.object);
            Object::IndirectDefinition(IndirectObject::new(io.id, io.gen_id, inner))
        },
        Object::IndirectReference(r) => Object::IndirectReference(
            IndirectReference { id: r.id, gen_id: r.gen_id },
        ),
    }
}

/// A copy of a list of objects.
pub fn copy_objects(v: &Vec<Object>) -> (r: Vec<Object>)
    ensures
        objects_view(r@) == objects_view(v@),
    decreases v,
{
    let mut out: Vec<Object> = Vec::new();
    let mut i: usize = 0;
    proof {
        lemma_objects_view(v@);
    }
    while i < v.len()
        invariant
            i <= v@.len(),
            out@.len() == i,
            forall|j: int| 0 <= j < i ==> #[trigger] object_view(out@[j]) == object_view(v@[j]),
        decreases v@.len() - i,
    {
        assert(decreases_to!(v => v@[i as int]));
        let c = copy_object(&v[i]);
        out.push(c);
        i = i + 1;
    }
    proof {
        lemma_objects_view(out@);
        lemma_objects_view(v@);
        assert(objects_view(out@) =~= objects_view(v@));
    }
    out
}

/// A copy of a list of dictionary entries.
pub fn copy_records(v: &Vec<(String, Object)>) -> (r: Vec<(String, Object)>)
    ensures
        records_view(r@) == records_view(v@),
    decreases v,
{
    let mut out: Vec<(String, Object)> = Vec::new();
    let mut i: usize = 0;
    while i < v.len()
        invariant
            i <= v@.len(),
            out@.len() == i,
            forall|j: int|
                0 <= j < i ==> #[trigger] out@[j].0@ == v@[j].0@ && object_view(out@[j].1)
                    == object_view(v@[j].1),
        decreases v@.len() - i,
    {
        assert(decreases_to!(v => v@[i as int].1));
        let c = copy_object(&v[i].1);
        out.push((v[i].0.clone(), c));
        i = i + 1;
    }
    proof {
        lemma_records_view(out@);
        lemma_records_view(v@);
        assert(records_view(out@) =~= records_view(v@));
    }
    out
}

impl Dictionary {
    /// A copy of the dictionary.
    pub fn copy(&self) -> (r: Dictionary)
        ensures
            r@ == self@,
    {
        Dictionary { records: copy_records(&self.records) }
    }
}

impl Array {
    /// A copy of the array.
    pub fn copy(&self) -> (r: Array)
        ensures
            r@ == self@,
    {
        Array { data: copy_objects(&self.data) }
    }
}

impl Stream {
    /// A copy of the stream.
    pub fn copy(&self) -> (r: Stream)
        ensures
            r@ == self@,
    {
        Stream { dictionary: self.dictionary.copy(), data: self.data.clone() }
    }
}

impl Object {
    /// A copy of the object.
    pub fn copy(&self) -> (r: Object)
        ensures
            r@ == self@,
    {
        copy_object(self)
    }
}

} // verus!
