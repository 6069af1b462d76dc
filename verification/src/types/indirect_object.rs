use vstd::prelude::*;

use vstd::utf8::decode_utf8;

use crate::parser::process_stream_buffer::{decimal, lemma_ascii_valid, lemma_decimal_ascii, push_decimal};
use crate::text::string_from_utf8;
use crate::types::object::{object_view, Object, ObjectModel};

verus! {

/// A reference to an indirect object: `id gen_id R`.
#[derive(Debug, Clone, Copy, PartialEq, Eq, Hash, PartialOrd, Ord, Default)]
pub struct IndirectReference {
    pub id: usize,
    pub gen_id: usize,
}

/// An indirect object definition: `id gen_id obj ... endobj`.
#[derive(Debug, PartialEq)]
pub struct IndirectObject {
    pub id: usize,
    pub gen_id: usize,
    pub object: Box<Object>,
}

impl IndirectObject {
    /// An indirect object with the given numbers around `object`.
    pub fn new(id: usize, gen_id: usize, object: Object) -> (r: Self)
        ensures
            r.id == id,
            r.gen_id == gen_id,
            *r.object == object,
    {
        IndirectObject { id, gen_id, object: Box::new(object) }
    }

    /// The object that this definition holds.
    pub fn get_object(&self) -> (r: &Object)
        ensures
            *r == *self.object,
    {
        &self.object
    }
}

impl View for IndirectReference {
    type V = (int, int);

    open spec fn view(&self) -> (int, int) {
        (self.id as int, self.gen_id as int)
    }
}

impl View for IndirectObject {
    type V = (int, int, ObjectModel);

    open spec fn view(&self) -> (int, int, ObjectModel) {
        (self.id as int, self.gen_id as int, object_view(*self.object))
    }
}

/// The text of a reference: `id gen_id R`, in decimal.
pub open spec fn reference_text(id: nat, gen_id: nat) -> Seq<u8> {
    decimal(id) + seq![0x20u8] + decimal(gen_id) + seq![0x20u8, 0x52u8]
}

impl IndirectReference {
    /// The reference as it is written: `id gen_id R`.
    pub fn to_text(&self) -> (r: String)
        ensures
            r@ == decode_utf8(reference_text(self.id as nat, self.gen_id as nat)),
    {
        let mut out: Vec<u8> = Vec::new();
        push_decimal(&mut out, self.id);
        out.push(0x20);
        push_decimal(&mut out, self.gen_id);
        out.push(0x20);
        out.push(0x52);
        proof {
            let t = reference_text(self.id as nat, self.gen_id as nat);
            assert(out@ =~= t);
            lemma_decimal_ascii(self.id as nat);
            lemma_decimal_ascii(self.gen_id as nat);
            assert forall|i: int| 0 <= i < t.len() implies #[trigger] t[i] < 0x80 by {
                let a = decimal(self.id as nat).len();
                let b = decimal(self.gen_id as nat).len();
                if i < a {
                    assert(t[i] == decimal(self.id as nat)[i]);
                } else if a + 1 <= i < a + 1 + b {
                    assert(t[i] == decimal(self.gen_id as nat)[i - a - 1]);
                }
            }
            lemma_ascii_valid(t);
        }
        string_from_utf8(out).unwrap()
    }
}

} // verus!
