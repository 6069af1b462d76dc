//! The file identifier of a document.

use vstd::prelude::*;

use crate::types::array::ArrayError;
use crate::types::object::{ObjectError, ObjectKind, Object, ObjectModel};
use crate::types::string::string_bytes;
use crate::parser::process_stream_buffer::lemma_ascii_valid;
use crate::text::string_from_utf8;
use vstd::utf8::decode_utf8;

verus! {

/// The file identifier: two byte strings, the one the file was created
/// with and the one of its current contents.
#[derive(Debug, Clone, PartialEq)]
pub struct Hash {
    pub initial: Vec<u8>,
    pub current: Vec<u8>,
}

/// Why an object is not a file identifier.
#[derive(Debug, Clone, Copy, PartialEq, Eq)]
pub enum HashError {
    /// An element is not a string.
    Object(ObjectError),
    /// The object is not an array.
    Array(ArrayError),
    /// The array does not hold two elements.
    InvalidArraySize { expected: usize, got: usize },
}

impl View for Hash {
    type V = (Seq<u8>, Seq<u8>);

    open spec fn view(&self) -> (Seq<u8>, Seq<u8>) {
        (self.initial@, self.current@)
    }
}

/// What reading `o` as a file identifier gives.
pub open spec fn spec_hash(o: ObjectModel) -> Result<(Seq<u8>, Seq<u8>), HashError> {
    match o {
        ObjectModel::Array(items) => if items.len() != 2 {
            Err(HashError::InvalidArraySize { expected: 2, got: items.len() as usize })
        } else {
            match (items[0], items[1]) {
                (ObjectModel::String(a), ObjectModel::String(b)) => Ok(
                    (string_bytes(a), string_bytes(b)),
                ),
                _ => Err(
                    HashError::Object(
                        ObjectError::UnexpectedObjectType { expected: ObjectKind::String },
                    ),
                ),
            }
        },
        _ => Err(HashError::Array(ArrayError::UnexpectedObjectType)),
    }
}

impl Hash {
    /// Reads a file identifier: an array of two strings.
    pub fn from_object(object: &Object) -> (r: Result<Hash, HashError>)
        ensures
            match spec_hash(object@) {
                Ok(v) => r matches Ok(h) && h@ == v,
                Err(e) => r == Err::<Hash, HashError>(e),
            },
    {
        let array = match object.as_array().generic() {
            Ok(a) => a,
            Err(e) => {
                return Err(HashError::Array(e));
            },
        };
        proof {
            crate::types::object::lemma_objects_view(array.data@);
        }
        if array.len() != 2 {
            return Err(HashError::InvalidArraySize { expected: 2, got: array.len() });
        }
        let initial = match array.data[0].as_string() {
            Ok(t) => vstd::slice::slice_to_vec(t.as_bytes()),
            Err(e) => {
                return Err(HashError::Object(e));
            },
        };
        let current = match array.data[1].as_string() {
            Ok(t) => vstd::slice::slice_to_vec(t.as_bytes()),
            Err(e) => {
                return Err(HashError::Object(e));
            },
        };
        Ok(Hash { initial, current })
    }
}

/// The lower-case hexadecimal digit of `n`, below 16.
pub open spec fn hex_digit(n: u8) -> u8 {
    if n < 10 {
        (0x30 + n) as u8
    } else {
        (0x57 + n) as u8
    }
}

/// Two lower-case hexadecimal digits for each byte of `b`.
pub open spec fn hex_bytes(b: Seq<u8>) -> Seq<u8>
    decreases b.len(),
{
    if b.len() == 0 {
        Seq::empty()
    } else {
        hex_bytes(b.drop_last()) + seq![hex_digit(b.last() / 16), hex_digit(b.last() % 16)]
    }
}

/// Appends the hexadecimal digits of `b` to `out`.
fn push_hex(out: &mut Vec<u8>, b: &Vec<u8>)
    requires
        forall|i: int| 0 <= i < old(out)@.len() ==> #[trigger] old(out)@[i] < 0x80,
    ensures
        final(out)@ == old(out)@ + hex_bytes(b@),
        forall|i: int| 0 <= i < final(out)@.len() ==> #[trigger] final(out)@[i] < 0x80,
{
    let ghost start = out@;
    let mut i: usize = 0;
    assert(b@.take(0) =~= Seq::<u8>::empty());
    assert(start + hex_bytes(Seq::<u8>::empty()) =~= start);
    while i < b.len()
        invariant
            i <= b@.len(),
            out@ == start + hex_bytes(b@.take(i as int)),
            forall|j: int| 0 <= j < out@.len() ==> #[trigger] out@[j] < 0x80,
        decreases b@.len() - i,
    {
        let x = b[i];
        let hi = x / 16;
        let lo = x % 16;
        let dh: u8 = if hi < 10 { 0x30 + hi } else { 0x57 + hi };
        let dl: u8 = if lo < 10 { 0x30 + lo } else { 0x57 + lo };
        let ghost before = out@;
        out.push(dh);
        out.push(dl);
        assert(b@.take(i + 1).drop_last() =~= b@.take(i as int));
        assert(out@ =~= start + hex_bytes(b@.take(i + 1)));
        i = i + 1;
    }
    assert(b@.take(b@.len() as int) =~= b@);
}

impl Hash {
    /// The identifier as text: the hexadecimal digits of the initial part,
    /// a colon, and those of the current part.
    pub fn to_text(&self) -> (r: String)
        ensures
            r@ == decode_utf8(hex_bytes(self.initial@) + seq![0x3au8] + hex_bytes(self.current@)),
    {
        let mut out: Vec<u8> = Vec::new();
        push_hex(&mut out, &self.initial);
        out.push(0x3a);
        push_hex(&mut out, &self.current);
        proof {
            lemma_ascii_valid(out@);
        }
        assert(out@ =~= hex_bytes(self.initial@) + seq![0x3au8] + hex_bytes(self.current@));
        string_from_utf8(out).unwrap()
    }
}

} // verus!
