//! Conversions between bytes and text.

use vstd::prelude::*;
use vstd::utf8::{decode_utf8, encode_utf8, valid_utf8};

use crate::types::dictionary::{lemma_encode_injective, order_bytes, ByteOrder};

verus! {

/// Calls `String::from_utf8`. The standard library documents that it
/// succeeds exactly when the bytes are valid UTF-8, and that the string then
/// holds those bytes; the result is therefore the decoding of the bytes.
#[verifier::external_body]
pub fn string_from_utf8(bytes: Vec<u8>) -> (r: Option<String>)
    ensures
        r is Some <==> valid_utf8(bytes@),
        r matches Some(s) ==> s@ == decode_utf8(bytes@),
{
    String::from_utf8(bytes).ok()
}

/// Calls `std::str::from_utf8`, which the standard library documents to
/// succeed exactly when the bytes are valid UTF-8.
#[verifier::external_body]
pub fn utf8_valid(bytes: &[u8]) -> (r: bool)
    ensures
        r == valid_utf8(bytes@),
{
    std::str::from_utf8(bytes).is_ok()
}

/// Whether two texts are the same.
pub fn same_text(a: &str, b: &str) -> (r: bool)
    ensures
        r == (a@ == b@),
{
    match order_bytes(a.as_bytes(), b.as_bytes()) {
        ByteOrder::Same => {
            proof {
                lemma_encode_injective(a@, b@);
            }
            true
        },
        _ => {
            proof {
                if a@ == b@ {
                    assert(encode_utf8(a@) == encode_utf8(b@));
                }
            }
            false
        },
    }
}

} // verus!
