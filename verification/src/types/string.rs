use vstd::prelude::*;
use vstd::slice::{slice_subrange, slice_to_vec};
use vstd::utf8::{codepoint_width_3, decode_first_scalar, decode_utf8, encode_scalar, encode_utf8, valid_utf8};

use crate::parser::date::{date_checked, date_of, date_overflows, spec_string_date, string_date, Date};
use crate::text::string_from_utf8;

verus! {

/// A string object: a literal string (its content after escapes were
/// processed) or a hexadecimal string (the bytes its digits stand for).
#[derive(Debug, PartialEq, Clone)]
pub enum PdfString {
    Literal(String),
    Hexadecimal(Vec<u8>),
}

/// The mathematical value of a [`PdfString`].
pub enum StringModel {
    Literal(Seq<char>),
    Hexadecimal(Seq<u8>),
}

impl View for PdfString {
    type V = StringModel;

    open spec fn view(&self) -> StringModel {
        match self {
            PdfString::Literal(s) => StringModel::Literal(s@),
            PdfString::Hexadecimal(b) => StringModel::Hexadecimal(b@),
        }
    }
}

broadcast use vstd::utf8::group_utf8_lib;

/// Why a string object could not be read as text.
#[derive(Debug, PartialEq)]
pub enum StringError {
    /// The bytes of a hexadecimal string are not valid UTF-8; they are kept.
    EncodingStr(Vec<u8>),
    /// The text is not a date; it is kept.
    ParseTo(String),
}

/// The text of a string object as [`PdfString::as_str`] reads it, or
/// `None` when a hexadecimal string is not valid UTF-8.
pub open spec fn string_text(m: StringModel) -> Option<Seq<char>> {
    match m {
        StringModel::Literal(c) => Some(trim_bom(c)),
        StringModel::Hexadecimal(b) => if valid_utf8(b) {
            Some(trim_bom(decode_utf8(b)))
        } else {
            None
        },
    }
}

/// The text without the byte order marks (U+FEFF) at its start.
pub open spec fn trim_bom(c: Seq<char>) -> Seq<char>
    decreases c.len(),
{
    if c.len() > 0 && c[0] == '\u{FEFF}' {
        trim_bom(c.drop_first())
    } else {
        c
    }
}

/// The bytes of a string object: the UTF-8 bytes of a literal string's
/// text, or the bytes of a hexadecimal string.
pub open spec fn string_bytes(m: StringModel) -> Seq<u8> {
    match m {
        StringModel::Literal(c) => encode_utf8(c),
        StringModel::Hexadecimal(b) => b,
    }
}

/// Text starts with a byte order mark exactly when its UTF-8 bytes start
/// with EF BB BF, which then stand for it.
pub proof fn lemma_bom_bytes(c: Seq<char>)
    ensures
        (c.len() > 0 && c[0] == '\u{FEFF}') <==> (encode_utf8(c).len() >= 3 && encode_utf8(c)[0]
            == 0xEF && encode_utf8(c)[1] == 0xBB && encode_utf8(c)[2] == 0xBF),
        (c.len() > 0 && c[0] == '\u{FEFF}') ==> encode_utf8(c.drop_first()) == encode_utf8(c).skip(
            3,
        ),
{
    if c.len() > 0 {
        let b = encode_utf8(c);
        assert(decode_utf8(b) == c);
        assert(valid_utf8(b));
        assert(decode_utf8(b)[0] == decode_first_scalar(b) as char);
        assert(b == encode_scalar(c[0] as u32) + encode_utf8(c.drop_first()));
        if c[0] == '\u{FEFF}' {
            assert(c[0] as u32 == 0xFEFF);
            assert(vstd::utf8::leading_byte_width_3(0xFEFFu32) == 0xEFu8) by (bit_vector);
            assert(vstd::utf8::second_last_continuation_byte(0xFEFFu32) == 0xBBu8) by (bit_vector);
            assert(vstd::utf8::last_continuation_byte(0xFEFFu32) == 0xBFu8) by (bit_vector);
            assert(encode_scalar(0xFEFFu32) == seq![0xEFu8, 0xBB, 0xBF]);
            assert(b.skip(3) =~= encode_utf8(c.drop_first()));
        }
        if b.len() >= 3 && b[0] == 0xEF && b[1] == 0xBB && b[2] == 0xBF {
            assert(codepoint_width_3(0xEFu8, 0xBBu8, 0xBFu8) == 0xFEFFu32) by (bit_vector);
            assert(decode_first_scalar(b) == 0xFEFFu32);
        }
    }
}

/// The number of byte order marks at the start of a text.
pub open spec fn bom_count(c: Seq<char>) -> nat
    decreases c.len(),
{
    if c.len() > 0 && c[0] == '\u{FEFF}' {
        bom_count(c.drop_first()) + 1
    } else {
        0
    }
}

/// The UTF-8 bytes of `k` byte order marks.
pub open spec fn bom_bytes(k: nat) -> Seq<u8>
    decreases k,
{
    if k == 0 {
        Seq::empty()
    } else {
        seq![0xEFu8, 0xBB, 0xBF] + bom_bytes((k - 1) as nat)
    }
}

/// The bytes of a text are its byte order marks followed by the bytes of
/// the text without them.
pub proof fn lemma_text_bytes(c: Seq<char>)
    ensures
        encode_utf8(c) == bom_bytes(bom_count(c)) + encode_utf8(trim_bom(c)),
    decreases c.len(),
{
    lemma_bom_bytes(c);
    if c.len() > 0 && c[0] == '\u{FEFF}' {
        lemma_text_bytes(c.drop_first());
        let b = encode_utf8(c);
        assert(b =~= seq![0xEFu8, 0xBB, 0xBF] + b.skip(3));
        assert(bom_bytes(bom_count(c)) + encode_utf8(trim_bom(c)) =~= seq![0xEFu8, 0xBB, 0xBF] + (bom_bytes(
            bom_count(c.drop_first()),
        ) + encode_utf8(trim_bom(c.drop_first()))));
    } else {
        assert(bom_bytes(0) + encode_utf8(c) =~= encode_utf8(c));
    }
}

/// The bytes of a string object that reads as text are the byte order
/// marks at its start followed by the bytes of that text: what `as_bytes`
/// gives is a run of byte order marks and then what `as_str` gives.
pub proof fn lemma_bytes_are_text(m: StringModel)
    requires
        string_text(m) is Some,
    ensures
        exists|k: nat| #[trigger] bom_bytes(k) + encode_utf8(string_text(m)->Some_0) == string_bytes(m),
{
    match m {
        StringModel::Literal(c) => {
            lemma_text_bytes(c);
            assert(bom_bytes(bom_count(c)) + encode_utf8(string_text(m)->Some_0) == string_bytes(m));
        },
        StringModel::Hexadecimal(b) => {
            let c = decode_utf8(b);
            lemma_text_bytes(c);
            assert(encode_utf8(c) == b);
            assert(bom_bytes(bom_count(c)) + encode_utf8(string_text(m)->Some_0) == string_bytes(m));
        },
    }
}

/// The text `t` without the byte order marks at its start.
pub fn trim_bom_text(t: &str) -> (r: String)
    ensures
        r@ == trim_bom(t@),
{
    let b = t.as_bytes();
    let mut i: usize = 0;
    let ghost mut k: int = 0;
    assert(b@.skip(0) =~= b@);
    assert(t@.skip(0) =~= t@);
    loop
        invariant
            0 <= k <= t@.len(),
            i <= b@.len(),
            b@.skip(i as int) == encode_utf8(t@.skip(k)),
            trim_bom(t@) == trim_bom(t@.skip(k)),
        ensures
            0 <= k <= t@.len(),
            i <= b@.len(),
            b@.skip(i as int) == encode_utf8(t@.skip(k)),
            trim_bom(t@) == t@.skip(k),
        decreases b@.len() - i,
    {
        proof {
            lemma_bom_bytes(t@.skip(k));
        }
        if b.len() - i >= 3 && b[i] == 0xEF && b[i + 1] == 0xBB && b[i + 2] == 0xBF {
            proof {
                assert(t@.skip(k).drop_first() =~= t@.skip(k + 1));
                assert(b@.skip(i as int).skip(3) =~= b@.skip(i + 3));
                k = k + 1;
            }
            i = i + 3;
        } else {
            break;
        }
    }
    let rest = slice_to_vec(slice_subrange(b, i, b.len()));
    assert(rest@ =~= b@.skip(i as int));
    match string_from_utf8(rest) {
        Some(s) => s,
        None => String::new(),
    }
}

impl PdfString {
    /// The string as text without the byte order marks at its start: a
    /// literal string's text, or the bytes of a hexadecimal string decoded
    /// as UTF-8.
    pub fn as_str(&self) -> (r: Result<String, StringError>)
        ensures
            match self@ {
                StringModel::Literal(c) => r matches Ok(t) && t@ == trim_bom(c),
                StringModel::Hexadecimal(b) => if valid_utf8(b) {
                    r matches Ok(t) && t@ == trim_bom(decode_utf8(b))
                } else {
                    r matches Err(StringError::EncodingStr(d)) && d@ == b
                },
            },
    {
        match self {
            PdfString::Literal(data) => Ok(trim_bom_text(data.as_str())),
            PdfString::Hexadecimal(data) => match string_from_utf8(data.clone()) {
                Some(text) => Ok(trim_bom_text(text.as_str())),
                None => Err(StringError::EncodingStr(data.clone())),
            },
        }
    }

    /// The string read as a date, after [`PdfString::as_str`].
    pub fn to_date(&self) -> (r: Result<Date, StringError>)
        requires
            string_text(self@) matches Some(t) ==> !date_overflows(t),
        ensures
            match string_text(self@) {
                None => r matches Err(StringError::EncodingStr(_)),
                Some(t) => match spec_string_date(t) {
                    Some((d, secs, _)) => r == Ok::<Date, StringError>(date_of(d, secs)),
                    None => r matches Err(StringError::ParseTo(x)) && x@ == t,
                },
            },
    {
        let text = self.as_str()?;
        match string_date(text.as_str()) {
            Ok((_, date)) => Ok(date),
            Err(_) => Err(StringError::ParseTo(text)),
        }
    }

    /// The string read as a date as [`PdfString::to_date`] does, when the
    /// offset of its time zone fits in 32 bits while it is computed; `None`
    /// when it does not.
    pub fn to_date_checked(&self) -> (r: Option<Result<Date, StringError>>)
        ensures
            r is None <==> (string_text(self@) matches Some(t) && date_overflows(t)),
            r matches Some(x) ==> match string_text(self@) {
                None => x matches Err(StringError::EncodingStr(_)),
                Some(t) => match spec_string_date(t) {
                    Some((d, secs, _)) => x == Ok::<Date, StringError>(date_of(d, secs)),
                    None => x matches Err(StringError::ParseTo(y)) && y@ == t,
                },
            },
    {
        let text = match self.as_str() {
            Ok(t) => t,
            Err(e) => {
                return Some(Err(e));
            },
        };
        match date_checked(text.as_str()) {
            None => None,
            Some(Ok((_, date))) => Some(Ok(date)),
            Some(Err(_)) => Some(Err(StringError::ParseTo(text))),
        }
    }

    /// The bytes of the string.
    pub fn as_bytes(&self) -> (r: &[u8])
        ensures
            r@ == string_bytes(self@),
    {
        match self {
            PdfString::Literal(data) => data.as_str().as_bytes(),
            PdfString::Hexadecimal(data) => data.as_slice(),
        }
    }
}

} // verus!
