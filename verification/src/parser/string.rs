//! String objects: literal strings `( ... )` and hexadecimal strings `< ... >`.

use vstd::prelude::*;
use vstd::utf8::{decode_utf8, encode_utf8, valid_utf8};
use vstd::slice::slice_subrange;

use crate::parser::name::{hex_digit_value, hex_value, is_hex_digit, is_hex_digit_byte};
use crate::parser::outcome::{
    agrees, lemma_run_end, push_range, rest_agrees, run_end, with_rest, Outcome, ParseError,
};
use crate::parser::whitespace::{is_whitespace, spec_is_whitespace};
use crate::text::{string_from_utf8, utf8_valid};
use crate::types::string::{PdfString, StringModel};

verus! {

broadcast use vstd::utf8::group_utf8_lib;

/// A byte that a literal string holds as it is: anything but `\`, `(` and `)`.
pub open spec fn is_plain(c: u8) -> bool {
    c != 0x5c && c != 0x28 && c != 0x29
}

pub open spec fn is_octal(c: u8) -> bool {
    0x30 <= c <= 0x37
}

/// The value of the octal digits `s[a..b]`.
pub open spec fn octal_value(s: Seq<u8>, a: int, b: int) -> int
    decreases b - a,
{
    if b <= a {
        0
    } else {
        octal_value(s, a, b - 1) * 8 + (s[b - 1] - 0x30)
    }
}

/// The number of octal digits (at most three) starting at `q`.
pub open spec fn octal_count(s: Seq<u8>, q: int) -> int {
    if !(0 <= q < s.len() && is_octal(s[q])) {
        0
    } else if !(q + 1 < s.len() && is_octal(s[q + 1])) {
        1
    } else if !(q + 2 < s.len() && is_octal(s[q + 2])) {
        2
    } else {
        3
    }
}

/// An escape sequence at `q`: the byte it stands for and where it ends.
/// `\n \r \t \b \f \( \) \\` stand for their characters; `\` and one to three
/// octal digits stand for the byte they denote, when it is at most 255.
pub open spec fn escape(s: Seq<u8>, q: int) -> Option<(u8, int)> {
    if !(0 <= q && q + 1 < s.len() && s[q] == 0x5c) {
        None
    } else {
        let c = s[q + 1];
        if c == 0x6e {
            Some((0x0au8, q + 2))
        } else if c == 0x72 {
            Some((0x0du8, q + 2))
        } else if c == 0x74 {
            Some((0x09u8, q + 2))
        } else if c == 0x62 {
            Some((0x08u8, q + 2))
        } else if c == 0x66 {
            Some((0x0cu8, q + 2))
        } else if c == 0x28 {
            Some((0x28u8, q + 2))
        } else if c == 0x29 {
            Some((0x29u8, q + 2))
        } else if c == 0x5c {
            Some((0x5cu8, q + 2))
        } else {
            let m = octal_count(s, q + 1);
            let v = octal_value(s, q + 1, q + 1 + m);
            if m >= 1 && v <= 255 {
                Some((v as u8, q + 1 + m))
            } else {
                None
            }
        }
    }
}

/// A backslash followed by white space, which stands for nothing: where it ends.
pub open spec fn line_continuation(s: Seq<u8>, q: int) -> Option<int> {
    if 0 <= q && q + 1 < s.len() && s[q] == 0x5c && spec_is_whitespace(s[q + 1]) {
        Some(run_end(s, q + 1, |c: u8| spec_is_whitespace(c)))
    } else {
        None
    }
}

/// The UTF-8 bytes of the character whose code is the byte `c`.
pub open spec fn char_bytes(c: u8) -> Seq<u8> {
    encode_utf8(seq![c as char])
}

/// A literal string at `p`: its content as UTF-8 bytes, and where it ends.
/// The computation aborts when a run of plain bytes, or the text of a nested
/// string, is not valid UTF-8.
pub open spec fn spec_literal(s: Seq<u8>, p: int) -> Outcome<Seq<u8>>
    decreases s.len() - p, 0int,
{
    if 0 <= p < s.len() && s[p] == 0x28 {
        literal_content(s, p + 1, Seq::empty())
    } else {
        Outcome::Rejected
    }
}

/// The content of a literal string from `q` on, `acc` holding what came before.
pub open spec fn literal_content(s: Seq<u8>, q: int, acc: Seq<u8>) -> Outcome<Seq<u8>>
    decreases s.len() - q, 1int,
{
    if !(0 <= q <= s.len()) {
        Outcome::Rejected
    } else if q < s.len() && is_plain(s[q]) {
        let r = run_end(s, q, |c: u8| is_plain(c));
        let chunk = s.subrange(q, r);
        if !(q < r <= s.len()) {
            Outcome::Rejected
        } else if !valid_utf8(chunk) {
            Outcome::Panics
        } else {
            literal_content(s, r, acc + chunk)
        }
    } else if let Some((c, e)) = escape(s, q) {
        if q < e <= s.len() {
            literal_content(s, e, acc + char_bytes(c))
        } else {
            Outcome::Rejected
        }
    } else if let Some(e) = line_continuation(s, q) {
        if q < e <= s.len() {
            literal_content(s, e, acc)
        } else {
            Outcome::Rejected
        }
    } else {
        match spec_literal(s, q) {
            Outcome::Parsed(_, e) => {
                let raw = s.subrange(q, e);
                if !(q < e <= s.len()) {
                    Outcome::Rejected
                } else if !valid_utf8(raw) {
                    Outcome::Panics
                } else {
                    literal_content(s, e, acc + raw)
                }
            },
            Outcome::Panics => Outcome::Panics,
            _ => if q < s.len() && s[q] == 0x29 {
                Outcome::Parsed(acc, q + 1)
            } else {
                Outcome::Rejected
            },
        }
    }
}

/// A byte that may stand between the brackets of a hexadecimal string.
pub open spec fn is_hex_content(c: u8) -> bool {
    c != 0x3e && (is_hex_digit(c) || spec_is_whitespace(c))
}

/// The hexadecimal digits among `s[a..b]`.
pub open spec fn hex_digits(s: Seq<u8>, a: int, b: int) -> Seq<u8>
    decreases b - a,
{
    if b <= a {
        Seq::empty()
    } else if spec_is_whitespace(s[b - 1]) {
        hex_digits(s, a, b - 1)
    } else {
        hex_digits(s, a, b - 1).push(s[b - 1])
    }
}

/// The bytes that a sequence of hexadecimal digits stands for, two digits a
/// byte; a last lone digit is completed with `0`.
pub open spec fn hex_decode(d: Seq<u8>) -> Seq<u8>
    decreases d.len(),
{
    if d.len() == 0 {
        Seq::empty()
    } else if d.len() == 1 {
        seq![(hex_value(d[0]) * 16) as u8]
    } else {
        seq![(hex_value(d[0]) * 16 + hex_value(d[1])) as u8] + hex_decode(d.skip(2))
    }
}

/// A hexadecimal string at `p`.
pub open spec fn spec_hex_string(s: Seq<u8>, p: int) -> Outcome<Seq<u8>> {
    if 0 <= p < s.len() && s[p] == 0x3c {
        let e = run_end(s, p + 1, |c: u8| is_hex_content(c));
        if e < s.len() && s[e] == 0x3e {
            Outcome::Parsed(hex_decode(hex_digits(s, p + 1, e)), e + 1)
        } else {
            Outcome::Rejected
        }
    } else {
        Outcome::Rejected
    }
}

/// A string object: a literal string, else a hexadecimal string.
pub open spec fn spec_pdf_string(s: Seq<u8>, p: int) -> Outcome<StringModel> {
    match spec_literal(s, p) {
        Outcome::Parsed(bytes, e) => Outcome::Parsed(StringModel::Literal(decode_utf8(bytes)), e),
        Outcome::Panics => Outcome::Panics,
        _ => match spec_hex_string(s, p) {
            Outcome::Parsed(bytes, e) => Outcome::Parsed(StringModel::Hexadecimal(bytes), e),
            _ => Outcome::Rejected,
        },
    }
}

pub proof fn lemma_char_bytes(c: u8)
    ensures
        valid_utf8(char_bytes(c)),
        c <= 0x7f ==> char_bytes(c) == seq![((c as u32) & 0x7F) as u8],
        c > 0x7f ==> char_bytes(c) == seq![
            0xC0 | (((c as u32) >> 6) & 0x1F) as u8,
            0x80 | ((c as u32) & 0x3F) as u8,
        ],
{
    let ch = c as char;
    assert(ch as u32 == c as u32);
    assert(seq![ch].drop_first() =~= Seq::<char>::empty());
    assert(encode_utf8(Seq::<char>::empty()) == Seq::<u8>::empty());
}

pub fn is_plain_byte(c: u8) -> (r: bool)
    ensures
        r == is_plain(c),
{
    c != 0x5c && c != 0x28 && c != 0x29
}

fn octal_count_at(s: &[u8], q: usize) -> (m: usize)
    requires
        q <= s@.len(),
    ensures
        m == octal_count(s@, q as int),
        q + m <= s@.len(),
{
    if !(q < s.len() && 0x30 <= s[q] && s[q] <= 0x37) {
        0
    } else if !(s.len() - q > 1 && 0x30 <= s[q + 1] && s[q + 1] <= 0x37) {
        1
    } else if !(s.len() - q > 2 && 0x30 <= s[q + 2] && s[q + 2] <= 0x37) {
        2
    } else {
        3
    }
}

fn escape_at(s: &[u8], q: usize) -> (r: Option<(u8, usize)>)
    requires
        q <= s@.len(),
    ensures
        r matches Some((c, e)) ==> escape(s@, q as int) == Some((c, e as int)),
        r is None ==> escape(s@, q as int) is None,
{
    if !(s.len() - q > 1 && s[q] == 0x5c) {
        return None;
    }
    let c = s[q + 1];
    if c == 0x6e {
        Some((0x0a, q + 2))
    } else if c == 0x72 {
        Some((0x0d, q + 2))
    } else if c == 0x74 {
        Some((0x09, q + 2))
    } else if c == 0x62 {
        Some((0x08, q + 2))
    } else if c == 0x66 {
        Some((0x0c, q + 2))
    } else if c == 0x28 {
        Some((0x28, q + 2))
    } else if c == 0x29 {
        Some((0x29, q + 2))
    } else if c == 0x5c {
        Some((0x5c, q + 2))
    } else {
        let m = octal_count_at(s, q + 1);
        let a = q + 1;
        if m == 0 {
            return None;
        }
        let d0 = (s[a] - 0x30) as u32;
        assert(octal_value(s@, a as int, a as int) == 0);
        assert(octal_value(s@, a as int, a + 1) == d0);
        let v: u32 = if m == 1 {
            d0
        } else {
            let d1 = (s[a + 1] - 0x30) as u32;
            assert(octal_value(s@, a as int, a + 2) == d0 * 8 + d1);
            if m == 2 {
                d0 * 8 + d1
            } else {
                let d2 = (s[a + 2] - 0x30) as u32;
                assert(octal_value(s@, a as int, a + 3) == (d0 * 8 + d1) * 8 + d2);
                (d0 * 8 + d1) * 8 + d2
            }
        };
        if v <= 255 {
            Some((v as u8, q + 1 + m))
        } else {
            None
        }
    }
}

/// A backslash followed by white space, which stands for nothing: where it ends.
fn line_continuation_at(s: &[u8], q: usize) -> (r: Option<usize>)
    requires
        q <= s@.len(),
    ensures
        r matches Some(e) ==> line_continuation(s@, q as int) == Some(e as int),
        r is None ==> line_continuation(s@, q as int) is None,
{
    if s.len() - q > 1 && s[q] == 0x5c && is_whitespace(s[q + 1]) {
        let mut i = q + 1;
        while i < s.len() && is_whitespace(s[i])
            invariant
                q + 1 <= i <= s@.len(),
                run_end(s@, i as int, |c: u8| spec_is_whitespace(c)) == run_end(
                    s@,
                    q + 1,
                    |c: u8| spec_is_whitespace(c),
                ),
            decreases s@.len() - i,
        {
            i = i + 1;
        }
        Some(i)
    } else {
        None
    }
}

/// Appends the UTF-8 bytes of the character whose code is `c`.
fn push_char_bytes(buf: &mut Vec<u8>, c: u8)
    ensures
        final(buf)@ == old(buf)@ + char_bytes(c),
{
    proof {
        lemma_char_bytes(c);
    }
    let v = c as u32;
    if v <= 0x7f {
        buf.push((v & 0x7F) as u8);
        assert(buf@ =~= old(buf)@ + char_bytes(c));
    } else {
        buf.push(0xC0 | ((v >> 6) & 0x1F) as u8);
        buf.push(0x80 | (v & 0x3F) as u8);
        assert(buf@ =~= old(buf)@ + char_bytes(c));
    }
}

/// Parses a literal string at `p`, giving its content as UTF-8 bytes.
pub fn literal_at(s: &[u8], p: usize) -> (r: Result<(usize, Vec<u8>), ParseError>)
    requires
        p <= s@.len(),
    ensures
        agrees(r, spec_literal(s@, p as int)),
        r matches Ok((e, b)) ==> p < e <= s@.len() && valid_utf8(b@),
    decreases s@.len() - p,
{
    if !(p < s.len() && s[p] == 0x28) {
        return Err(ParseError::Error);
    }
    let mut acc: Vec<u8> = Vec::new();
    let mut q = p + 1;
    assert(valid_utf8(acc@)) by {
        assert(acc@ =~= encode_utf8(Seq::<char>::empty()));
    }
    loop
        invariant
            p + 1 <= q <= s@.len(),
            p < s@.len() && s@[p as int] == 0x28,
            spec_literal(s@, p as int) == literal_content(s@, q as int, acc@),
            valid_utf8(acc@),
        decreases s@.len() - q,
    {
        if q < s.len() && is_plain_byte(s[q]) {
            proof {
                lemma_run_end(s@, q as int, |c: u8| is_plain(c));
            }
            let mut r = q;
            while r < s.len() && is_plain_byte(s[r])
                invariant
                    q <= r <= s@.len(),
                    run_end(s@, r as int, |c: u8| is_plain(c)) == run_end(
                        s@,
                        q as int,
                        |c: u8| is_plain(c),
                    ),
                decreases s@.len() - r,
            {
                r = r + 1;
            }
            if !utf8_valid(slice_subrange(s, q, r)) {
                return Err(ParseError::Abort);
            }
            push_range(&mut acc, s, q, r);
            q = r;
        } else if let Some((c, e)) = escape_at(s, q) {
            proof {
                lemma_char_bytes(c);
            }
            if !(q < e) {
                return Err(ParseError::Error);
            }
            push_char_bytes(&mut acc, c);
            q = e;
        } else if let Some(e) = line_continuation_at(s, q) {
            proof {
                lemma_run_end(s@, q + 1, |c: u8| spec_is_whitespace(c));
            }
            q = e;
        } else {
            match literal_at(s, q) {
                Ok((e, _inner)) => {
                    if !utf8_valid(slice_subrange(s, q, e)) {
                        return Err(ParseError::Abort);
                    }
                    push_range(&mut acc, s, q, e);
                    q = e;
                },
                Err(ParseError::Abort) => {
                    return Err(ParseError::Abort);
                },
                Err(_) => {
                    if q < s.len() && s[q] == 0x29 {
                        return Ok((q + 1, acc));
                    } else {
                        return Err(ParseError::Error);
                    }
                },
            }
        }
    }
}

/// Parses a hexadecimal string at `p`, giving the bytes it stands for.
pub fn hex_string_at(s: &[u8], p: usize) -> (r: Result<(usize, Vec<u8>), ParseError>)
    requires
        p <= s@.len(),
    ensures
        agrees(r, spec_hex_string(s@, p as int)),
        r matches Ok((e, _)) ==> p < e <= s@.len(),
{
    if !(p < s.len() && s[p] == 0x3c) {
        return Err(ParseError::Error);
    }
    proof {
        lemma_run_end(s@, p + 1, |c: u8| is_hex_content(c));
    }
    let mut digits: Vec<u8> = Vec::new();
    let mut e = p + 1;
    while e < s.len() && s[e] != 0x3e && (is_hex_digit_byte(s[e]) || is_whitespace(s[e]))
        invariant
            p + 1 <= e <= s@.len(),
            run_end(s@, e as int, |c: u8| is_hex_content(c)) == run_end(
                s@,
                p + 1,
                |c: u8| is_hex_content(c),
            ),
            digits@ == hex_digits(s@, p + 1, e as int),
            forall|j: int| 0 <= j < digits@.len() ==> is_hex_digit(#[trigger] digits@[j]),
        decreases s@.len() - e,
    {
        if !is_whitespace(s[e]) {
            digits.push(s[e]);
        }
        e = e + 1;
    }
    if !(e < s.len() && s[e] == 0x3e) {
        return Err(ParseError::Error);
    }
    let mut out: Vec<u8> = Vec::new();
    let mut k: usize = 0;
    assert(digits@.skip(0) =~= digits@);
    assert(out@ + hex_decode(digits@) =~= hex_decode(digits@));
    while k < digits.len()
        invariant
            k <= digits@.len(),
            forall|j: int| 0 <= j < digits@.len() ==> is_hex_digit(#[trigger] digits@[j]),
            hex_decode(hex_digits(s@, p + 1, e as int)) == out@ + hex_decode(digits@.skip(k as int)),
            digits@ == hex_digits(s@, p + 1, e as int),
        decreases digits@.len() - k,
    {
        let ghost rest = digits@.skip(k as int);
        let hi = hex_digit_value(digits[k]);
        if digits.len() - k == 1 {
            out.push(hi * 16);
            proof {
                assert(hex_decode(rest) == seq![(hex_value(rest[0]) * 16) as u8]);
                assert(digits@.skip(k + 1) =~= Seq::<u8>::empty());
                assert(hex_decode(digits@.skip(k + 1)) == Seq::<u8>::empty());
            }
            k = k + 1;
        } else {
            let lo = hex_digit_value(digits[k + 1]);
            out.push(hi * 16 + lo);
            proof {
                assert(rest.skip(2) =~= digits@.skip(k + 2));
            }
            k = k + 2;
        }
    }
    assert(digits@.skip(k as int) =~= Seq::<u8>::empty());
    assert(out@ =~= out@ + hex_decode(digits@.skip(k as int)));
    Ok((e + 1, out))
}

/// Parses a string object at `p`: a literal string, else a hexadecimal string.
pub fn pdf_string_at(s: &[u8], p: usize) -> (r: Result<(usize, PdfString), ParseError>)
    requires
        p <= s@.len(),
    ensures
        agrees(r, spec_pdf_string(s@, p as int)),
        r matches Ok((e, _)) ==> p < e <= s@.len(),
{
    match literal_at(s, p) {
        Ok((e, bytes)) => {
            let ghost b = bytes@;
            match string_from_utf8(bytes) {
                Some(text) => Ok((e, PdfString::Literal(text))),
                None => Err(ParseError::Error),
            }
        },
        Err(ParseError::Abort) => Err(ParseError::Abort),
        Err(_) => match hex_string_at(s, p) {
            Ok((e, bytes)) => Ok((e, PdfString::Hexadecimal(bytes))),
            Err(_) => Err(ParseError::Error),
        },
    }
}


/// Parses a string object at the start of `input`.
pub fn pdf_string(input: &[u8]) -> (r: Result<(&[u8], PdfString), ParseError>)
    ensures
        rest_agrees(input@, r, spec_pdf_string(input@, 0)),
{
    with_rest(input, pdf_string_at(input, 0), Ghost(spec_pdf_string(input@, 0)))
}

} // verus!
