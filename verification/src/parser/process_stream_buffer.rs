//! Splitting a PDF buffer into its text and the data of its streams: each
//! stream's data is taken out and replaced by a placeholder `{ID<n>}`.

use vstd::prelude::*;
use vstd::string::StringExecFns;
use vstd::utf8::{decode_utf8, valid_utf8};

use crate::parser::object::{endstream_tag, find_tag, find_tag_at, lemma_find_tag, stream_tag};
use crate::parser::outcome::{has_tag, push_range};
use crate::parser::whitespace::is_eol_byte;
use crate::text::{string_from_utf8, utf8_valid};

verus! {

broadcast use vstd::utf8::group_utf8_lib;

/// Why a buffer could not be split.
#[derive(Debug, PartialEq)]
pub enum StreamBufferError {
    /// Text outside the streams is not valid UTF-8.
    InvalidUtf8,
    /// A stream is not closed; the missing marker is named.
    InvalidStreamDeclaration(String),
}

/// What splitting a buffer gives: the text with placeholders and the data
/// of the streams, or the reason it fails.
pub enum Processed {
    Done(Seq<u8>, Seq<Seq<u8>>),
    InvalidUtf8,
    MissingEndstream,
    /// A stream's data would end before it starts (only end-of-line bytes
    /// stand between `stream` and `endstream`); the split cannot be made.
    Panics,
}

/// An end-of-line marker at `p` (CR LF, CR or LF): its bytes and where it ends.
pub open spec fn endline(s: Seq<u8>, p: int) -> (Seq<u8>, int) {
    if 0 <= p < s.len() && s[p] == 0x0d {
        if p + 1 < s.len() && s[p + 1] == 0x0a {
            (seq![0x0du8, 0x0a], p + 2)
        } else {
            (seq![0x0du8], p + 1)
        }
    } else if 0 <= p < s.len() && s[p] == 0x0a {
        (seq![0x0au8], p + 1)
    } else {
        (Seq::empty(), p)
    }
}

/// The start of the run of CR and LF bytes that ends at `e`.
pub open spec fn eol_back(s: Seq<u8>, e: int) -> int
    decreases e,
{
    if 0 < e <= s.len() && is_eol_byte(s[e - 1]) {
        eol_back(s, e - 1)
    } else {
        e
    }
}

/// The decimal digits of `n`.
pub open spec fn decimal(n: nat) -> Seq<u8>
    decreases n,
{
    if n < 10 {
        seq![(0x30 + n) as u8]
    } else {
        decimal(n / 10).push((0x30 + n % 10) as u8)
    }
}

/// The placeholder `{ID<n>}` for the stream with index `n`.
pub open spec fn placeholder(n: nat) -> Seq<u8> {
    seq![0x7bu8, 0x49, 0x44] + decimal(n) + seq![0x7du8]
}

/// Where the data of the stream whose keyword `stream` is at `k` starts:
/// after the keyword and one end-of-line marker.
pub open spec fn data_start(s: Seq<u8>, k: int) -> int {
    endline(s, k + 6).1
}

/// Where the `endstream` that closes it is, or -1.
pub open spec fn endstream_at(s: Seq<u8>, k: int) -> int {
    find_tag(s, data_start(s, k), endstream_tag())
}

/// Where its data ends: before the CR and LF bytes that precede `endstream`.
pub open spec fn data_end(s: Seq<u8>, k: int) -> int {
    eol_back(s, endstream_at(s, k))
}

/// Where the text goes on after it: past `endstream` and one end-of-line marker.
pub open spec fn after_stream(s: Seq<u8>, k: int) -> int {
    endline(s, endstream_at(s, k) + 9).1
}

/// The text that stands for the stream, the `n`-th one: its keywords and
/// end-of-line bytes, with the placeholder in place of its data.
pub open spec fn stream_text(s: Seq<u8>, k: int, n: nat) -> Seq<u8> {
    stream_tag() + endline(s, k + 6).0 + placeholder(n) + s.subrange(
        data_end(s, k),
        endstream_at(s, k),
    ) + endstream_tag() + endline(s, endstream_at(s, k) + 9).0
}

/// Whether the stream at `k` can be taken out: it is closed, and its data
/// does not end before it starts.
pub open spec fn stream_splits(s: Seq<u8>, k: int) -> bool {
    &&& endstream_at(s, k) >= 0
    &&& data_start(s, k) <= data_end(s, k)
    &&& after_stream(s, k) <= s.len()
}

/// The text goes on after the stream's keyword.
pub proof fn lemma_after_stream(s: Seq<u8>, k: int)
    requires
        0 <= k,
        endstream_at(s, k) >= 0,
    ensures
        k + 6 <= data_start(s, k) <= endstream_at(s, k),
        endstream_at(s, k) + 9 <= after_stream(s, k),
        has_tag(s, endstream_at(s, k), endstream_tag()),
{
    lemma_find_tag(s, data_start(s, k), endstream_tag());
}

/// Splitting from `pos` on, with the text `out` and the stream data
/// `chunks` collected so far.
pub open spec fn process_from(s: Seq<u8>, pos: int, out: Seq<u8>, chunks: Seq<Seq<u8>>) -> Processed
    decreases s.len() - pos,
{
    if !(0 <= pos < s.len()) {
        Processed::Done(out, chunks)
    } else {
        let k = find_tag(s, pos, stream_tag());
        if k < 0 {
            let seg = s.subrange(pos, s.len() as int);
            if valid_utf8(seg) {
                Processed::Done(out + seg, chunks)
            } else {
                Processed::InvalidUtf8
            }
        } else {
            let seg = s.subrange(pos, k);
            if !valid_utf8(seg) {
                Processed::InvalidUtf8
            } else if endstream_at(s, k) < 0 {
                Processed::MissingEndstream
            } else if !stream_splits(s, k) {
                Processed::Panics
            } else {
                proof {
                    lemma_find_tag(s, pos, stream_tag());
                    lemma_after_stream(s, k);
                }
                process_from(
                    s,
                    after_stream(s, k),
                    out + seg + stream_text(s, k, chunks.len()),
                    chunks.push(s.subrange(data_start(s, k), data_end(s, k))),
                )
            }
        }
    }
}

/// Splitting a whole buffer.
pub open spec fn spec_process(s: Seq<u8>) -> Processed {
    process_from(s, 0, Seq::empty(), Seq::empty())
}

pub open spec fn chunks_view(c: Seq<Vec<u8>>) -> Seq<Seq<u8>> {
    c.map_values(|v: Vec<u8>| v@)
}

pub proof fn lemma_eol_back(s: Seq<u8>, e: int)
    ensures
        e > 0 ==> 0 <= eol_back(s, e),
        eol_back(s, e) <= e,
        forall|i: int| eol_back(s, e) <= i < e ==> is_eol_byte(#[trigger] s[i]),
    decreases e,
{
    if 0 < e <= s.len() && is_eol_byte(s[e - 1]) {
        lemma_eol_back(s, e - 1);
    }
}

/// The pieces with the fillers between them: `pieces[0] + fillers[0] +
/// pieces[1] + ... + fillers[n-1] + pieces[n]`.
pub open spec fn interleave(pieces: Seq<Seq<u8>>, fillers: Seq<Seq<u8>>) -> Seq<u8>
    decreases fillers.len(),
{
    if fillers.len() == 0 || pieces.len() == 0 {
        if pieces.len() > 0 {
            pieces[0]
        } else {
            Seq::empty()
        }
    } else {
        interleave(pieces.drop_last(), fillers.drop_last()) + fillers.last() + pieces.last()
    }
}

/// The placeholders `{ID0}` to `{ID<n-1>}`.
pub open spec fn placeholders(n: nat) -> Seq<Seq<u8>> {
    Seq::new(n, |i: int| placeholder(i as nat))
}

/// Appending to the last piece appends to the whole.
proof fn lemma_interleave_extend(pieces: Seq<Seq<u8>>, fillers: Seq<Seq<u8>>, x: Seq<u8>)
    requires
        pieces.len() == fillers.len() + 1,
    ensures
        interleave(pieces.drop_last().push(pieces.last() + x), fillers) == interleave(pieces, fillers) + x,
{
    let p2 = pieces.drop_last().push(pieces.last() + x);
    if fillers.len() == 0 {
        assert(p2[0] == pieces[0] + x);
    } else {
        assert(p2.drop_last() =~= pieces.drop_last());
        assert(interleave(pieces, fillers) + x =~= interleave(pieces.drop_last(), fillers.drop_last())
            + fillers.last() + (pieces.last() + x));
    }
}

/// Adding a filler and a new piece.
proof fn lemma_interleave_push(pieces: Seq<Seq<u8>>, fillers: Seq<Seq<u8>>, f: Seq<u8>, p: Seq<u8>)
    requires
        pieces.len() == fillers.len() + 1,
    ensures
        interleave(pieces.push(p), fillers.push(f)) == interleave(pieces, fillers) + f + p,
{
    assert(pieces.push(p).drop_last() =~= pieces);
    assert(fillers.push(f).drop_last() =~= fillers);
}

/// An end-of-line marker's bytes are those of the data where it is.
proof fn lemma_endline_bytes(s: Seq<u8>, p: int)
    requires
        0 <= p <= s.len(),
    ensures
        p <= endline(s, p).1 <= s.len(),
        endline(s, p).0 == s.subrange(p, endline(s, p).1),
{
    if 0 <= p < s.len() && s[p] == 0x0d {
        if p + 1 < s.len() && s[p + 1] == 0x0a {
            assert(s.subrange(p, p + 2) =~= seq![0x0du8, 0x0a]);
        } else {
            assert(s.subrange(p, p + 1) =~= seq![0x0du8]);
        }
    } else if 0 <= p < s.len() && s[p] == 0x0a {
        assert(s.subrange(p, p + 1) =~= seq![0x0au8]);
    } else {
        assert(s.subrange(p, p) =~= Seq::<u8>::empty());
    }
}

/// The run of end-of-line bytes that ends at `e` starts after a byte that
/// is none.
proof fn lemma_eol_back_stops(s: Seq<u8>, e: int)
    requires
        0 <= e <= s.len(),
    ensures
        0 < eol_back(s, e) ==> !is_eol_byte(s[eol_back(s, e) - 1]),
    decreases e,
{
    if 0 < e <= s.len() && is_eol_byte(s[e - 1]) {
        lemma_eol_back_stops(s, e - 1);
    }
}

/// No chunk of data ends with an end-of-line byte.
pub open spec fn chunks_trimmed(chunks: Seq<Seq<u8>>) -> bool {
    forall|j: int| 0 <= j < chunks.len() && chunks[j].len() > 0 ==> !is_eol_byte(#[trigger] chunks[j].last())
}

/// One stream taken out at `k` keeps the text and the data in step.
#[verifier::rlimit(40)]
proof fn lemma_stream_step(s: Seq<u8>, pos: int, k: int, out: Seq<u8>, chunks: Seq<Seq<u8>>, pieces: Seq<Seq<u8>>) -> (p2: Seq<Seq<u8>>)
    requires
        0 <= pos <= k,
        has_tag(s, k, stream_tag()),
        endstream_at(s, k) >= 0,
        stream_splits(s, k),
        pieces.len() == chunks.len() + 1,
        out == interleave(pieces, placeholders(chunks.len())),
        s.subrange(0, pos) == interleave(pieces, chunks),
    ensures
        p2.len() == chunks.len() + 2,
        out + s.subrange(pos, k) + stream_text(s, k, chunks.len()) == interleave(p2, placeholders(chunks.len() + 1)),
        s.subrange(0, after_stream(s, k)) == interleave(
            p2,
            chunks.push(s.subrange(data_start(s, k), data_end(s, k))),
        ),
        s.subrange(data_start(s, k), data_end(s, k)).len() > 0 ==> !is_eol_byte(
            s.subrange(data_start(s, k), data_end(s, k)).last(),
        ),
{
    let n = chunks.len();
    let seg = s.subrange(pos, k);
    lemma_after_stream(s, k);
    let e0 = endstream_at(s, k);
    let ds = data_start(s, k);
    let de = data_end(s, k);
    let af = after_stream(s, k);
    lemma_eol_back(s, e0);
    lemma_eol_back_stops(s, e0);
    lemma_endline_bytes(s, k + 6);
    lemma_endline_bytes(s, e0 + 9);
    let head = stream_tag() + endline(s, k + 6).0;
    let tail = s.subrange(de, e0) + endstream_tag() + endline(s, e0 + 9).0;
    let data = s.subrange(ds, de);
    assert(head =~= s.subrange(k, ds));
    assert(tail =~= s.subrange(de, af));
    let p1 = pieces.drop_last().push(pieces.last() + (seg + head));
    lemma_interleave_extend(pieces, placeholders(n), seg + head);
    lemma_interleave_extend(pieces, chunks, seg + head);
    let p2 = p1.push(tail);
    lemma_interleave_push(p1, placeholders(n), placeholder(n), tail);
    lemma_interleave_push(p1, chunks, data, tail);
    assert(placeholders(n).push(placeholder(n)) =~= placeholders(n + 1));
    assert(out + seg + stream_text(s, k, n) =~= interleave(pieces, placeholders(n)) + (seg + head) + placeholder(n)
        + tail);
    assert(s.subrange(0, af) =~= s.subrange(0, pos) + (seg + head) + data + tail);
    p2
}

/// The text `out` and the data `chunks` give back the buffer `s`: for some
/// pieces, the text is the pieces with the placeholders between them and
/// the buffer is the pieces with the data between them.
pub open spec fn gives_back(s: Seq<u8>, out: Seq<u8>, chunks: Seq<Seq<u8>>) -> bool {
    exists|pieces: Seq<Seq<u8>>|
        pieces.len() == chunks.len() + 1 && #[trigger] interleave(pieces, placeholders(chunks.len())) == out
            && interleave(pieces, chunks) == s
}

/// The rest of the buffer, which holds no stream, ends the text.
proof fn lemma_last_piece(s: Seq<u8>, pos: int, out: Seq<u8>, chunks: Seq<Seq<u8>>, pieces: Seq<Seq<u8>>)
    requires
        0 <= pos <= s.len(),
        pieces.len() == chunks.len() + 1,
        out == interleave(pieces, placeholders(chunks.len())),
        s.subrange(0, pos) == interleave(pieces, chunks),
    ensures
        gives_back(s, out + s.subrange(pos, s.len() as int), chunks),
{
    let n = chunks.len();
    let seg = s.subrange(pos, s.len() as int);
    lemma_interleave_extend(pieces, placeholders(n), seg);
    lemma_interleave_extend(pieces, chunks, seg);
    assert(s =~= s.subrange(0, pos) + seg);
    let p2 = pieces.drop_last().push(pieces.last() + seg);
    assert(interleave(p2, placeholders(n)) == out + seg);
}

/// Splitting from `pos` on keeps the text and the data in step: the text is
/// the pieces with the placeholders between them, and the data read so far
/// is the same pieces with the streams' data between them.
proof fn lemma_process_round_trip(s: Seq<u8>, pos: int, out: Seq<u8>, chunks: Seq<Seq<u8>>, pieces: Seq<Seq<u8>>)
    requires
        0 <= pos <= s.len(),
        pieces.len() == chunks.len() + 1,
        out == interleave(pieces, placeholders(chunks.len())),
        s.subrange(0, pos) == interleave(pieces, chunks),
        chunks_trimmed(chunks),
    ensures
        process_from(s, pos, out, chunks) matches Processed::Done(o2, c2) ==> gives_back(s, o2, c2)
            && chunks_trimmed(c2),
    decreases s.len() - pos,
{
    if !(0 <= pos < s.len()) {
        assert(s.subrange(pos, s.len() as int) =~= Seq::<u8>::empty());
        assert(out + s.subrange(pos, s.len() as int) =~= out);
        lemma_last_piece(s, pos, out, chunks, pieces);
    } else {
        let k = find_tag(s, pos, stream_tag());
        let n = chunks.len();
        if k < 0 {
            lemma_last_piece(s, pos, out, chunks, pieces);
        } else {
            let seg = s.subrange(pos, k);
            if valid_utf8(seg) && endstream_at(s, k) >= 0 && stream_splits(s, k) {
                lemma_find_tag(s, pos, stream_tag());
                lemma_after_stream(s, k);
                let p2 = lemma_stream_step(s, pos, k, out, chunks, pieces);
                let c2 = chunks.push(s.subrange(data_start(s, k), data_end(s, k)));
                assert forall|j: int| 0 <= j < c2.len() && c2[j].len() > 0 implies !is_eol_byte(#[trigger] c2[j].last()) by {
                    if j < chunks.len() {
                        assert(c2[j] == chunks[j]);
                    }
                }
                lemma_process_round_trip(
                    s,
                    after_stream(s, k),
                    out + seg + stream_text(s, k, n),
                    chunks.push(s.subrange(data_start(s, k), data_end(s, k))),
                    p2,
                );
            }
        }
    }
}

/// Splitting a buffer loses nothing: the text is the buffer with each
/// stream's data replaced by its placeholder, in order, so putting the data
/// back in place of the placeholders gives back the buffer; and no chunk of
/// data ends with an end-of-line byte.
pub proof fn lemma_process_gives_back(s: Seq<u8>)
    ensures
        spec_process(s) matches Processed::Done(out, chunks) ==> gives_back(s, out, chunks) && chunks_trimmed(
            chunks,
        ),
{
    let pieces = seq![Seq::<u8>::empty()];
    assert(s.subrange(0, 0) =~= Seq::<u8>::empty());
    assert(interleave(pieces, Seq::<Seq<u8>>::empty()) == Seq::<u8>::empty());
    assert(placeholders(0) =~= Seq::<Seq<u8>>::empty());
    lemma_process_round_trip(s, 0, Seq::empty(), Seq::empty(), pieces);
}

/// Bytes below 0x80 form valid UTF-8.
pub proof fn lemma_ascii_valid(b: Seq<u8>)
    requires
        forall|i: int| 0 <= i < b.len() ==> #[trigger] b[i] < 0x80,
    ensures
        valid_utf8(b),
{
    assert(b.subrange(0, 0) =~= Seq::<u8>::empty());
    vstd::utf8::partial_valid_utf8_extend_ascii_block(b, 0, b.len() as int);
    assert(b.subrange(0, b.len() as int) =~= b);
}

pub proof fn lemma_decimal_ascii(n: nat)
    ensures
        forall|i: int| 0 <= i < decimal(n).len() ==> #[trigger] decimal(n)[i] < 0x80,
    decreases n,
{
    if n < 10 {
        assert((0x30 + n) as u8 == 0x30 + n);
        assert(decimal(n) == seq![(0x30 + n) as u8]);
    } else {
        lemma_decimal_ascii(n / 10);
        let d = n % 10;
        assert((0x30 + d) as u8 == 0x30 + d);
        assert(decimal(n) == decimal(n / 10).push((0x30 + d) as u8));
    }
}

/// Appends the decimal digits of `n`.
pub(crate) fn push_decimal(buf: &mut Vec<u8>, n: usize)
    ensures
        final(buf)@ == old(buf)@ + decimal(n as nat),
    decreases n,
{
    if n >= 10 {
        push_decimal(buf, n / 10);
    }
    let d = (n % 10) as u8;
    buf.push(0x30 + d);
    assert(buf@ =~= old(buf)@ + decimal(n as nat));
}

/// Copies an end-of-line marker at `position` (CR LF, CR or LF) to
/// `output` and moves past it; anything else is left as it is.
pub fn handle_endline_markers(data: &[u8], position: &mut usize, output: &mut Vec<u8>)
    ensures
        final(output)@ == old(output)@ + endline(data@, *old(position) as int).0,
        *final(position) as int == endline(data@, *old(position) as int).1,
        *old(position) <= data@.len() ==> *final(position) <= data@.len(),
{
    if *position >= data.len() {
        assert(output@ =~= old(output)@ + Seq::<u8>::empty());
        return;
    }
    if data[*position] == 0x0d {
        output.push(0x0d);
        *position = *position + 1;
        if *position < data.len() && data[*position] == 0x0a {
            output.push(0x0a);
            *position = *position + 1;
        }
    } else if data[*position] == 0x0a {
        output.push(0x0a);
        *position = *position + 1;
    }
    assert(output@ =~= old(output)@ + endline(data@, *old(position) as int).0);
}

/// The text that stands for a stream is valid UTF-8.
pub proof fn lemma_stream_text_valid(s: Seq<u8>, k: int, n: nat)
    requires
        0 <= k,
        stream_splits(s, k),
    ensures
        valid_utf8(stream_text(s, k, n)),
{
    let e0 = endstream_at(s, k);
    let b = data_end(s, k);
    let m1 = endline(s, k + 6).0;
    let m2 = endline(s, e0 + 9).0;
    let tail = s.subrange(b, e0);
    lemma_eol_back(s, e0);
    lemma_decimal_ascii(n);
    lemma_ascii_valid(stream_tag());
    lemma_ascii_valid(endstream_tag());
    lemma_ascii_valid(m1);
    lemma_ascii_valid(m2);
    lemma_ascii_valid(placeholder(n));
    assert forall|i: int| 0 <= i < tail.len() implies #[trigger] tail[i] < 0x80 by {
        assert(is_eol_byte(s[b + i]));
    }
    lemma_ascii_valid(tail);
    vstd::utf8::valid_utf8_concat(stream_tag(), m1);
    vstd::utf8::valid_utf8_concat(stream_tag() + m1, placeholder(n));
    vstd::utf8::valid_utf8_concat(stream_tag() + m1 + placeholder(n), tail);
    vstd::utf8::valid_utf8_concat(stream_tag() + m1 + placeholder(n) + tail, endstream_tag());
    vstd::utf8::valid_utf8_concat(stream_tag() + m1 + placeholder(n) + tail + endstream_tag(), m2);
}

/// Takes out the stream whose keyword is at `k`: appends the text that
/// stands for it and its data, and gives where the text goes on.
#[verifier::rlimit(50)]
#[verifier::spinoff_prover]
fn take_stream(s: &[u8], k: usize, output: &mut Vec<u8>, chunks: &mut Vec<Vec<u8>>) -> (r: Result<
    usize,
    StreamBufferError,
>)
    requires
        has_tag(s@, k as int, stream_tag()),
    ensures
        endstream_at(s@, k as int) < 0 ==> (r matches Err(
            StreamBufferError::InvalidStreamDeclaration(m),
        ) && m@ == seq!['e', 'n', 'd', 's', 't', 'r', 'e', 'a', 'm']),
        endstream_at(s@, k as int) >= 0 && stream_splits(s@, k as int) ==> r == Ok::<
            usize,
            StreamBufferError,
        >(after_stream(s@, k as int) as usize) && final(output)@ == old(output)@ + stream_text(
            s@,
            k as int,
            old(chunks)@.len(),
        ) && chunks_view(final(chunks)@) == chunks_view(old(chunks)@).push(
            s@.subrange(data_start(s@, k as int), data_end(s@, k as int)),
        ),
        endstream_at(s@, k as int) >= 0 && !stream_splits(s@, k as int) ==> r is Err,
{
    let et: [u8; 9] = [0x65, 0x6e, 0x64, 0x73, 0x74, 0x72, 0x65, 0x61, 0x6d];
    assert(et@ == endstream_tag());
    let ghost out0 = output@;
    output.push(0x73);
    output.push(0x74);
    output.push(0x72);
    output.push(0x65);
    output.push(0x61);
    output.push(0x6d);
    assert(output@ =~= out0 + stream_tag());
    assert(k + 6 <= s.len());
    let mut position = k + 6;
    handle_endline_markers(s, &mut position, output);
    let e0 = match find_tag_at(s, position, &et) {
        Some(e) => e,
        None => {
            proof {
                reveal_strlit("endstream");
            }
            return Err(StreamBufferError::InvalidStreamDeclaration(String::from_str("endstream")));
        },
    };
    let mut endstream_start = e0;
    while endstream_start > 0 && (s[endstream_start - 1] == 0x0a || s[endstream_start - 1] == 0x0d)
        invariant
            endstream_start <= e0 < s@.len(),
            eol_back(s@, endstream_start as int) == eol_back(s@, e0 as int),
        decreases endstream_start,
    {
        endstream_start = endstream_start - 1;
    }
    if endstream_start < position {
        return Err(StreamBufferError::InvalidUtf8);
    }
    let chunk = vstd::slice::slice_to_vec(vstd::slice::slice_subrange(s, position, endstream_start));
    let n = chunks.len();
    output.push(0x7b);
    output.push(0x49);
    output.push(0x44);
    push_decimal(output, n);
    output.push(0x7d);
    push_range(output, s, endstream_start, e0);
    let ghost ch0 = chunks@;
    chunks.push(chunk);
    assert(chunks_view(chunks@) =~= chunks_view(ch0).push(
        s@.subrange(position as int, endstream_start as int),
    ));
    output.push(0x65);
    output.push(0x6e);
    output.push(0x64);
    output.push(0x73);
    output.push(0x74);
    output.push(0x72);
    output.push(0x65);
    output.push(0x61);
    output.push(0x6d);
    let mut after = e0 + 9;
    handle_endline_markers(s, &mut after, output);
    assert(output@ =~= out0 + stream_text(s@, k as int, n as nat));
    Ok(after)
}

/// Splits `data` into its text, where the data of each stream is replaced by
/// `{ID<n>}` (`n` counting the streams from 0), and the data of the streams.
/// The text outside the streams must be valid UTF-8, and each `stream` must
/// be followed by an `endstream`. A stream whose data would end before it
/// starts cannot be split.
pub fn process_bytes(data: Vec<u8>) -> (r: Result<(String, Vec<Vec<u8>>), StreamBufferError>)
    requires
        !(spec_process(data@) is Panics),
    ensures
        match spec_process(data@) {
            Processed::Done(o, c) => r matches Ok((t, cs)) && t@ == decode_utf8(o) && chunks_view(
                cs@,
            ) == c,
            Processed::InvalidUtf8 => r matches Err(StreamBufferError::InvalidUtf8),
            Processed::MissingEndstream => r matches Err(
                StreamBufferError::InvalidStreamDeclaration(m),
            ) && m@ == seq!['e', 'n', 'd', 's', 't', 'r', 'e', 'a', 'm'],
            Processed::Panics => false,
        },
{
    let s = data.as_slice();
    let st: [u8; 6] = [0x73, 0x74, 0x72, 0x65, 0x61, 0x6d];
    assert(st@ == stream_tag());
    let mut position: usize = 0;
    let mut output: Vec<u8> = Vec::new();
    let mut chunks: Vec<Vec<u8>> = Vec::new();
    assert(chunks_view(chunks@) =~= Seq::<Seq<u8>>::empty());
    proof {
        lemma_ascii_valid(output@);
    }
    while position < s.len()
        invariant_except_break
            position <= s@.len(),
            s@ == data@,
            st@ == stream_tag(),
            spec_process(data@) == process_from(s@, position as int, output@, chunks_view(chunks@)),
            !(spec_process(data@) is Panics),
            valid_utf8(output@),
        ensures
            s@ == data@,
            match spec_process(data@) {
                Processed::Done(o, c) => o == output@ && c == chunks_view(chunks@),
                _ => false,
            },
            valid_utf8(output@),
        decreases s@.len() - position,
    {
        let ghost pos0 = position as int;
        let ghost out0 = output@;
        let found = find_tag_at(s, position, &st);
        if found.is_none() {
            if !utf8_valid(vstd::slice::slice_subrange(s, position, s.len())) {
                return Err(StreamBufferError::InvalidUtf8);
            }
            push_range(&mut output, s, position, s.len());
            proof {
                vstd::utf8::valid_utf8_concat(out0, s@.subrange(pos0, s@.len() as int));
            }
            position = s.len();
            break;
        }
        let k = found.unwrap();
        if !utf8_valid(vstd::slice::slice_subrange(s, position, k)) {
            return Err(StreamBufferError::InvalidUtf8);
        }
        push_range(&mut output, s, position, k);
        let ghost seg = s@.subrange(pos0, k as int);
        let ghost n = chunks@.len();
        position = take_stream(s, k, &mut output, &mut chunks)?;
        proof {
            lemma_find_tag(s@, pos0, stream_tag());
            lemma_after_stream(s@, k as int);
            lemma_stream_text_valid(s@, k as int, n);
            vstd::utf8::valid_utf8_concat(out0, seg);
            vstd::utf8::valid_utf8_concat(out0 + seg, stream_text(s@, k as int, n));
            assert(output@ =~= out0 + seg + stream_text(s@, k as int, n));
        }
    }
    match string_from_utf8(output) {
        Some(text) => Ok((text, chunks)),
        None => Err(StreamBufferError::InvalidUtf8),
    }
}

} // verus!
