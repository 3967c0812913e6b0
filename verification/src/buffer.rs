//! The byte store of a text: a gap buffer of UTF-8 bytes, and the
//! arithmetic of characters and lines over such bytes.

use gapbuf::GapBuffer;
use vstd::prelude::*;
use vstd::utf8::*;

verus! {

/// No text holds more bytes than this, so that offsets never overflow.
pub const MAX_LEN: usize = 0x3fff_ffff;

/// A gap buffer of bytes: the outside crate's `GapBuffer<u8>`, of which
/// nothing but the wrappers below is believed.
#[verifier::external_body]
pub struct GapBytes {
    inner: GapBuffer<u8>,
}

/// The bytes that a gap buffer holds, in order, the gap left out.
pub uninterp spec fn buffer_bytes(buf: &GapBytes) -> Seq<u8>;

/// The offset of the gap of a gap buffer: the number of bytes before it.
pub uninterp spec fn buffer_gap(buf: &GapBytes) -> int;

/// `GapBuffer::from_iter`: a buffer that holds the given bytes, which it
/// inserts at its end, in order.
#[verifier::external_body]
pub(crate) fn buf_from_slice(bytes: &[u8]) -> (r: GapBytes)
    requires
        bytes@.len() <= MAX_LEN,
    ensures
        buffer_bytes(&r) == bytes@,
{
    GapBytes { inner: bytes.iter().copied().collect() }
}

/// `Slice::len`, reached through the buffer: the number of bytes held.
#[verifier::external_body]
pub(crate) fn buf_len(buf: &GapBytes) -> (r: usize)
    ensures
        r == buffer_bytes(buf).len(),
{
    buf.inner.len()
}

/// `Slice::get`, reached through the buffer: the byte at `i`, which must be
/// within the buffer.
#[verifier::external_body]
pub(crate) fn buf_get(buf: &GapBytes, i: usize) -> (r: u8)
    requires
        i < buffer_bytes(buf).len(),
    ensures
        r == buffer_bytes(buf)[i as int],
{
    *buf.inner.get(i).unwrap()
}

/// `GapBuffer::splice`, with the iterator it returns dropped at once: the
/// bytes of `start..end` leave and those of `with` take their place.
#[verifier::external_body]
pub(crate) fn buf_splice(buf: &mut GapBytes, start: usize, end: usize, with: &[u8])
    requires
        start <= end <= buffer_bytes(old(buf)).len(),
        buffer_bytes(old(buf)).len() - (end - start) + with@.len() <= MAX_LEN,
    ensures
        buffer_bytes(final(buf)) == spliced(buffer_bytes(old(buf)), start as int, end as int, with@),
{
    buf.inner.splice(start..end, with.iter().copied());
}

/// `GapBuffer::set_gap`: moves the gap to `gap` and leaves the bytes as
/// they are.
#[verifier::external_body]
pub(crate) fn buf_set_gap(buf: &mut GapBytes, gap: usize)
    requires
        gap <= buffer_bytes(old(buf)).len(),
    ensures
        buffer_bytes(final(buf)) == buffer_bytes(old(buf)),
        buffer_gap(final(buf)) == gap,
{
    buf.inner.set_gap(gap);
}

/// `GapBuffer::gap`: the offset of the gap.
#[verifier::external_body]
pub(crate) fn buf_gap(buf: &GapBytes) -> (r: usize)
    ensures
        r == buffer_gap(buf),
        r <= buffer_bytes(buf).len(),
{
    buf.inner.gap()
}

/// `Slice::as_slices`, reached through the buffer: the bytes before the gap
/// and the bytes after it.
#[verifier::external_body]
pub(crate) fn buf_as_slices(buf: &GapBytes) -> (r: (&[u8], &[u8]))
    ensures
        r.0@.len() == buffer_gap(buf),
        r.0@ + r.1@ == buffer_bytes(buf),
{
    buf.inner.as_slices()
}

/// `core::str::from_utf8` of std: the string that the bytes encode, which
/// exists exactly when they are valid UTF-8.
#[verifier::external_body]
pub(crate) fn str_from_utf8(bytes: &[u8]) -> (r: Option<&str>)
    ensures
        r is Some <==> valid_utf8(bytes@),
        r is Some ==> encode_utf8(r.unwrap()@) == bytes@,
{
    core::str::from_utf8(bytes).ok()
}

/// `bytes` with the range `start..end` replaced by `with`.
pub open spec fn spliced(bytes: Seq<u8>, start: int, end: int, with: Seq<u8>) -> Seq<u8> {
    bytes.subrange(0, start) + with + bytes.subrange(end, bytes.len() as int)
}

/// Whether a byte begins the encoding of a character.
pub open spec fn is_start(b: u8) -> bool {
    !is_continuation_byte(b)
}

/// Whether offset `i` of `bytes` lies between two characters: at the end,
/// or on a byte that begins one.
pub open spec fn on_boundary(bytes: Seq<u8>, i: int) -> bool {
    0 <= i <= bytes.len() && (i < bytes.len() ==> is_start(bytes[i]))
}

/// The number of characters that begin before offset `i`.
pub open spec fn chars_upto(bytes: Seq<u8>, i: int) -> nat
    decreases i,
{
    if i <= 0 || i > bytes.len() {
        0
    } else {
        chars_upto(bytes, i - 1) + if is_start(bytes[i - 1]) {
            1nat
        } else {
            0nat
        }
    }
}

/// The number of line feeds before offset `i`.
pub open spec fn newlines_upto(bytes: Seq<u8>, i: int) -> nat
    decreases i,
{
    if i <= 0 || i > bytes.len() {
        0
    } else {
        newlines_upto(bytes, i - 1) + if bytes[i - 1] == 10u8 {
            1nat
        } else {
            0nat
        }
    }
}

/// The number of characters between the start of the line that holds
/// offset `i` and `i`.
pub open spec fn col_upto(bytes: Seq<u8>, i: int) -> nat
    decreases i,
{
    if i <= 0 || i > bytes.len() {
        0
    } else if bytes[i - 1] == 10u8 {
        0
    } else {
        col_upto(bytes, i - 1) + if is_start(bytes[i - 1]) {
            1nat
        } else {
            0nat
        }
    }
}

/// The number of bytes that the character beginning with `b` takes.
pub open spec fn spec_scalar_len(b: u8) -> int {
    if b < 0x80 {
        1
    } else if b < 0xe0 {
        2
    } else if b < 0xf0 {
        3
    } else {
        4
    }
}

/// The number of bytes that the character beginning with `b` takes.
pub fn scalar_len(b: u8) -> (r: usize)
    ensures
        r == spec_scalar_len(b),
        1 <= r <= 4,
{
    if b < 0x80 {
        1
    } else if b < 0xe0 {
        2
    } else if b < 0xf0 {
        3
    } else {
        4
    }
}

/// Whether a byte begins the encoding of a character.
pub fn byte_is_start(b: u8) -> (r: bool)
    ensures
        r == is_start(b),
{
    b < 0x80 || b > 0xbf
}

/// Counting is additive: the counts up to `j` are those up to `i` and
/// those of the bytes between.
pub proof fn lemma_counts_monotone(bytes: Seq<u8>, i: int, j: int)
    requires
        0 <= i <= j <= bytes.len(),
    ensures
        chars_upto(bytes, i) <= chars_upto(bytes, j),
        newlines_upto(bytes, i) <= newlines_upto(bytes, j),
        chars_upto(bytes, j) - chars_upto(bytes, i) <= j - i,
        newlines_upto(bytes, j) - newlines_upto(bytes, i) <= j - i,
    decreases j - i,
{
    if i < j {
        lemma_counts_monotone(bytes, i, j - 1);
    }
}

/// The counts before an offset depend on the bytes before it alone.
pub proof fn lemma_counts_prefix(a: Seq<u8>, b: Seq<u8>, i: int)
    requires
        0 <= i <= a.len(),
        i <= b.len(),
        forall|k: int| 0 <= k < i ==> a[k] == b[k],
    ensures
        chars_upto(a, i) == chars_upto(b, i),
        newlines_upto(a, i) == newlines_upto(b, i),
        col_upto(a, i) == col_upto(b, i),
    decreases i,
{
    if i > 0 {
        lemma_counts_prefix(a, b, i - 1);
    }
}

/// In valid UTF-8 an offset on a boundary is a character boundary in the
/// sense of the decoder.
pub proof fn lemma_boundary_is_char_boundary(bytes: Seq<u8>, i: int)
    requires
        valid_utf8(bytes),
        on_boundary(bytes, i),
    ensures
        is_char_boundary(bytes, i),
{
    if i < bytes.len() {
        is_char_boundary_iff_not_is_continuation_byte(bytes, i);
    } else {
        is_char_boundary_start_end_of_seq(bytes);
    }
}

/// Valid UTF-8 that is not empty begins with a byte that begins a
/// character.
pub proof fn lemma_valid_starts_with_start(bytes: Seq<u8>)
    requires
        valid_utf8(bytes),
    ensures
        on_boundary(bytes, 0),
{
    if bytes.len() > 0 {
        is_char_boundary_start_end_of_seq(bytes);
        is_char_boundary_iff_not_is_continuation_byte(bytes, 0);
    }
}

/// Replacing a range that lies between characters by valid UTF-8 leaves
/// valid UTF-8.
pub proof fn lemma_splice_valid(bytes: Seq<u8>, start: int, end: int, with: Seq<u8>)
    requires
        valid_utf8(bytes),
        valid_utf8(with),
        on_boundary(bytes, start),
        on_boundary(bytes, end),
        start <= end,
    ensures
        valid_utf8(spliced(bytes, start, end, with)),
{
    lemma_boundary_is_char_boundary(bytes, start);
    lemma_boundary_is_char_boundary(bytes, end);
    valid_utf8_split(bytes, start);
    valid_utf8_split(bytes, end);
    valid_utf8_concat(bytes.subrange(0, start), with);
    valid_utf8_concat(bytes.subrange(0, start) + with, bytes.subrange(end, bytes.len() as int));
}

/// Where an offset between characters lands after a splice: unmoved at or
/// before the start of the replaced range, moved with the text that
/// follows from its end on. Both stay between characters.
pub proof fn lemma_splice_boundary(bytes: Seq<u8>, start: int, end: int, with: Seq<u8>, o: int)
    requires
        valid_utf8(bytes),
        valid_utf8(with),
        on_boundary(bytes, start),
        on_boundary(bytes, end),
        start <= end,
        on_boundary(bytes, o),
    ensures
        o <= start ==> on_boundary(spliced(bytes, start, end, with), o),
        o >= end ==> on_boundary(spliced(bytes, start, end, with), o - end + start + with.len()),
{
    let new = spliced(bytes, start, end, with);
    lemma_valid_starts_with_start(with);
    if o <= start {
        if o < start {
            assert(new[o] == bytes[o]);
        } else if with.len() > 0 {
            assert(new[o] == with[0]);
        } else if end < bytes.len() {
            assert(new[o] == bytes[end]);
        }
    }
    if o >= end {
        let p = o - end + start + with.len();
        if o < bytes.len() {
            assert(new[p] == bytes[o]);
        }
    }
}

} // verus!
