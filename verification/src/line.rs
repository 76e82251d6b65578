//! Newline framing of the backend's text protocol.
//!
//! On the backend stream every text travels as its UTF-8 encoding followed
//! by a single newline byte. Nothing is escaped: a text that holds a newline
//! of its own is read back as several lines.

use vstd::prelude::*;
use vstd::slice::{slice_subrange, slice_to_vec};
use vstd::utf8::*;

verus! {

/// The byte that ends a line.
pub const NEWLINE: u8 = 0x0a;

/// The bytes that carry `text` on the backend stream.
pub open spec fn line_of(text: Seq<char>) -> Seq<u8> {
    encode_utf8(text).push(NEWLINE)
}

/// The bytes that carry `texts`, one line each, in order.
pub open spec fn lines_of(texts: Seq<Seq<char>>) -> Seq<u8>
    decreases texts.len(),
{
    if texts.len() == 0 {
        Seq::empty()
    } else {
        line_of(texts.first()) + lines_of(texts.drop_first())
    }
}

/// Whether `text` holds no newline character.
pub open spec fn newline_free(text: Seq<char>) -> bool {
    forall|i: int| 0 <= i < text.len() ==> text[i] != '\n'
}

/// Whether `bytes` holds no newline byte.
pub open spec fn no_newline_byte(bytes: Seq<u8>) -> bool {
    forall|i: int| 0 <= i < bytes.len() ==> bytes[i] != NEWLINE
}

/// Where the read that starts at `from` stops: just behind the first newline
/// at or after `from`, or at the end of the stream where there is none.
pub open spec fn line_end(stream: Seq<u8>, from: int) -> int
    decreases stream.len() - from,
{
    if from < 0 || from >= stream.len() {
        stream.len() as int
    } else if stream[from] == NEWLINE {
        from + 1
    } else {
        line_end(stream, from + 1)
    }
}

/// What one read of a line from the backend amounts to.
#[derive(Debug, Clone, PartialEq, Eq)]
pub enum Reading {
    /// Nothing was read: the stream has ended.
    End,
    /// The stream ended in the middle of a line.
    Unterminated,
    /// A complete line, without its newline.
    Line(String),
    /// A complete line whose bytes are not well-formed UTF-8.
    Malformed,
}

/// The mathematical value of a [`Reading`].
pub enum ReadingView {
    End,
    Unterminated,
    Line(Seq<char>),
    Malformed,
}

impl View for Reading {
    type V = ReadingView;

    open spec fn view(&self) -> ReadingView {
        match self {
            Reading::End => ReadingView::End,
            Reading::Unterminated => ReadingView::Unterminated,
            Reading::Line(text) => ReadingView::Line(text@),
            Reading::Malformed => ReadingView::Malformed,
        }
    }
}

/// The reading that the bytes of one read amount to. Exactly one trailing
/// newline is taken off a complete line before it is decoded.
pub open spec fn reading_of(chunk: Seq<u8>) -> ReadingView {
    if chunk.len() == 0 {
        ReadingView::End
    } else if chunk.last() != NEWLINE {
        ReadingView::Unterminated
    } else if valid_utf8(chunk.drop_last()) {
        ReadingView::Line(decode_utf8(chunk.drop_last()))
    } else {
        ReadingView::Malformed
    }
}

/// Decodes bytes with [`String::from_utf8`]. The contract claims what its
/// documentation states: the call succeeds exactly on well-formed UTF-8, and
/// the string it gives has the argument as its bytes.
#[verifier::external_body]
fn text_from_utf8(bytes: Vec<u8>) -> (text: Option<String>)
    ensures
        text is Some <==> valid_utf8(bytes@),
        text matches Some(t) ==> encode_utf8(t@) == bytes@,
{
    match String::from_utf8(bytes) {
        Ok(t) => Some(t),
        Err(_) => None,
    }
}

/// Frames `text` for the backend: its bytes, then one newline, whether or
/// not the text already ends in one.
pub fn encode_line(text: &str) -> (line: Vec<u8>)
    ensures
        line@ == line_of(text@),
{
    let mut line = slice_to_vec(text.as_bytes());
    line.push(NEWLINE);
    line
}

/// Decides what the bytes of one read amount to.
pub fn read_line(chunk: &[u8]) -> (reading: Reading)
    ensures
        reading@ == reading_of(chunk@),
{
    let n = chunk.len();
    if n == 0 {
        return Reading::End;
    }
    if chunk[n - 1] != NEWLINE {
        return Reading::Unterminated;
    }
    let payload = slice_to_vec(slice_subrange(chunk, 0, n - 1));
    assert(payload@ == chunk@.drop_last());
    match text_from_utf8(payload) {
        Some(text) => {
            proof {
                encode_utf8_decode_utf8(text@);
            }
            Reading::Line(text)
        },
        None => Reading::Malformed,
    }
}

/// Finds where the read that starts at `from` stops. A read that starts at
/// or behind the end of the stream stops at its end.
pub fn next_line_end(stream: &[u8], from: usize) -> (end: usize)
    ensures
        end == line_end(stream@, from as int),
        end <= stream@.len(),
{
    let n = stream.len();
    if from >= n {
        return n;
    }
    let mut i: usize = from;
    while i < n
        invariant
            n == stream@.len(),
            from <= i <= n,
            line_end(stream@, i as int) == line_end(stream@, from as int),
        decreases n - i,
    {
        if stream[i] == NEWLINE {
            return i + 1;
        }
        i = i + 1;
    }
    i
}

/// A scalar's encoding holds the newline byte only where the scalar is the
/// newline itself: every byte of a longer encoding has its top bit set.
proof fn lemma_scalar_bytes(v: u32)
    by (bit_vector)
    ensures
        v <= 0x7F ==> (v & 0x7F) as u8 == v,
        (0xC0u8 | ((v >> 6) & 0x1F) as u8) >= 0x80u8,
        (0xE0u8 | ((v >> 12) & 0x0F) as u8) >= 0x80u8,
        (0xF0u8 | ((v >> 18) & 0x7) as u8) >= 0x80u8,
        (0x80u8 | (v & 0x3F) as u8) >= 0x80u8,
        (0x80u8 | ((v >> 6) & 0x3F) as u8) >= 0x80u8,
        (0x80u8 | ((v >> 12) & 0x3F) as u8) >= 0x80u8,
{
}

/// The encoding of one character other than the newline holds no newline
/// byte.
proof fn lemma_char_encoding_newline_free(c: char)
    requires
        c != '\n',
    ensures
        no_newline_byte(encode_scalar(c as u32)),
{
    lemma_scalar_bytes(c as u32);
}

/// The encoding of a text without a newline character holds no newline
/// byte.
pub proof fn lemma_encoding_newline_free(text: Seq<char>)
    requires
        newline_free(text),
    ensures
        no_newline_byte(encode_utf8(text)),
    decreases text.len(),
{
    if text.len() > 0 {
        let head = encode_scalar(text[0] as u32);
        let tail = encode_utf8(text.drop_first());
        lemma_char_encoding_newline_free(text[0]);
        assert(newline_free(text.drop_first())) by {
            assert forall|i: int| 0 <= i < text.drop_first().len() implies text.drop_first()[i]
                != '\n' by {
                assert(text.drop_first()[i] == text[i + 1]);
            }
        }
        lemma_encoding_newline_free(text.drop_first());
        assert forall|i: int| 0 <= i < (head + tail).len() implies (head + tail)[i]
            != NEWLINE by {
            if i < head.len() {
                assert((head + tail)[i] == head[i]);
            } else {
                assert((head + tail)[i] == tail[i - head.len()]);
            }
        }
    }
}

/// A read that starts inside the stream takes at least one byte and stays
/// inside the stream.
pub proof fn lemma_line_end_bounds(stream: Seq<u8>, from: int)
    requires
        0 <= from < stream.len(),
    ensures
        from < line_end(stream, from) <= stream.len(),
    decreases stream.len() - from,
{
    if stream[from] != NEWLINE {
        if from + 1 < stream.len() {
            lemma_line_end_bounds(stream, from + 1);
        } else {
            assert(line_end(stream, from + 1) == stream.len());
        }
    }
}

/// Reads of a stream's tail stop where the reads of the whole stream stop.
pub proof fn lemma_line_end_shift(stream: Seq<u8>, from: int, k: int)
    requires
        0 <= from,
        0 <= k,
        from + k <= stream.len(),
    ensures
        line_end(stream, from + k) == from + line_end(stream.skip(from), k),
    decreases stream.len() - from - k,
{
    if from + k < stream.len() {
        assert(stream.skip(from)[k] == stream[from + k]);
        if stream[from + k] != NEWLINE {
            lemma_line_end_shift(stream, from, k + 1);
        }
    }
}

/// A read stops just behind the first newline it meets.
pub proof fn lemma_line_end_at_newline(stream: Seq<u8>, from: int, at: int)
    requires
        0 <= from <= at < stream.len(),
        stream[at] == NEWLINE,
        forall|i: int| from <= i < at ==> stream[i] != NEWLINE,
    ensures
        line_end(stream, from) == at + 1,
    decreases at - from,
{
    if from < at {
        lemma_line_end_at_newline(stream, from + 1, at);
    }
}

/// A read that meets no newline runs to the end of the stream.
pub proof fn lemma_line_end_without_newline(stream: Seq<u8>, from: int)
    requires
        0 <= from <= stream.len(),
        forall|i: int| from <= i < stream.len() ==> stream[i] != NEWLINE,
    ensures
        line_end(stream, from) == stream.len(),
    decreases stream.len() - from,
{
    if from < stream.len() {
        lemma_line_end_without_newline(stream, from + 1);
    }
}

/// A stream that starts with the line of a text without a newline is read
/// up to the end of that line, and the read gives the text back.
pub proof fn lemma_first_line(text: Seq<char>, rest: Seq<u8>)
    requires
        newline_free(text),
    ensures
        line_end(line_of(text) + rest, 0) == line_of(text).len(),
        (line_of(text) + rest).take(line_of(text).len() as int) == line_of(text),
        (line_of(text) + rest).skip(line_of(text).len() as int) == rest,
        reading_of(line_of(text)) == ReadingView::Line(text),
{
    let payload = encode_utf8(text);
    let stream = line_of(text) + rest;
    lemma_encoding_newline_free(text);
    assert forall|i: int| 0 <= i < payload.len() implies stream[i] != NEWLINE by {
        assert(stream[i] == payload[i]);
    }
    assert(stream[payload.len() as int] == NEWLINE);
    lemma_line_end_at_newline(stream, 0, payload.len() as int);
    assert(stream.take(line_of(text).len() as int) =~= line_of(text));
    assert(stream.skip(line_of(text).len() as int) =~= rest);
    assert(line_of(text).drop_last() =~= payload);
    encode_utf8_valid_utf8(text);
    encode_utf8_decode_utf8(text);
}

} // verus!
