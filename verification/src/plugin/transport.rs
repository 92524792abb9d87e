//! LSP-style Content-Length framing for the plugin transport.
//!
//! Each frame is:
//!
//! ```text
//! Content-Length: N\r\n
//! \r\n
//! <N bytes of body>
//! ```
//!
//! [`read_frame`] reads header lines (each capped at
//! [`MAX_HEADER_LINE_BYTES`]) until the blank line, takes the last
//! `Content-Length` value, refuses a length above the
//! [`ContentLengthCeiling`] without touching the body, and then reads exactly
//! that many body bytes. [`write_frame`] emits the header and body and
//! flushes. Reads go through a [`FrameReader`], which records the bytes
//! taken from the stream, and writes through a [`FrameWriter`], which
//! records the bytes handed on: [`read_frame`]'s outcome is stated over the
//! bytes it consumed ([`frame_outcome`]), and [`write_frame`] hands on
//! exactly [`frame_bytes`] of the body. The laws
//! [`law_written_frame_reads_back`] (of the frame grammar [`frame_from`])
//! and [`law_read_gives_back_written_frame`] (of `read_frame` itself) state
//! that a written frame is read back as the same body.

use std::io::{BufRead, Read, Write};

use vstd::prelude::*;
use vstd::string::*;
use vstd::utf8::*;

use crate::plugin::header::{
    all_digits, ascii_lower, is_ws_char, lemma_decimal_reads_back, lemma_length_header_classified, classify_header, content_length_name, digit_value, digits_value,
    eq_ignore_ascii_case, index_from, is_digit, is_ws, leading_ws, length_header_line,
    parse_usize, trailing_ws, trim_end_crlf, trim_ws, HeaderModel,
};
use crate::plugin::limits::ContentLengthCeiling;
use crate::plugin::jail::io_error_text;
use crate::text::{chars_of, debug_quoted, debug_str, decimal, usize_to_string};

verus! {

/// Per-line ceiling for header parsing, in bytes.
pub const MAX_HEADER_LINE_BYTES: usize = 8192;

// ── Types ─────────────────────────────────────────────────────────────────────

/// Errors that can occur during frame read/write.
#[derive(Debug)]
pub enum TransportError {
    /// Underlying I/O error.
    Io(std::io::Error),
    /// The header section ended without a `Content-Length` line.
    MissingContentLength,
    /// A `Content-Length` value was not a valid non-negative decimal integer.
    InvalidContentLength { value: String },
    /// The declared body exceeds the ceiling; the body was not consumed.
    FrameTooLarge { observed: usize, ceiling: usize },
    /// The stream ended before the declared number of body bytes.
    TruncatedBody { expected: usize, actual: usize },
    /// A header line did not conform to the `Name: Value` shape, was too
    /// long, or was not UTF-8.
    MalformedHeader { line: String },
}

/// The text of a transport error. `io` stands for the text of an I/O
/// error, which comes from the operating system and is not modelled.
pub open spec fn transport_error_text(e: TransportError, io: Seq<char>) -> Seq<char> {
    match e {
        TransportError::Io(_) => "IO error while reading/writing frame: "@ + io,
        TransportError::MissingContentLength => "missing Content-Length header"@,
        TransportError::InvalidContentLength { value } => "malformed Content-Length header: "@
            + debug_quoted(value@),
        TransportError::FrameTooLarge { observed, ceiling } => "frame exceeds ceiling: observed "@
            + decimal(observed as nat) + " bytes, ceiling "@ + decimal(ceiling as nat),
        TransportError::TruncatedBody { expected, actual } =>
            "unexpected EOF in frame body; expected "@ + decimal(expected as nat) + " bytes, got "@
            + decimal(actual as nat),
        TransportError::MalformedHeader { line } => "malformed header line: "@ + debug_quoted(
            line@,
        ),
    }
}

impl TransportError {
    /// Human-readable description of the error.
    pub fn message(&self) -> (s: String)
        ensures
            exists|io: Seq<char>| s@ == #[trigger] transport_error_text(*self, io),
    {
        match self {
            TransportError::Io(e) => {
                let mut s = String::from_str("IO error while reading/writing frame: ");
                let t = io_error_text(e);
                s.append(t.as_str());
                assert(s@ == transport_error_text(*self, t@));
                s
            },
            TransportError::MissingContentLength => {
                let s = String::from_str("missing Content-Length header");
                assert(s@ == transport_error_text(*self, Seq::empty()));
                s
            },
            TransportError::InvalidContentLength { value } => {
                let mut s = String::from_str("malformed Content-Length header: ");
                s.append(debug_str(value.as_str()).as_str());
                assert(s@ == transport_error_text(*self, Seq::empty()));
                s
            },
            TransportError::FrameTooLarge { observed, ceiling } => {
                let mut s = String::from_str("frame exceeds ceiling: observed ");
                s.append(usize_to_string(*observed).as_str());
                s.append(" bytes, ceiling ");
                s.append(usize_to_string(*ceiling).as_str());
                assert(s@ == transport_error_text(*self, Seq::empty()));
                s
            },
            TransportError::TruncatedBody { expected, actual } => {
                let mut s = String::from_str("unexpected EOF in frame body; expected ");
                s.append(usize_to_string(*expected).as_str());
                s.append(" bytes, got ");
                s.append(usize_to_string(*actual).as_str());
                assert(s@ == transport_error_text(*self, Seq::empty()));
                s
            },
            TransportError::MalformedHeader { line } => {
                let mut s = String::from_str("malformed header line: ");
                s.append(debug_str(line.as_str()).as_str());
                assert(s@ == transport_error_text(*self, Seq::empty()));
                s
            },
        }
    }
}

/// A single framed message: the raw body bytes of one `Content-Length` block.
#[derive(Debug, Clone, PartialEq, Eq)]
pub struct Frame {
    /// The raw body bytes.
    pub body: Vec<u8>,
}

/// What a header line asks the reader to do next.
#[derive(Debug, Clone, Copy, PartialEq, Eq)]
pub enum HeaderLine {
    /// The blank line: the header block is over.
    End,
    /// A line to ignore.
    Skip,
    /// A `Content-Length` header.
    ContentLength(usize),
}

/// The meaning of an interpretation result, for contracts: `None` for error
/// variants that interpreting a header line never produces.
pub open spec fn header_outcome(r: Result<HeaderLine, TransportError>) -> Option<HeaderModel> {
    match r {
        Ok(HeaderLine::End) => Some(HeaderModel::End),
        Ok(HeaderLine::Skip) => Some(HeaderModel::Skip),
        Ok(HeaderLine::ContentLength(n)) => Some(HeaderModel::ContentLength(n as nat)),
        Err(TransportError::Io(_)) => Some(HeaderModel::Eof),
        Err(TransportError::MalformedHeader { line }) => Some(HeaderModel::Malformed(line@)),
        Err(TransportError::InvalidContentLength { value }) => Some(HeaderModel::InvalidLength(value@)),
        _ => None,
    }
}

// ── Frame grammar ────────────────────────────────────────────────────────────

/// Outcome of reading one frame from a finite byte stream.
pub enum FrameModel {
    /// A frame with this body.
    Frame(Seq<u8>),
    /// The stream ended inside the header block.
    EofInHeaders,
    /// A header line ran past the per-line cap without a newline.
    LineTooLong,
    /// A header line is not UTF-8.
    NonUtf8Line(Seq<u8>),
    /// A header line has no `:`.
    Malformed(Seq<char>),
    /// A `Content-Length` value is not an unsigned integer.
    InvalidLength(Seq<char>),
    /// The header block ended without `Content-Length`.
    MissingLength,
    /// The declared length exceeds the ceiling.
    TooLarge(nat, nat),
    /// The stream ended inside the body.
    Truncated(nat, nat),
}

/// Index of the first `'\n'` byte of `s` at or after `from`.
pub open spec fn newline_from(s: Seq<u8>, from: int) -> Option<int>
    decreases s.len() - from,
{
    if from < 0 || from >= s.len() {
        None
    } else if s[from] == 10u8 {
        Some(from)
    } else {
        newline_from(s, from + 1)
    }
}

/// The next header line of stream `s`: up to and including the first
/// newline when it lies within the first [`MAX_HEADER_LINE_BYTES`] bytes;
/// the whole rest of a shorter stream without a newline; `None` when the cap
/// is reached without a newline.
pub open spec fn next_line(s: Seq<u8>) -> Option<Seq<u8>> {
    match newline_from(s, 0) {
        Some(k) => if k < MAX_HEADER_LINE_BYTES {
            Some(s.take(k + 1))
        } else {
            None
        },
        None => if s.len() < MAX_HEADER_LINE_BYTES {
            Some(s)
        } else {
            None
        },
    }
}

/// The body step once the header block has ended on stream `s`, with the
/// last declared length `length`.
pub open spec fn body_from(s: Seq<u8>, length: Option<nat>, ceiling: nat) -> FrameModel {
    match length {
        None => FrameModel::MissingLength,
        Some(n) => if n > ceiling {
            FrameModel::TooLarge(n, ceiling)
        } else if s.len() >= n {
            FrameModel::Frame(s.take(n as int))
        } else {
            FrameModel::Truncated(n, s.len())
        },
    }
}

/// The frame read from finite stream `s` (followed by end of stream), with
/// `length` the `Content-Length` seen so far in the header block.
pub open spec fn frame_from(s: Seq<u8>, length: Option<nat>, ceiling: nat) -> FrameModel
    decreases s.len(),
{
    match next_line(s) {
        None => FrameModel::LineTooLong,
        Some(l) => if l.len() == 0 {
            FrameModel::EofInHeaders
        } else if !valid_utf8(l) {
            FrameModel::NonUtf8Line(l)
        } else {
            let rest = s.skip(l.len() as int);
            match classify_header(decode_utf8(l)) {
                HeaderModel::End => body_from(rest, length, ceiling),
                HeaderModel::Skip => if rest.len() < s.len() {
                    frame_from(rest, length, ceiling)
                } else {
                    FrameModel::EofInHeaders
                },
                HeaderModel::ContentLength(n) => if rest.len() < s.len() {
                    frame_from(rest, Some(n), ceiling)
                } else {
                    FrameModel::EofInHeaders
                },
                HeaderModel::Malformed(t) => FrameModel::Malformed(t),
                HeaderModel::InvalidLength(v) => FrameModel::InvalidLength(v),
                HeaderModel::Eof => FrameModel::EofInHeaders,
            }
        },
    }
}

/// The characters of the header block `write_frame` emits for a body of
/// `len` bytes.
pub open spec fn frame_header(len: nat) -> Seq<char> {
    length_header_line(len) + seq!['\r', '\n']
}

/// The bytes `write_frame` emits for `body`.
pub open spec fn frame_bytes(body: Seq<u8>) -> Seq<u8> {
    encode_utf8(frame_header(body.len())) + body
}

// ── The written frame reads back ─────────────────────────────────────────────

/// `s` consists of ASCII characters only.
pub open spec fn all_ascii(s: Seq<char>) -> bool {
    forall|i: int| 0 <= i < s.len() ==> (#[trigger] s[i] as u32) < 128
}

proof fn lemma_encode_concat(a: Seq<char>, b: Seq<char>)
    ensures
        encode_utf8(a + b) == encode_utf8(a) + encode_utf8(b),
    decreases a.len(),
{
    if a.len() == 0 {
        assert(a + b =~= b);
        assert(encode_utf8(a) + encode_utf8(b) =~= encode_utf8(b));
    } else {
        assert((a + b).drop_first() =~= a.drop_first() + b);
        assert((a + b)[0] == a[0]);
        lemma_encode_concat(a.drop_first(), b);
        assert(encode_utf8(a + b) =~= encode_utf8(a) + encode_utf8(b));
    }
}

proof fn lemma_encode_ascii(s: Seq<char>)
    requires
        all_ascii(s),
    ensures
        encode_utf8(s).len() == s.len(),
        forall|i: int| 0 <= i < s.len() ==> #[trigger] encode_utf8(s)[i] as u32 == s[i] as u32,
    decreases s.len(),
{
    if s.len() > 0 {
        let c = s[0] as u32;
        assert(c <= 0x7F ==> (c & 0x7F) as u8 as u32 == c) by (bit_vector);
        assert(encode_scalar(c) =~= seq![c as u8]);
        let t = s.drop_first();
        assert forall|i: int| 0 <= i < t.len() implies (#[trigger] t[i] as u32) < 128 by {
            assert(t[i] == s[i + 1]);
        }
        lemma_encode_ascii(t);
        assert forall|i: int| 0 <= i < s.len() implies #[trigger] encode_utf8(s)[i] as u32
            == s[i] as u32 by {
            if i > 0 {
                assert(encode_utf8(s)[i] == encode_utf8(t)[i - 1]);
                assert(t[i - 1] == s[i]);
            }
        }
    }
}

proof fn lemma_newline_at(s: Seq<u8>, from: int, k: int)
    requires
        0 <= from <= k < s.len(),
        s[k] == 10u8,
        forall|j: int| from <= j < k ==> s[j] != 10u8,
    ensures
        newline_from(s, from) == Some(k),
    decreases k - from,
{
    if from < k {
        lemma_newline_at(s, from + 1, k);
    }
}

/// `10^k`.
pub open spec fn pow10(k: nat) -> nat
    decreases k,
{
    if k == 0 {
        1
    } else {
        10 * pow10((k - 1) as nat)
    }
}

proof fn lemma_decimal_len(n: nat, k: nat)
    requires
        k >= 1,
        n < pow10(k),
    ensures
        decimal(n).len() <= k,
    decreases n,
{
    if n >= 10 {
        assert(k >= 2) by {
            if k == 1 {
                assert(pow10(1) == 10 * pow10(0));
            }
        }
        assert(pow10(k) == 10 * pow10((k - 1) as nat));
        lemma_decimal_len(n / 10, (k - 1) as nat);
    }
}

proof fn lemma_length_line_shape(len: nat)
    requires
        len <= usize::MAX,
    ensures
        all_ascii(length_header_line(len)),
        length_header_line(len).len() <= 40,
        length_header_line(len).last() as u32 == 10,
        forall|i: int| 0 <= i < length_header_line(len).len() - 1 ==> #[trigger] (length_header_line(
            len,
        )[i] as u32) != 10,
{
    let d = decimal(len);
    lemma_decimal_reads_back(len);
    assert(pow10(20) == 100000000000000000000nat) by {
        reveal_with_fuel(pow10, 21);
    }
    lemma_decimal_len(len, 20);
    let line = length_header_line(len);
    let head = content_length_name() + seq![':', ' '];
    assert(line =~= head + d + seq!['\r', '\n']);
    assert forall|i: int| 0 <= i < line.len() implies (#[trigger] line[i] as u32) < 128 by {
        if i < head.len() {
            assert(line[i] == head[i]);
        } else if i < head.len() + d.len() {
            assert(line[i] == d[i - head.len()]);
            assert(is_digit(d[i - head.len()]));
        }
    }
    assert forall|i: int| 0 <= i < line.len() - 1 implies #[trigger] (line[i] as u32) != 10 by {
        if i < head.len() {
            assert(line[i] == head[i]);
        } else if i < head.len() + d.len() {
            assert(line[i] == d[i - head.len()]);
        }
    }
}

/// The first line of `line_bytes + tail` is `line_bytes` when `line_bytes`
/// is the encoding of an ASCII line of at most 40 characters whose only
/// newline is its last character.
proof fn lemma_first_line(line: Seq<char>, tail: Seq<u8>)
    requires
        all_ascii(line),
        0 < line.len() <= 40,
        line.last() as u32 == 10,
        forall|i: int| 0 <= i < line.len() - 1 ==> #[trigger] (line[i] as u32) != 10,
    ensures
        next_line(encode_utf8(line) + tail) == Some(encode_utf8(line)),
        valid_utf8(encode_utf8(line)),
        decode_utf8(encode_utf8(line)) == line,
{
    broadcast use encode_utf8_valid_utf8, encode_utf8_decode_utf8;

    let e = encode_utf8(line);
    lemma_encode_ascii(line);
    let s = e + tail;
    let k = line.len() - 1;
    assert(s[k] == e[k]);
    assert(e[k] as u32 == line[k] as u32);
    assert forall|j: int| 0 <= j < k implies s[j] != 10u8 by {
        assert(s[j] == e[j]);
        assert(e[j] as u32 == line[j] as u32);
    }
    lemma_newline_at(s, 0, k);
    assert(s.take(k + 1) =~= e);
}

/// A frame that `write_frame` emits is read back by the frame grammar as the
/// same body, whatever bytes follow it on the stream, provided the body is
/// within the ceiling.
pub proof fn law_written_frame_reads_back(body: Seq<u8>, rest: Seq<u8>, ceiling: usize)
    requires
        body.len() <= ceiling,
    ensures
        frame_from(frame_bytes(body) + rest, None, ceiling as nat) == FrameModel::Frame(body),
{
    let len = body.len();
    let line = length_header_line(len);
    let blank = seq!['\r', '\n'];
    lemma_length_line_shape(len);
    lemma_length_header_classified(len);
    lemma_encode_concat(line, blank);
    let e1 = encode_utf8(line);
    let e2 = encode_utf8(blank);
    let s = frame_bytes(body) + rest;
    assert(s =~= e1 + (e2 + body + rest));
    lemma_first_line(line, e2 + body + rest);
    let after = s.skip(e1.len() as int);
    assert(after =~= e2 + (body + rest));
    assert(e1.len() > 0) by {
        lemma_encode_ascii(line);
    }
    assert(blank.last() as u32 == 10);
    assert(all_ascii(blank)) by {
        assert(blank[0] as u32 == 13);
        assert(blank[1] as u32 == 10);
    }
    assert forall|i: int| 0 <= i < blank.len() - 1 implies #[trigger] (blank[i] as u32) != 10 by {}
    lemma_first_line(blank, body + rest);
    assert(classify_header(blank) == HeaderModel::End);
    assert(next_line(s) == Some(e1));
    assert(classify_header(decode_utf8(e1)) == HeaderModel::ContentLength(len));
    assert(frame_from(s, None, ceiling as nat) == frame_from(after, Some(len), ceiling as nat));
    assert(next_line(after) == Some(e2));
    lemma_encode_ascii(blank);
    assert(after.skip(e2.len() as int) =~= body + rest);
    assert((body + rest).take(len as int) =~= body);
}

// ── I/O access ────────────────────────────────────────────────────────────────

/// A buffered reader together with a record of the bytes taken from it: the
/// bytes consumed so far, in stream order, the bytes its buffer offered at
/// the last `fill_buf`, and how many reads reported an error or the end of
/// the stream.
pub struct FrameReader<R> {
    inner: R,
    consumed: Ghost<Seq<u8>>,
    pending: Ghost<Seq<u8>>,
    failures: Ghost<nat>,
    ends: Ghost<nat>,
}

impl<R> FrameReader<R> {
    /// The bytes taken from the stream so far, in order.
    pub closed spec fn consumed(&self) -> Seq<u8> {
        self.consumed@
    }

    /// The bytes the buffer offered at the last `fill_buf`, less those
    /// consumed since.
    pub closed spec fn pending(&self) -> Seq<u8> {
        self.pending@
    }

    /// How many reads of the underlying reader have reported an error.
    pub closed spec fn failures(&self) -> nat {
        self.failures@
    }

    /// How many reads of the underlying reader have reported the end of
    /// the stream (an empty buffer, or no byte read into a non-empty one).
    pub closed spec fn ends(&self) -> nat {
        self.ends@
    }

    /// Start recording reads from `inner`.
    pub fn new(inner: R) -> (r: Self)
        ensures
            r.consumed() == Seq::<u8>::empty(),
            r.pending() == Seq::<u8>::empty(),
            r.failures() == 0,
            r.ends() == 0,
    {
        FrameReader {
            inner,
            consumed: Ghost(Seq::empty()),
            pending: Ghost(Seq::empty()),
            failures: Ghost(0),
            ends: Ghost(0),
        }
    }

    /// The underlying reader.
    pub fn get_ref(&self) -> &R {
        &self.inner
    }

    /// The underlying reader, mutably; reads made through it are not
    /// recorded.
    pub fn get_mut(&mut self) -> &mut R {
        &mut self.inner
    }

    /// Give back the underlying reader.
    pub fn into_inner(self) -> R {
        self.inner
    }
}

/// A writer together with a record of the bytes handed to it, of how many
/// of them a successful flush has pushed on, and of how many writes or
/// flushes reported an error.
pub struct FrameWriter<W> {
    inner: W,
    written: Ghost<Seq<u8>>,
    flushed: Ghost<nat>,
    failures: Ghost<nat>,
}

impl<W> FrameWriter<W> {
    /// The bytes handed to the writer so far, in order.
    pub closed spec fn written(&self) -> Seq<u8> {
        self.written@
    }

    /// How many of the written bytes the last successful flush covered.
    pub closed spec fn flushed_len(&self) -> nat {
        self.flushed@
    }

    /// How many writes or flushes of the underlying writer have reported
    /// an error.
    pub closed spec fn failures(&self) -> nat {
        self.failures@
    }

    /// Start recording writes to `inner`.
    pub fn new(inner: W) -> (w: Self)
        ensures
            w.written() == Seq::<u8>::empty(),
            w.flushed_len() == 0,
            w.failures() == 0,
    {
        FrameWriter { inner, written: Ghost(Seq::empty()), flushed: Ghost(0), failures: Ghost(0) }
    }

    /// The underlying writer.
    pub fn get_ref(&self) -> &W {
        &self.inner
    }

    /// Give back the underlying writer.
    pub fn into_inner(self) -> W {
        self.inner
    }
}

/// Wraps one call of `BufRead::fill_buf`: the bytes the buffer currently
/// offers, which are the next bytes of the stream (empty at end of stream).
/// They become the pending bytes; nothing is consumed. An error, and an
/// empty buffer (the end of the stream), are counted. Which bytes arrive is
/// not stated: they come from the reader.
#[verifier::external_body]
fn fill_buf_once<R: BufRead>(reader: &mut FrameReader<R>) -> (r: Result<Vec<u8>, std::io::Error>)
    ensures
        final(reader).consumed() == old(reader).consumed(),
        r matches Ok(b) ==> final(reader).pending() == b@,
        r matches Ok(b) ==> final(reader).failures() == old(reader).failures(),
        r matches Ok(b) ==> final(reader).ends() == old(reader).ends() + if b@.len() == 0 {
            1nat
        } else {
            0nat
        },
        r is Err ==> final(reader).failures() == old(reader).failures() + 1,
        r is Err ==> final(reader).ends() == old(reader).ends(),
{
    reader.inner.fill_buf().map(|b| b.to_vec())
}

/// Wraps `BufRead::consume`: marks the first `n` of the pending bytes as
/// read (its documentation asks `n` to be at most what `fill_buf` offered).
#[verifier::external_body]
fn consume_bytes<R: BufRead>(reader: &mut FrameReader<R>, n: usize)
    requires
        n <= old(reader).pending().len(),
    ensures
        final(reader).consumed() == old(reader).consumed() + old(reader).pending().take(n as int),
        final(reader).pending() == old(reader).pending().skip(n as int),
        final(reader).failures() == old(reader).failures(),
        final(reader).ends() == old(reader).ends(),
{
    reader.inner.consume(n)
}

/// Wraps one call of `Read::read` into `buf[start..]`: the number `n` of
/// bytes read, at most `buf.len() - start`, which are the next `n` bytes of
/// the stream and are placed at `buf[start..start + n]`; the length of `buf`
/// and its bytes before `start` are unchanged. On an error no byte was read
/// (as `Read::read` documents). An error, and no byte read into a non-empty
/// space (the end of the stream), are counted. Which bytes arrive is not
/// stated.
#[verifier::external_body]
fn read_once<R: Read>(reader: &mut FrameReader<R>, buf: &mut Vec<u8>, start: usize) -> (r: Result<
    usize,
    std::io::Error,
>)
    requires
        start <= old(buf)@.len(),
    ensures
        final(buf)@.len() == old(buf)@.len(),
        forall|i: int| 0 <= i < start ==> final(buf)@[i] == old(buf)@[i],
        r matches Ok(n) ==> {
            &&& n <= old(buf)@.len() - start
            &&& final(reader).consumed() == old(reader).consumed() + final(buf)@.subrange(
                start as int,
                start + n,
            )
        },
        r is Err ==> final(reader).consumed() == old(reader).consumed(),
        r matches Ok(n) ==> final(reader).failures() == old(reader).failures(),
        r matches Ok(n) ==> final(reader).ends() == old(reader).ends() + if n == 0 && start
            < old(buf)@.len() {
            1nat
        } else {
            0nat
        },
        r is Err ==> final(reader).failures() == old(reader).failures() + 1,
        r is Err ==> final(reader).ends() == old(reader).ends(),
{
    reader.inner.read(&mut buf[start..])
}

/// Wraps `std::io::Error::kind` compared with `ErrorKind::Interrupted`:
/// whether the operation was interrupted and may be retried. Nothing is
/// stated of the kind, which the operating system decides.
#[verifier::external_body]
fn is_interrupted(e: &std::io::Error) -> bool {
    e.kind() == std::io::ErrorKind::Interrupted
}

/// `fill_buf`, retried while it is interrupted (at most `usize::MAX`
/// times; the last interruption is then reported).
fn fill_buf_bytes<R: BufRead>(reader: &mut FrameReader<R>) -> (r: Result<Vec<u8>, std::io::Error>)
    ensures
        final(reader).consumed() == old(reader).consumed(),
        r matches Ok(b) ==> final(reader).pending() == b@,
        final(reader).failures() >= old(reader).failures(),
        r is Err ==> final(reader).failures() > old(reader).failures(),
        r matches Ok(b) ==> final(reader).ends() == old(reader).ends() + if b@.len() == 0 {
            1nat
        } else {
            0nat
        },
        r is Err ==> final(reader).ends() == old(reader).ends(),
{
    let mut retries: usize = 0;
    loop
        invariant
            reader.consumed() == old(reader).consumed(),
            reader.failures() >= old(reader).failures(),
            reader.ends() == old(reader).ends(),
        decreases usize::MAX - retries,
    {
        match fill_buf_once(reader) {
            Ok(b) => {
                return Ok(b);
            },
            Err(e) => {
                if retries < usize::MAX && is_interrupted(&e) {
                    retries = retries + 1;
                } else {
                    return Err(e);
                }
            },
        }
    }
}

/// `read` into `buf[start..]`, retried while it is interrupted (at most
/// `usize::MAX` times; the last interruption is then reported).
fn read_into<R: Read>(reader: &mut FrameReader<R>, buf: &mut Vec<u8>, start: usize) -> (r: Result<
    usize,
    std::io::Error,
>)
    requires
        start <= old(buf)@.len(),
    ensures
        final(buf)@.len() == old(buf)@.len(),
        forall|i: int| 0 <= i < start ==> final(buf)@[i] == old(buf)@[i],
        r matches Ok(n) ==> {
            &&& n <= old(buf)@.len() - start
            &&& final(reader).consumed() == old(reader).consumed() + final(buf)@.subrange(
                start as int,
                start + n,
            )
        },
        r is Err ==> final(reader).consumed() == old(reader).consumed(),
        final(reader).failures() >= old(reader).failures(),
        r is Err ==> final(reader).failures() > old(reader).failures(),
        r matches Ok(n) ==> final(reader).ends() == old(reader).ends() + if n == 0 && start
            < old(buf)@.len() {
            1nat
        } else {
            0nat
        },
        r is Err ==> final(reader).ends() == old(reader).ends(),
{
    let mut retries: usize = 0;
    loop
        invariant
            reader.consumed() == old(reader).consumed(),
            reader.failures() >= old(reader).failures(),
            reader.ends() == old(reader).ends(),
            buf@.len() == old(buf)@.len(),
            start <= buf@.len(),
            forall|i: int| 0 <= i < start ==> buf@[i] == old(buf)@[i],
        decreases usize::MAX - retries,
    {
        match read_once(reader, buf, start) {
            Ok(n) => {
                return Ok(n);
            },
            Err(e) => {
                if retries < usize::MAX && is_interrupted(&e) {
                    retries = retries + 1;
                } else {
                    return Err(e);
                }
            },
        }
    }
}

/// Wraps `std::io::Error::new(ErrorKind::UnexpectedEof, ..)`.
#[verifier::external_body]
fn eof_in_headers_error() -> std::io::Error {
    std::io::Error::new(std::io::ErrorKind::UnexpectedEof, "EOF in header section")
}

/// Wraps `Write::write_all`: on success every byte of `bytes` was handed to
/// the writer; on an error some prefix of them was (as `write_all`
/// documents), and the failure is counted. The flushed count is unchanged.
#[verifier::external_body]
fn write_all_bytes<W: Write>(writer: &mut FrameWriter<W>, bytes: &[u8]) -> (r: Result<(), std::io::Error>)
    ensures
        r is Ok ==> final(writer).written() == old(writer).written() + bytes@,
        r is Err ==> exists|k: int|
            0 <= k <= bytes@.len() && final(writer).written() == old(writer).written()
                + bytes@.take(k),
        final(writer).flushed_len() == old(writer).flushed_len(),
        r is Ok ==> final(writer).failures() == old(writer).failures(),
        r is Err ==> final(writer).failures() == old(writer).failures() + 1,
{
    writer.inner.write_all(bytes)
}

/// Wraps `Write::flush`: on success every byte written so far has been
/// pushed on; an error is counted. Nothing is written.
#[verifier::external_body]
fn flush_writer<W: Write>(writer: &mut FrameWriter<W>) -> (r: Result<(), std::io::Error>)
    ensures
        final(writer).written() == old(writer).written(),
        r is Ok ==> final(writer).flushed_len() == old(writer).written().len(),
        r is Err ==> final(writer).flushed_len() == old(writer).flushed_len(),
        r is Ok ==> final(writer).failures() == old(writer).failures(),
        r is Err ==> final(writer).failures() == old(writer).failures() + 1,
{
    writer.inner.flush()
}

/// The text of the error `String::from_utf8` reports for `bytes`.
pub uninterp spec fn utf8_error_text(bytes: Seq<u8>) -> Seq<char>;

/// Wraps `String::from_utf8`: the decoded text when `bytes` is valid UTF-8,
/// otherwise the text of the decoding error.
#[verifier::external_body]
pub(crate) fn string_from_utf8(bytes: Vec<u8>) -> (r: Result<String, String>)
    ensures
        r is Ok <==> valid_utf8(bytes@),
        r matches Ok(s) ==> s@ == decode_utf8(bytes@),
        r matches Err(m) ==> m@ == utf8_error_text(bytes@),
{
    String::from_utf8(bytes).map_err(|e| e.to_string())
}

// ── Header-line interpretation ───────────────────────────────────────────────


proof fn lemma_leading_ws_unfold(s: Seq<char>)
    requires
        s.len() > 0,
        is_ws(s[0]),
    ensures
        leading_ws(s) == 1 + leading_ws(s.drop_first()),
{
}

proof fn lemma_trailing_ws_unfold(s: Seq<char>)
    requires
        s.len() > 0,
        is_ws(s.last()),
    ensures
        trailing_ws(s) == 1 + trailing_ws(s.drop_last()),
{
}

/// Bounds `[lo, hi)` of `chars[start..end]` with whitespace trimmed from both
/// ends.
fn trim_bounds(chars: &Vec<char>, start: usize, end: usize) -> (r: (usize, usize))
    requires
        start <= end <= chars@.len(),
    ensures
        start <= r.0 <= r.1 <= end,
        chars@.subrange(r.0 as int, r.1 as int) == trim_ws(chars@.subrange(start as int, end as int)),
{
    let ghost s = chars@.subrange(start as int, end as int);
    let mut lo = start;
    while lo < end && is_ws_char(chars[lo])
        invariant
            start <= lo <= end <= chars@.len(),
            s == chars@.subrange(start as int, end as int),
            leading_ws(s) == (lo - start) + leading_ws(chars@.subrange(lo as int, end as int)),
        decreases end - lo,
    {
        let ghost cur = chars@.subrange(lo as int, end as int);
        proof {
            lemma_leading_ws_unfold(cur);
            assert(cur.drop_first() =~= chars@.subrange(lo as int + 1, end as int));
        }
        lo = lo + 1;
    }
    let ghost t = s.skip(leading_ws(s) as int);
    assert(leading_ws(chars@.subrange(lo as int, end as int)) == 0);
    assert(t =~= chars@.subrange(lo as int, end as int));
    let mut hi = end;
    while hi > lo && is_ws_char(chars[hi - 1])
        invariant
            start <= lo <= hi <= end <= chars@.len(),
            t == chars@.subrange(lo as int, end as int),
            trailing_ws(t) == (end - hi) + trailing_ws(chars@.subrange(lo as int, hi as int)),
        decreases hi - lo,
    {
        let ghost cur = chars@.subrange(lo as int, hi as int);
        proof {
            assert(cur.last() == chars@[hi - 1]);
            lemma_trailing_ws_unfold(cur);
            assert(cur.drop_last() =~= chars@.subrange(lo as int, hi - 1));
        }
        hi = hi - 1;
    }
    assert(trailing_ws(chars@.subrange(lo as int, hi as int)) == 0);
    assert(t.take(t.len() - trailing_ws(t)) =~= chars@.subrange(lo as int, hi as int));
    (lo, hi)
}

/// Code of the ASCII lowercase of `c` (other characters unchanged).
pub open spec fn lower_code(c: char) -> u32 {
    if 65 <= (c as u32) && (c as u32) <= 90 {
        ((c as u32) + 32) as u32
    } else {
        c as u32
    }
}

fn lower_code_exec(c: char) -> (u: u32)
    ensures
        u == lower_code(c),
{
    let u = c as u32;
    if 65 <= u && u <= 90 {
        u + 32
    } else {
        u
    }
}

proof fn lemma_lower_code_agrees(a: char, b: char)
    ensures
        (lower_code(a) == lower_code(b)) == (ascii_lower(a) == ascii_lower(b)),
{
    broadcast use vstd::utf8::char_u32_cast;
    broadcast use vstd::utf8::char_is_scalar;

    let ua = a as u32;
    let ub = b as u32;
    if 'A' <= a && a <= 'Z' {
        assert(65 <= ua <= 90);
    }
    if 'A' <= b && b <= 'Z' {
        assert(65 <= ub <= 90);
    }
    if 65 <= ua <= 90 {
        assert('A' <= a && a <= 'Z');
    }
    if 65 <= ub <= 90 {
        assert('A' <= b && b <= 'Z');
    }
    if ascii_lower(a) == ascii_lower(b) {
        assert((ascii_lower(a) as u32) == (ascii_lower(b) as u32));
        if 65 <= ua <= 90 {
            assert(((ua + 32) as u32) as char == ascii_lower(a));
        }
        if 65 <= ub <= 90 {
            assert(((ub + 32) as u32) as char == ascii_lower(b));
        }
    }
    if lower_code(a) == lower_code(b) {
        assert((lower_code(a) as char) == (lower_code(b) as char));
    }
}

/// `chars[start..end]`, compared ignoring ASCII case, equals `name`.
fn range_eq_ignore_ascii_case(chars: &Vec<char>, start: usize, end: usize, name: &Vec<char>) -> (b: bool)
    requires
        start <= end <= chars@.len(),
    ensures
        b == eq_ignore_ascii_case(chars@.subrange(start as int, end as int), name@),
{
    let ghost s = chars@.subrange(start as int, end as int);
    if end - start != name.len() {
        return false;
    }
    let mut i: usize = 0;
    while i < name.len()
        invariant
            start <= end <= chars@.len(),
            end - start == name@.len(),
            s == chars@.subrange(start as int, end as int),
            0 <= i <= name@.len(),
            forall|k: int| 0 <= k < i ==> ascii_lower(#[trigger] s[k]) == ascii_lower(name@[k]),
        decreases name@.len() - i,
    {
        let a = chars[start + i];
        let b = name[i];
        proof {
            lemma_lower_code_agrees(a, b);
            assert(s[i as int] == a);
        }
        if lower_code_exec(a) != lower_code_exec(b) {
            return false;
        }
        i = i + 1;
    }
    true
}

proof fn lemma_digits_value_monotone(s: Seq<char>, k: int)
    requires
        0 <= k <= s.len(),
    ensures
        digits_value(s.take(k)) <= digits_value(s),
    decreases s.len(),
{
    if k < s.len() {
        lemma_digits_value_monotone(s.drop_last(), k);
        assert(s.drop_last().take(k) =~= s.take(k));
    } else {
        assert(s.take(k) =~= s);
    }
}

/// `chars[start..end]` read as `usize::from_str` reads it.
fn parse_usize_range(chars: &Vec<char>, start: usize, end: usize) -> (r: Option<usize>)
    requires
        start <= end <= chars@.len(),
    ensures
        r == (match parse_usize(chars@.subrange(start as int, end as int)) {
            Some(v) => Some(v as usize),
            None => None::<usize>,
        }),
{
    let ghost s = chars@.subrange(start as int, end as int);
    let mut i = start;
    if i < end && chars[i] == '+' {
        i = i + 1;
    }
    let ghost digits = chars@.subrange(i as int, end as int);
    assert(digits == (if s.len() > 0 && s[0] == '+' {
        s.drop_first()
    } else {
        s
    }));
    if i == end {
        return None;
    }
    let first = i;
    let mut acc: usize = 0;
    while i < end
        invariant
            first <= i <= end <= chars@.len(),
            digits == chars@.subrange(first as int, end as int),
            parse_usize(chars@.subrange(start as int, end as int)) == (if all_digits(digits)
                && digits_value(digits) <= usize::MAX {
                Some(digits_value(digits))
            } else {
                None::<nat>
            }),
            digits.len() > 0,
            forall|k: int| 0 <= k < i - first ==> is_digit(#[trigger] digits[k]),
            acc == digits_value(digits.take(i - first)),
        decreases end - i,
    {
        let c = chars[i];
        let ghost pre = digits.take(i - first);
        let ghost next = digits.take(i - first + 1);
        proof {
            assert(next.drop_last() =~= pre);
            assert(next.last() == c);
        }
        if !('0' <= c && c <= '9') {
            assert(!is_digit(digits[i - first]));
            return None;
        }
        let d = (c as u32 - '0' as u32) as usize;
        assert(d == digit_value(c));
        match acc.checked_mul(10) {
            None => {
                proof {
                    assert(digits_value(next) == acc * 10 + d);
                    lemma_digits_value_monotone(digits, i - first + 1);
                }
                return None;
            },
            Some(m) => match m.checked_add(d) {
                None => {
                    proof {
                        assert(digits_value(next) == acc * 10 + d);
                        lemma_digits_value_monotone(digits, i - first + 1);
                    }
                    return None;
                },
                Some(v) => {
                    acc = v;
                },
            },
        }
        i = i + 1;
    }
    assert(digits.take(end - first) =~= digits);
    Some(acc)
}

/// Index of the first `c` in `chars[from..end]`, if any.
fn index_in(chars: &Vec<char>, c: char, from: usize, end: usize) -> (r: Option<usize>)
    requires
        from <= end <= chars@.len(),
    ensures
        r is None <==> index_from(chars@.subrange(0, end as int), c, from as int) is None,
        r matches Some(i) ==> index_from(chars@.subrange(0, end as int), c, from as int) == Some(
            i as int,
        ) && from <= i < end,
    decreases end - from,
{
    if from >= end {
        None
    } else if chars[from] == c {
        Some(from)
    } else {
        index_in(chars, c, from + 1, end)
    }
}

/// Length of `chars` once its trailing run of `'\r'` / `'\n'` is removed.
fn trim_end_crlf_len(chars: &Vec<char>) -> (n: usize)
    ensures
        n <= chars@.len(),
        chars@.subrange(0, n as int) == trim_end_crlf(chars@),
{
    let mut n = chars.len();
    assert(chars@.subrange(0, n as int) =~= chars@);
    while n > 0 && (chars[n - 1] == '\r' || chars[n - 1] == '\n')
        invariant
            n <= chars@.len(),
            trim_end_crlf(chars@) == trim_end_crlf(chars@.subrange(0, n as int)),
        decreases n,
    {
        let ghost cur = chars@.subrange(0, n as int);
        assert(cur.drop_last() =~= chars@.subrange(0, n - 1));
        n = n - 1;
    }
    n
}

/// Interpret one header line (terminator included): end of headers, a line
/// to skip, or a `Content-Length` value; or the error that line causes. An
/// empty line means the stream ended inside the header block.
pub fn interpret_header_line(line: &str) -> (r: Result<HeaderLine, TransportError>)
    ensures
        header_outcome(r) == Some(classify_header(line@)),
{
    let chars = chars_of(line);
    if chars.len() == 0 {
        return Err(TransportError::Io(eof_in_headers_error()));
    }
    if (chars.len() == 2 && chars[0] == '\r' && chars[1] == '\n') || (chars.len() == 1 && chars[0]
        == '\n') {
        assert(chars@ =~= seq!['\r', '\n'] || chars@ =~= seq!['\n']);
        return Ok(HeaderLine::End);
    }
    assert(chars@ != seq!['\r', '\n'] && chars@ != seq!['\n']) by {
        if chars@ =~= seq!['\r', '\n'] {
            assert(chars@[0] == '\r' && chars@[1] == '\n');
        }
        if chars@ =~= seq!['\n'] {
            assert(chars@[0] == '\n');
        }
    }
    let tlen = trim_end_crlf_len(&chars);
    let ghost t = chars@.subrange(0, tlen as int);
    if tlen == 0 {
        return Ok(HeaderLine::Skip);
    }
    match index_in(&chars, ':', 0, tlen) {
        None => {
            let text = line.substring_char(0, tlen);
            Err(TransportError::MalformedHeader { line: String::from_str(text) })
        },
        Some(i) => {
            let (name_lo, name_hi) = trim_bounds(&chars, 0, i);
            let (val_lo, val_hi) = trim_bounds(&chars, i + 1, tlen);
            assert(t.subrange(0, i as int) =~= chars@.subrange(0, i as int));
            assert(t.subrange(i + 1, t.len() as int) =~= chars@.subrange(i + 1, tlen as int));
            let expected = chars_of("Content-Length");
            proof {
                reveal_strlit("Content-Length");
                assert(expected@ =~= content_length_name());
            }
            if range_eq_ignore_ascii_case(&chars, name_lo, name_hi, &expected) {
                match parse_usize_range(&chars, val_lo, val_hi) {
                    None => {
                        let text = line.substring_char(val_lo, val_hi);
                        Err(TransportError::InvalidContentLength { value: String::from_str(text) })
                    },
                    Some(n) => Ok(HeaderLine::ContentLength(n)),
                }
            } else {
                Ok(HeaderLine::Skip)
            }
        },
    }
}

// ── Reading ───────────────────────────────────────────────────────────────────

/// The bytes of `line` contain no newline except possibly as the last byte.
pub open spec fn newline_only_at_end(b: Seq<u8>) -> bool {
    forall|i: int| 0 <= i < b.len() - 1 ==> b[i] != 10u8
}

/// The message for a header line that reaches the cap without a newline.
pub open spec fn line_cap_text() -> Seq<char> {
    "header line exceeded 8192-byte limit"@
}

/// The message for a header line that is not UTF-8.
pub open spec fn non_utf8_line_text(b: Seq<u8>) -> Seq<char> {
    "header line is not valid UTF-8: "@ + utf8_error_text(b)
}

/// `b` holds no newline byte.
pub open spec fn no_newline(b: Seq<u8>) -> bool {
    forall|i: int| 0 <= i < b.len() ==> b[i] != 10u8
}

/// `b` ends with a newline.
pub open spec fn line_terminated(b: Seq<u8>) -> bool {
    b.len() > 0 && b.last() == 10u8
}

/// Reading one header line consumed `b` and gave `r`: the line is the
/// bytes consumed, up to and including the first newline, within the cap
/// (shorter only at end of stream); a line that reaches the cap without a
/// newline, or is not UTF-8, is refused.
pub open spec fn line_read(b: Seq<u8>, r: Result<String, TransportError>) -> bool {
    &&& b.len() <= MAX_HEADER_LINE_BYTES
    &&& match r {
        Ok(line) => b == encode_utf8(line@) && newline_only_at_end(b),
        Err(TransportError::MalformedHeader { line }) => {
            ||| (line@ == line_cap_text() && b.len() == MAX_HEADER_LINE_BYTES && no_newline(b))
            ||| (line@ == non_utf8_line_text(b) && !valid_utf8(b) && newline_only_at_end(b))
        },
        Err(TransportError::Io(_)) => true,
        _ => false,
    }
}

/// Read one line of at most [`MAX_HEADER_LINE_BYTES`] bytes, terminator
/// included; the empty string at end of stream, and the partial line when
/// the stream ends without a newline. A line that reaches the cap without a
/// newline is refused, and so is a line that is not UTF-8.
fn read_bounded_line<R: BufRead>(reader: &mut FrameReader<R>) -> (r: Result<String, TransportError>)
    ensures
        final(reader).consumed().len() >= old(reader).consumed().len(),
        final(reader).consumed().take(old(reader).consumed().len() as int) == old(
            reader,
        ).consumed(),
        line_read(final(reader).consumed().skip(old(reader).consumed().len() as int), r),
        final(reader).failures() >= old(reader).failures(),
        final(reader).ends() >= old(reader).ends(),
        r matches Err(TransportError::Io(_)) ==> final(reader).failures() > old(
            reader,
        ).failures(),
        final(reader).ends() == old(reader).ends() && r is Ok ==> line_terminated(
            final(reader).consumed().skip(old(reader).consumed().len() as int),
        ),
        final(reader).ends() == old(reader).ends() && (r matches Err(
            TransportError::MalformedHeader { .. },
        )) ==> line_terminated(final(reader).consumed().skip(old(reader).consumed().len() as int))
            || (final(reader).consumed().len() - old(reader).consumed().len()
            == MAX_HEADER_LINE_BYTES && no_newline(
            final(reader).consumed().skip(old(reader).consumed().len() as int),
        )),
{
    let ghost start = reader.consumed();
    let mut buf: Vec<u8> = Vec::new();
    let mut remaining: usize = MAX_HEADER_LINE_BYTES;
    loop
        invariant_except_break
            buf@.len() + remaining == MAX_HEADER_LINE_BYTES,
            forall|i: int| 0 <= i < buf@.len() ==> buf@[i] != 10u8,
            reader.consumed() == start + buf@,
            start == old(reader).consumed(),
            reader.failures() >= old(reader).failures(),
            reader.ends() == old(reader).ends(),
        ensures
            buf@.len() <= MAX_HEADER_LINE_BYTES,
            newline_only_at_end(buf@),
            reader.consumed() == start + buf@,
            start == old(reader).consumed(),
            reader.failures() >= old(reader).failures(),
            reader.ends() >= old(reader).ends(),
            reader.ends() > old(reader).ends() || line_terminated(buf@),
        decreases remaining,
    {
        if remaining == 0 {
            proof {
                assert(reader.consumed().skip(start.len() as int) =~= buf@);
                assert(reader.consumed().take(start.len() as int) =~= start);
            }
            return Err(TransportError::MalformedHeader {
                line: String::from_str("header line exceeded 8192-byte limit"),
            });
        }
        let available = match fill_buf_bytes(reader) {
            Ok(b) => b,
            Err(e) => {
                proof {
                    assert(reader.consumed().skip(start.len() as int) =~= buf@);
                    assert(reader.consumed().take(start.len() as int) =~= start);
                }
                return Err(TransportError::Io(e));
            },
        };
        if available.len() == 0 {
            break ;
        }
        let take = if available.len() < remaining {
            available.len()
        } else {
            remaining
        };
        let mut k: usize = 0;
        let ghost before = buf@;
        while k < take && available[k] != 10u8
            invariant
                0 <= k <= take <= available@.len(),
                take <= remaining,
                buf@ == before + available@.take(k as int),
                forall|i: int| 0 <= i < buf@.len() ==> buf@[i] != 10u8,
            decreases take - k,
        {
            buf.push(available[k]);
            assert(available@.take(k as int + 1) =~= available@.take(k as int).push(available@[k as int]));
            k = k + 1;
        }
        if k < take {
            buf.push(10u8);
            consume_bytes(reader, k + 1);
            proof {
                assert(available@.take(k as int + 1) =~= available@.take(k as int).push(10u8));
                assert(reader.consumed() =~= start + buf@);
            }
            assert(newline_only_at_end(buf@));
            assert(line_terminated(buf@));
            break ;
        }
        consume_bytes(reader, take);
        proof {
            assert(reader.consumed() =~= start + buf@);
        }
        remaining = remaining - take;
    }
    proof {
        assert(reader.consumed().skip(start.len() as int) =~= buf@);
        assert(reader.consumed().take(start.len() as int) =~= start);
    }
    let ghost bytes = buf@;
    match string_from_utf8(buf) {
        Ok(s) => {
            proof {
                decode_utf8_encode_utf8(bytes);
            }
            Ok(s)
        },
        Err(msg) => {
            let mut text = String::from_str("header line is not valid UTF-8: ");
            text.append(msg.as_str());
            Err(TransportError::MalformedHeader { line: text })
        },
    }
}

/// The declared length, checked against the ceiling.
pub fn checked_length(length: Option<usize>, ceiling: ContentLengthCeiling) -> (r: Result<
    usize,
    TransportError,
>)
    ensures
        match length {
            None => r matches Err(TransportError::MissingContentLength),
            Some(n) => if n <= ceiling.bytes() {
                (r matches Ok(m) && m == n)
            } else {
                (r matches Err(TransportError::FrameTooLarge { observed, ceiling: c }) && observed
                    == n && c == ceiling.bytes())
            },
        },
{
    let n = match length {
        None => return Err(TransportError::MissingContentLength),
        Some(n) => n,
    };
    let max_bytes = ceiling.get();
    if n > max_bytes {
        return Err(TransportError::FrameTooLarge { observed: n, ceiling: max_bytes });
    }
    Ok(n)
}

/// The bytes of header lines, in order.
pub open spec fn flat_lines(lines: Seq<Seq<char>>) -> Seq<u8>
    decreases lines.len(),
{
    if lines.len() == 0 {
        Seq::empty()
    } else {
        flat_lines(lines.drop_last()) + encode_utf8(lines.last())
    }
}

/// The `Content-Length` that header lines declare: the last one counts.
pub open spec fn declared_length(lines: Seq<Seq<char>>) -> Option<nat>
    decreases lines.len(),
{
    if lines.len() == 0 {
        None
    } else {
        match classify_header(lines.last()) {
            HeaderModel::ContentLength(n) => Some(n),
            _ => declared_length(lines.drop_last()),
        }
    }
}

/// Every line is one the header block reads past: skipped, or a length.
pub open spec fn header_continues(lines: Seq<Seq<char>>) -> bool {
    forall|i: int|
        0 <= i < lines.len() ==> (classify_header(#[trigger] lines[i]) is Skip || classify_header(
            lines[i],
        ) is ContentLength)
}

/// Each line's bytes hold no newline but possibly as the last byte.
pub open spec fn lines_well_formed(lines: Seq<Seq<char>>) -> bool {
    forall|i: int| 0 <= i < lines.len() ==> newline_only_at_end(encode_utf8(#[trigger] lines[i]))
}

/// The text of the refusal when the header block runs past `usize::MAX`
/// lines.
pub open spec fn line_count_text() -> Seq<char> {
    "header block exceeded the line count limit"@
}

/// `last` is the bytes of a UTF-8 line classified as `m`.
pub open spec fn last_line_is(last: Seq<u8>, m: HeaderModel) -> bool {
    valid_utf8(last) && classify_header(decode_utf8(last)) == m
}

/// How [`read_frame`]'s outcome `r` follows from what it consumed: the
/// header lines it read past (`lines`), the bytes of the last line it read
/// (`last`), and the body bytes (`body`), against the ceiling. The length
/// declared by `lines` is checked against the ceiling before any body byte
/// is read.
pub open spec fn frame_outcome(
    lines: Seq<Seq<char>>,
    last: Seq<u8>,
    body: Seq<u8>,
    ceiling: nat,
    r: Result<Frame, TransportError>,
) -> bool {
    let length = declared_length(lines);
    match r {
        Ok(f) => {
            &&& last_line_is(last, HeaderModel::End)
            &&& length == Some(f.body@.len())
            &&& f.body@.len() <= ceiling
            &&& body == f.body@
        },
        Err(TransportError::MissingContentLength) => {
            &&& last_line_is(last, HeaderModel::End)
            &&& length is None
            &&& body.len() == 0
        },
        Err(TransportError::FrameTooLarge { observed, ceiling: c }) => {
            &&& last_line_is(last, HeaderModel::End)
            &&& length == Some(observed as nat)
            &&& c == ceiling
            &&& observed > c
            &&& body.len() == 0
        },
        Err(TransportError::TruncatedBody { expected, actual }) => {
            &&& last_line_is(last, HeaderModel::End)
            &&& length == Some(expected as nat)
            &&& expected <= ceiling
            &&& body.len() == actual
            &&& actual < expected
        },
        Err(TransportError::InvalidContentLength { value }) => {
            &&& last_line_is(last, HeaderModel::InvalidLength(value@))
            &&& body.len() == 0
        },
        Err(TransportError::MalformedHeader { line }) => {
            &&& body.len() == 0
            &&& {
                ||| last_line_is(last, HeaderModel::Malformed(line@))
                ||| (line@ == line_cap_text() && last.len() == MAX_HEADER_LINE_BYTES && no_newline(
                    last,
                ))
                ||| (line@ == non_utf8_line_text(last) && !valid_utf8(last))
                ||| (line@ == line_count_text() && last.len() == 0 && lines.len() == usize::MAX)
            }
        },
        Err(TransportError::Io(_)) => true,
    }
}

/// Every line's bytes end with a newline.
pub open spec fn lines_terminated(lines: Seq<Seq<char>>) -> bool {
    forall|i: int| 0 <= i < lines.len() ==> line_terminated(encode_utf8(#[trigger] lines[i]))
}

/// What a frame read on which the reader reported neither an error nor the
/// end of the stream gives: each line read ends with its newline, and so
/// does the last one unless the read stopped at a cap (the line length or
/// the line count); the outcome is neither an I/O error nor a truncated
/// body.
pub open spec fn clean_read(lines: Seq<Seq<char>>, last: Seq<u8>, r: Result<Frame, TransportError>) -> bool {
    &&& lines_terminated(lines)
    &&& newline_only_at_end(last)
    &&& (line_terminated(last) || (no_newline(last) && (last.len() == MAX_HEADER_LINE_BYTES
        || lines.len() == usize::MAX)))
    &&& !(r matches Err(TransportError::Io(_)))
    &&& !(r matches Err(TransportError::TruncatedBody { .. }))
}

/// `after` is `before` followed by what one frame read consumed: the header
/// lines it read past, the last line it read, and the body bytes; its
/// outcome `r` follows from them as [`frame_outcome`] states, and when
/// `clean` holds (the reader reported neither an error nor the end of the
/// stream) the read was a [`clean_read`].
pub open spec fn frame_read(
    before: Seq<u8>,
    after: Seq<u8>,
    ceiling: nat,
    r: Result<Frame, TransportError>,
    clean: bool,
) -> bool {
    exists|lines: Seq<Seq<char>>, last: Seq<u8>, body: Seq<u8>|
        {
            &&& after == before + flat_lines(lines) + last + body
            &&& header_continues(lines)
            &&& lines_well_formed(lines)
            &&& clean ==> clean_read(lines, last, r)
            &&& #[trigger] frame_outcome(lines, last, body, ceiling, r)
        }
}

proof fn lemma_flat_push(lines: Seq<Seq<char>>, l: Seq<char>)
    ensures
        flat_lines(lines.push(l)) == flat_lines(lines) + encode_utf8(l),
{
    assert(lines.push(l).drop_last() =~= lines);
}

/// Read one frame from `reader`.
///
/// Header lines are read until the blank line; the last `Content-Length`
/// value counts and other headers are ignored. A declared length above the
/// ceiling is refused before any body byte is read. The body is then read in
/// full; interrupted reads are retried. What was consumed is the header
/// lines, then the last line read, then the body bytes read, and the outcome
/// follows from them as [`frame_read`] states. An I/O error comes only when
/// the reader reported an error or the end of the stream, and a truncated
/// body only when it reported the end of the stream.
pub fn read_frame<R: BufRead>(reader: &mut FrameReader<R>, ceiling: ContentLengthCeiling) -> (r:
    Result<Frame, TransportError>)
    ensures
        frame_read(
            old(reader).consumed(),
            final(reader).consumed(),
            ceiling.bytes(),
            r,
            final(reader).failures() == old(reader).failures() && final(reader).ends() == old(
                reader,
            ).ends(),
        ),
        final(reader).failures() >= old(reader).failures(),
        final(reader).ends() >= old(reader).ends(),
        r matches Err(TransportError::Io(_)) ==> final(reader).failures() > old(reader).failures()
            || final(reader).ends() > old(reader).ends(),
        r matches Err(TransportError::TruncatedBody { .. }) ==> final(reader).ends() > old(
            reader,
        ).ends(),
{
    broadcast use encode_utf8_valid_utf8, encode_utf8_decode_utf8;

    let ghost start = reader.consumed();
    let ghost mut lines: Seq<Seq<char>> = Seq::empty();
    let mut content_length: Option<usize> = None;
    // Each header line consumes at least one byte of the stream, so the
    // line count is bounded by what a process can read; it serves as the
    // loop's measure.
    let mut lines_read: usize = 0;
    let ghost mut last: Seq<u8> = Seq::empty();
    loop
        invariant_except_break
            reader.consumed() == start + flat_lines(lines),
            header_continues(lines),
            lines_well_formed(lines),
            start == old(reader).consumed(),
            match content_length {
                Some(n) => declared_length(lines) == Some(n as nat),
                None => declared_length(lines) is None,
            },
            lines.len() == lines_read,
            reader.failures() >= old(reader).failures(),
            reader.ends() >= old(reader).ends(),
            reader.ends() == old(reader).ends() ==> lines_terminated(lines),
        ensures
            reader.consumed() == start + flat_lines(lines) + last,
            header_continues(lines),
            lines_well_formed(lines),
            start == old(reader).consumed(),
            match content_length {
                Some(n) => declared_length(lines) == Some(n as nat),
                None => declared_length(lines) is None,
            },
            last_line_is(last, HeaderModel::End),
            newline_only_at_end(last),
            reader.failures() >= old(reader).failures(),
            reader.ends() >= old(reader).ends(),
            reader.ends() == old(reader).ends() ==> lines_terminated(lines) && line_terminated(
                last,
            ),
        decreases usize::MAX - lines_read,
    {
        if lines_read == usize::MAX {
            let r = Err(TransportError::MalformedHeader {
                line: String::from_str("header block exceeded the line count limit"),
            });
            proof {
                assert(reader.consumed() =~= start + flat_lines(lines) + Seq::<u8>::empty() + Seq::<
                    u8,
                >::empty());
                assert(frame_outcome(lines, Seq::empty(), Seq::empty(), ceiling.bytes(), r));
            }
            return r;
        }
        lines_read = lines_read + 1;
        let ghost before = reader.consumed();
        let ghost ends_before = reader.ends();
        let line_result = read_bounded_line(reader);
        let ghost b = reader.consumed().skip(before.len() as int);
        proof {
            assert(reader.consumed() =~= before + b);
        }
        let line = match line_result {
            Ok(l) => l,
            Err(e) => {
                let r: Result<Frame, TransportError> = Err(e);
                proof {
                    assert(reader.consumed() =~= start + flat_lines(lines) + b + Seq::<u8>::empty());
                    assert(frame_outcome(lines, b, Seq::empty(), ceiling.bytes(), r));
                }
                return r;
            },
        };
        proof {
            assert(b == encode_utf8(line@));
            encode_utf8_valid_utf8(line@);
            encode_utf8_decode_utf8(line@);
            assert(valid_utf8(b));
            assert(decode_utf8(b) == line@);
            if reader.ends() == ends_before {
                assert(line_terminated(b));
            }
        }
        match interpret_header_line(line.as_str()) {
            Ok(HeaderLine::End) => {
                proof {
                    last = b;
                }
                break ;
            },
            Ok(HeaderLine::Skip) => {
                proof {
                    lemma_flat_push(lines, line@);
                    assert(lines.push(line@).drop_last() =~= lines);
                    lines = lines.push(line@);
                }
            },
            Ok(HeaderLine::ContentLength(n)) => {
                content_length = Some(n);
                proof {
                    lemma_flat_push(lines, line@);
                    assert(lines.push(line@).drop_last() =~= lines);
                    lines = lines.push(line@);
                }
            },
            Err(e) => {
                let r: Result<Frame, TransportError> = Err(e);
                proof {
                    assert(reader.consumed() =~= start + flat_lines(lines) + b + Seq::<u8>::empty());
                    assert(frame_outcome(lines, b, Seq::empty(), ceiling.bytes(), r));
                    if r matches Err(TransportError::Io(_)) {
                        assert(line@.len() == 0);
                        assert(b.len() == 0);
                        assert(reader.ends() > old(reader).ends() || reader.failures() > old(
                            reader,
                        ).failures());
                    }
                }
                return r;
            },
        }
    }
    let length = match checked_length(content_length, ceiling) {
        Ok(n) => n,
        Err(e) => {
            let r: Result<Frame, TransportError> = Err(e);
            proof {
                assert(reader.consumed() =~= start + flat_lines(lines) + last + Seq::<u8>::empty());
                assert(frame_outcome(lines, last, Seq::empty(), ceiling.bytes(), r));
            }
            return r;
        },
    };
    let ghost before_body = reader.consumed();
    let r = read_body(reader, length);
    proof {
        let body = reader.consumed().skip(before_body.len() as int);
        assert(reader.consumed() =~= start + flat_lines(lines) + last + body);
        if r is Ok {
            assert(body =~= r->Ok_0.body@);
        }
        assert(frame_outcome(lines, last, body, ceiling.bytes(), r));
    }
    r
}

/// A line `x` that is a prefix of `y`, ends with its only newline, and
/// `y`'s first newline at `k`: `x` is `y` up to and including that newline.
proof fn lemma_line_prefix(x: Seq<u8>, y: Seq<u8>, k: int)
    requires
        x.len() > 0,
        x.last() == 10u8,
        newline_only_at_end(x),
        x.len() <= y.len(),
        y.take(x.len() as int) == x,
        0 <= k < y.len(),
        y[k] == 10u8,
        forall|j: int| 0 <= j < k ==> y[j] != 10u8,
    ensures
        x == y.take(k + 1),
{
    assert(y[x.len() - 1] == x[x.len() - 1]);
    if x.len() - 1 > k {
        assert(x[k] == y[k]);
    }
    assert(x.len() == k + 1);
}

/// The bytes of the header line `write_frame` emits for `len`, and its
/// shape: ASCII, its only newline last.
proof fn lemma_length_line_bytes(len: nat)
    requires
        len <= usize::MAX,
    ensures
        encode_utf8(length_header_line(len)).len() == length_header_line(len).len(),
        encode_utf8(length_header_line(len)).len() > 0,
        encode_utf8(length_header_line(len)).last() == 10u8,
        forall|j: int|
            0 <= j < encode_utf8(length_header_line(len)).len() - 1 ==> encode_utf8(
                length_header_line(len),
            )[j] != 10u8,
{
    let line = length_header_line(len);
    lemma_length_line_shape(len);
    lemma_encode_ascii(line);
    let e = encode_utf8(line);
    assert(e[e.len() - 1] as u32 == line[line.len() - 1] as u32);
    assert forall|j: int| 0 <= j < e.len() - 1 implies e[j] != 10u8 by {
        assert(e[j] as u32 == line[j] as u32);
    }
}

/// Law: a frame that `write_frame` emitted reads back as the same body.
/// Whatever bytes follow the frame in the stream, a [`read_frame`] on which
/// the reader reported neither an error nor the end of the stream, and which
/// consumed bytes of that stream, returns the frame's body and consumes
/// exactly the frame, when the body is within the ceiling.
#[verifier::rlimit(80)]
pub proof fn law_read_gives_back_written_frame(
    b: Seq<u8>,
    rest: Seq<u8>,
    before: Seq<u8>,
    after: Seq<u8>,
    ceiling: nat,
    r: Result<Frame, TransportError>,
)
    requires
        b.len() <= ceiling,
        b.len() <= usize::MAX,
        frame_read(before, after, ceiling, r, true),
        after.len() <= before.len() + (frame_bytes(b) + rest).len(),
        after.skip(before.len() as int) == (frame_bytes(b) + rest).take(
            after.len() - before.len(),
        ),
    ensures
        r matches Ok(f) && f.body@ == b,
        after == before + frame_bytes(b),
{
    broadcast use encode_utf8_valid_utf8, encode_utf8_decode_utf8;

    let (lines, last, body) = choose|lines: Seq<Seq<char>>, last: Seq<u8>, body: Seq<u8>|
        {
            &&& after == before + flat_lines(lines) + last + body
            &&& header_continues(lines)
            &&& lines_well_formed(lines)
            &&& true ==> clean_read(lines, last, r)
            &&& #[trigger] frame_outcome(lines, last, body, ceiling, r)
        };
    let n = b.len();
    let l1 = length_header_line(n);
    let e1 = encode_utf8(l1);
    let e2 = encode_utf8(seq!['\r', '\n']);
    let s = frame_bytes(b) + rest;
    let c = flat_lines(lines) + last + body;
    assert(after.skip(before.len() as int) =~= c);
    assert(s.take(c.len() as int) == c);
    lemma_length_line_bytes(n);
    lemma_length_line_shape(n);
    lemma_length_header_classified(n);
    lemma_encode_concat(l1, seq!['\r', '\n']);
    lemma_encode_ascii(seq!['\r', '\n']);
    lemma_encode_ascii(l1);
    assert(e2 =~= seq![13u8, 10u8]) by {
        assert(e2[0] as u32 == 13);
        assert(e2[1] as u32 == 10);
    }
    assert(s =~= e1 + (e2 + (b + rest)));
    assert(e1.len() <= 40);
    // The first line of `s` is `e1`.
    assert(s[e1.len() - 1] == 10u8);
    assert forall|j: int| 0 <= j < e1.len() - 1 implies s[j] != 10u8 by {
        assert(s[j] == e1[j]);
    }
    assert(s.take(e1.len() as int) =~= e1);
    encode_utf8_decode_utf8(l1);
    if lines.len() == 0 {
        assert(flat_lines(lines) =~= Seq::<u8>::empty());
        assert(c.take(last.len() as int) =~= last);
        assert(s.take(last.len() as int) =~= last);
        if line_terminated(last) {
            lemma_line_prefix(last, s, e1.len() - 1);
            assert(last =~= e1);
            assert(decode_utf8(last) == l1);
            assert(false);
        } else {
            assert(last.len() == MAX_HEADER_LINE_BYTES);
            assert(last[e1.len() - 1] == s[e1.len() - 1]);
            assert(false);
        }
    }
    let x0 = encode_utf8(lines[0]);
    lemma_flat_first(lines);
    assert(c.take(x0.len() as int) =~= x0);
    assert(s.take(x0.len() as int) =~= x0);
    assert(line_terminated(x0));
    lemma_line_prefix(x0, s, e1.len() - 1);
    assert(x0 =~= e1);
    encode_utf8_decode_utf8(lines[0]);
    assert(lines[0] == l1);
    let t = s.skip(e1.len() as int);
    assert(t =~= e2 + (b + rest));
    assert(t[1] == 10u8 && t[0] != 10u8);
    let c1 = c.skip(e1.len() as int);
    assert(c1 =~= flat_lines(lines.drop_first()) + last + body);
    assert(t.take(c1.len() as int) =~= c1);
    if lines.len() >= 2 {
        let x1 = encode_utf8(lines[1]);
        lemma_flat_first(lines.drop_first());
        assert(lines.drop_first()[0] == lines[1]);
        assert(c1.take(x1.len() as int) =~= x1);
        assert(t.take(x1.len() as int) =~= x1);
        assert(line_terminated(x1));
        lemma_line_prefix(x1, t, 1);
        assert(x1 =~= e2);
        encode_utf8_decode_utf8(lines[1]);
        encode_utf8_decode_utf8(seq!['\r', '\n']);
        assert(lines[1] == seq!['\r', '\n']);
        assert(classify_header(lines[1]) is End);
        assert(false);
    }
    assert(lines.drop_first() =~= Seq::<Seq<char>>::empty());
    assert(c1 =~= last + body);
    assert(c1.take(last.len() as int) =~= last);
    assert(t.take(last.len() as int) =~= last);
    if !line_terminated(last) {
        assert(last.len() == MAX_HEADER_LINE_BYTES);
        assert(last[1] == t[1]);
        assert(false);
    }
    lemma_line_prefix(last, t, 1);
    assert(last =~= e2);
    encode_utf8_decode_utf8(seq!['\r', '\n']);
    assert(decode_utf8(last) == seq!['\r', '\n']);
    assert(classify_header(decode_utf8(last)) is End);
    assert(lines =~= seq![l1]);
    assert(seq![l1].drop_last() =~= Seq::<Seq<char>>::empty());
    assert(declared_length(lines) == Some(n));
    assert(r is Ok);
    let u = t.skip(2);
    assert(u =~= b + rest);
    assert(body.len() == n);
    assert(c1.skip(2) =~= body);
    assert(u.take(n as int) =~= body);
    assert(body =~= b);
    assert(c =~= e1 + e2 + b);
    assert(frame_bytes(b) =~= encode_utf8(l1 + seq!['\r', '\n']) + b);
    assert(after =~= before + c);
}

/// The bytes of header lines begin with the first line's.
proof fn lemma_flat_first(lines: Seq<Seq<char>>)
    requires
        lines.len() > 0,
    ensures
        flat_lines(lines) == encode_utf8(lines[0]) + flat_lines(lines.drop_first()),
    decreases lines.len(),
{
    if lines.len() == 1 {
        assert(lines.drop_last() =~= Seq::<Seq<char>>::empty());
        assert(lines.drop_first() =~= Seq::<Seq<char>>::empty());
        assert(flat_lines(lines.drop_first()) =~= Seq::<u8>::empty());
        assert(flat_lines(lines) =~= encode_utf8(lines[0]));
    } else {
        lemma_flat_first(lines.drop_last());
        assert(lines.drop_last().drop_first() =~= lines.drop_first().drop_last());
        assert(lines.drop_first().last() == lines.last());
        assert(lines.drop_last()[0] == lines[0]);
    }
}

/// Read exactly `length` body bytes: what was consumed is the body read,
/// all `length` bytes of it on success and fewer when the stream ended
/// first.
fn read_body<R: BufRead>(reader: &mut FrameReader<R>, length: usize) -> (r: Result<
    Frame,
    TransportError,
>)
    ensures
        final(reader).consumed().len() >= old(reader).consumed().len(),
        final(reader).consumed().take(old(reader).consumed().len() as int) == old(
            reader,
        ).consumed(),
        r matches Ok(f) ==> f.body@.len() == length && final(reader).consumed() == old(
            reader,
        ).consumed() + f.body@,
        r matches Err(TransportError::TruncatedBody { expected, actual }) ==> {
            &&& expected == length
            &&& actual < length
            &&& final(reader).consumed().len() == old(reader).consumed().len() + actual
        },
        r matches Err(e) ==> (e is Io || e is TruncatedBody),
        final(reader).failures() >= old(reader).failures(),
        final(reader).ends() >= old(reader).ends(),
        r matches Err(TransportError::Io(_)) ==> final(reader).failures() > old(
            reader,
        ).failures(),
        r matches Err(TransportError::TruncatedBody { .. }) ==> final(reader).ends() > old(
            reader,
        ).ends(),
{
    let ghost start = reader.consumed();
    let mut body: Vec<u8> = vec![0u8; length];
    let mut total_read: usize = 0;
    while total_read < length
        invariant
            body@.len() == length,
            total_read <= length,
            reader.consumed() == start + body@.take(total_read as int),
            start == old(reader).consumed(),
            reader.failures() >= old(reader).failures(),
            reader.ends() >= old(reader).ends(),
        decreases length - total_read,
    {
        let ghost before = body@;
        match read_into(reader, &mut body, total_read) {
            Ok(0) => {
                proof {
                    assert(body@.subrange(total_read as int, total_read as int) =~= Seq::<u8>::empty());
                    assert(body@.take(total_read as int) =~= before.take(total_read as int));
                    assert(reader.consumed().take(start.len() as int) =~= start);
                }
                return Err(TransportError::TruncatedBody { expected: length, actual: total_read });
            },
            Ok(n) => {
                proof {
                    assert(body@.take(total_read as int) =~= before.take(total_read as int));
                    assert(body@.take(total_read + n) =~= body@.take(total_read as int)
                        + body@.subrange(total_read as int, total_read + n));
                }
                total_read = total_read + n;
            },
            Err(e) => {
                proof {
                    assert(reader.consumed().take(start.len() as int) =~= start);
                }
                return Err(TransportError::Io(e));
            },
        }
    }
    proof {
        assert(body@.take(length as int) =~= body@);
    }
    Ok(Frame { body })
}

// ── Writing ───────────────────────────────────────────────────────────────────

/// The header block for a body of `len` bytes: `Content-Length: len\r\n\r\n`.
fn header_text(len: usize) -> (s: String)
    ensures
        s@ == frame_header(len as nat),
{
    let mut s = String::from_str("Content-Length: ");
    s.append(usize_to_string(len).as_str());
    s.append("\r\n\r\n");
    proof {
        reveal_strlit("Content-Length: ");
        reveal_strlit("\r\n\r\n");
        assert(s@ =~= frame_header(len as nat));
    }
    s
}

/// `w` extends `old` by a prefix of `bytes`.
pub open spec fn wrote_prefix(w: Seq<u8>, old: Seq<u8>, bytes: Seq<u8>) -> bool {
    exists|k: int| 0 <= k <= bytes.len() && w == old + bytes.take(k)
}

/// Write one frame: `Content-Length: N\r\n\r\n` followed by the body, as
/// one buffer ([`encode_frame`]), then flush, so that buffered writers hand
/// the whole frame on. On success the writer received exactly
/// [`frame_bytes`] of the body and a flush covered it; an error comes only
/// when the writer reported one, and then it received some prefix of them.
pub fn write_frame<W: Write>(writer: &mut FrameWriter<W>, frame: &Frame) -> (r: Result<
    (),
    TransportError,
>)
    ensures
        r matches Err(e) ==> e is Io,
        r is Ok ==> {
            &&& final(writer).written() == old(writer).written() + frame_bytes(frame.body@)
            &&& final(writer).flushed_len() == final(writer).written().len()
        },
        r is Err ==> wrote_prefix(
            final(writer).written(),
            old(writer).written(),
            frame_bytes(frame.body@),
        ),
        r is Ok ==> final(writer).failures() == old(writer).failures(),
        r is Err ==> final(writer).failures() > old(writer).failures(),
{
    let bytes = encode_frame(frame);
    match write_all_bytes(writer, bytes.as_slice()) {
        Ok(()) => {},
        Err(e) => return Err(TransportError::Io(e)),
    }
    match flush_writer(writer) {
        Ok(()) => Ok(()),
        Err(e) => {
            assert(bytes@.take(bytes@.len() as int) =~= bytes@);
            Err(TransportError::Io(e))
        },
    }
}

/// The bytes [`write_frame`] emits for `frame`, as one buffer.
pub fn encode_frame(frame: &Frame) -> (bytes: Vec<u8>)
    ensures
        bytes@ == frame_bytes(frame.body@),
{
    let header = header_text(frame.body.len());
    let mut out = header.as_str().as_bytes_vec();
    let mut i: usize = 0;
    let ghost start = out@;
    while i < frame.body.len()
        invariant
            0 <= i <= frame.body@.len(),
            out@ == start + frame.body@.take(i as int),
        decreases frame.body@.len() - i,
    {
        out.push(frame.body[i]);
        assert(frame.body@.take(i as int + 1) =~= frame.body@.take(i as int).push(frame.body@[i as int]));
        i = i + 1;
    }
    assert(frame.body@.take(frame.body@.len() as int) =~= frame.body@);
    out
}

} // verus!
