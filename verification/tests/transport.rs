use std::io::{BufReader, BufWriter, Cursor, ErrorKind, Read};

use clarion::plugin::limits::ContentLengthCeiling;
use clarion::plugin::transport::{
    encode_frame, interpret_header_line, read_frame, write_frame, Frame, FrameReader, FrameWriter,
    HeaderLine, TransportError,
    MAX_HEADER_LINE_BYTES,
};

#[test]
fn transport_01_single_frame_round_trip() {
    let body = b"{\"jsonrpc\":\"2.0\",\"method\":\"initialized\",\"params\":{}}".to_vec();
    let frame = Frame { body: body.clone() };

    let mut buf = FrameWriter::new(Vec::<u8>::new());
    write_frame(&mut buf, &frame).expect("write_frame must succeed");

    let mut cursor = FrameReader::new(Cursor::new(buf.into_inner()));
    let decoded =
        read_frame(&mut cursor, ContentLengthCeiling::unbounded()).expect("read_frame must succeed");

    assert_eq!(decoded.body, body);
}

#[test]
fn transport_02_exact_ceiling_boundary_succeeds() {
    let body = b"hello".to_vec();
    let frame = Frame { body: body.clone() };
    let max = body.len();

    let mut buf = FrameWriter::new(Vec::<u8>::new());
    write_frame(&mut buf, &frame).expect("write");

    let mut cursor = FrameReader::new(Cursor::new(buf.into_inner()));
    let decoded = read_frame(&mut cursor, ContentLengthCeiling::new(max))
        .expect("read at exact boundary must succeed");
    assert_eq!(decoded.body, body);
}

#[test]
fn transport_03_content_length_above_ceiling_returns_frame_too_large_without_consuming_body() {
    let body = b"hello world".to_vec();
    let frame = Frame { body: body.clone() };
    let max = body.len() - 1;

    let mut buf = FrameWriter::new(Vec::<u8>::new());
    write_frame(&mut buf, &frame).expect("write");

    let header_len = format!("Content-Length: {}\r\n\r\n", body.len()).len();

    let mut cursor = FrameReader::new(Cursor::new(buf.into_inner()));
    let err = read_frame(&mut cursor, ContentLengthCeiling::new(max))
        .expect_err("should fail with FrameTooLarge");

    assert!(
        matches!(
            err,
            TransportError::FrameTooLarge {
                observed,
                ceiling,
            } if observed == body.len() && ceiling == max
        ),
        "unexpected error: {err:?}"
    );

    let pos =
        usize::try_from(cursor.get_ref().position()).expect("cursor position fits in usize on test host");
    assert_eq!(
        pos, header_len,
        "body must not have been consumed; cursor should be at position {header_len}, got {pos}"
    );
}

#[test]
fn transport_04_two_consecutive_frames_round_trip() {
    let body1 = b"{\"jsonrpc\":\"2.0\",\"method\":\"initialize\",\"params\":{},\"id\":1}".to_vec();
    let body2 = b"{\"jsonrpc\":\"2.0\",\"method\":\"shutdown\",\"params\":{},\"id\":2}".to_vec();

    let mut buf = FrameWriter::new(Vec::<u8>::new());
    write_frame(&mut buf, &Frame { body: body1.clone() }).expect("write 1");
    write_frame(&mut buf, &Frame { body: body2.clone() }).expect("write 2");

    let mut cursor = FrameReader::new(Cursor::new(buf.into_inner()));
    let f1 = read_frame(&mut cursor, ContentLengthCeiling::unbounded()).expect("read frame 1");
    let f2 = read_frame(&mut cursor, ContentLengthCeiling::unbounded()).expect("read frame 2");

    assert_eq!(f1.body, body1, "first frame body mismatch");
    assert_eq!(f2.body, body2, "second frame body mismatch");
}

#[test]
fn transport_05_missing_content_length_returns_error() {
    let raw = b"X-Custom: stuff\r\n\r\n{\"key\":\"value\"}";
    let mut cursor = FrameReader::new(Cursor::new(raw.as_ref()));
    let err = read_frame(&mut cursor, ContentLengthCeiling::unbounded()).expect_err("should fail");
    assert!(
        matches!(err, TransportError::MissingContentLength),
        "expected MissingContentLength, got: {err:?}"
    );
}

#[test]
fn transport_06_malformed_content_length_returns_invalid_content_length() {
    let raw = b"Content-Length: abc\r\n\r\n";
    let mut cursor = FrameReader::new(Cursor::new(raw.as_ref()));
    let err = read_frame(&mut cursor, ContentLengthCeiling::unbounded()).expect_err("should fail");
    assert!(
        matches!(
            err,
            TransportError::InvalidContentLength { ref value } if value == "abc"
        ),
        "expected InvalidContentLength, got: {err:?}"
    );
}

#[test]
fn transport_07_truncated_body_returns_truncated_body_error() {
    let raw = b"Content-Length: 10\r\n\r\nhello";
    let mut cursor = FrameReader::new(Cursor::new(raw.as_ref()));
    let err = read_frame(&mut cursor, ContentLengthCeiling::unbounded()).expect_err("should fail");
    assert!(
        matches!(
            err,
            TransportError::TruncatedBody {
                expected: 10,
                actual: 5
            }
        ),
        "expected TruncatedBody, got: {err:?}"
    );
}

struct InterruptOnceReader<R> {
    inner: R,
    interrupted: bool,
}

impl<R: Read> Read for InterruptOnceReader<R> {
    fn read(&mut self, buf: &mut [u8]) -> std::io::Result<usize> {
        if !self.interrupted {
            self.interrupted = true;
            return Err(std::io::Error::new(ErrorKind::Interrupted, "simulated signal"));
        }
        self.inner.read(buf)
    }
}

#[test]
fn transport_08_eintr_during_body_read_is_retried_transparently() {
    let body = b"hello world".to_vec();
    let mut buf = FrameWriter::new(Vec::<u8>::new());
    write_frame(&mut buf, &Frame { body: body.clone() }).expect("write");

    let raw = Cursor::new(buf.into_inner());
    let flaky = InterruptOnceReader { inner: raw, interrupted: false };
    let mut reader = FrameReader::new(BufReader::new(flaky));

    let frame = read_frame(&mut reader, ContentLengthCeiling::unbounded())
        .expect("EINTR must be retried, not propagated");
    assert_eq!(frame.body, body);
}

#[test]
fn transport_09_write_frame_flushes_buffered_writer() {
    let body = b"{\"jsonrpc\":\"2.0\",\"method\":\"initialized\",\"params\":{}}".to_vec();
    let frame = Frame { body: body.clone() };

    let sink: Vec<u8> = Vec::with_capacity(1024);
    let mut bw = FrameWriter::new(BufWriter::new(sink));
    write_frame(&mut bw, &frame).expect("write_frame");

    let inner = bw.into_inner().into_inner().expect("BufWriter should have been flushed");

    let expected_header = format!("Content-Length: {}\r\n\r\n", body.len());
    let mut expected = expected_header.into_bytes();
    expected.extend_from_slice(&body);

    assert_eq!(
        inner, expected,
        "write_frame must flush the BufWriter so the whole frame reaches the inner sink"
    );
}

#[test]
fn transport_10_oversize_header_line_returns_malformed_header() {
    let payload = vec![b'a'; 16 * 1024];
    let mut cursor = FrameReader::new(Cursor::new(payload));
    let err = read_frame(&mut cursor, ContentLengthCeiling::unbounded()).expect_err("should fail");
    assert!(
        matches!(err, TransportError::MalformedHeader { ref line } if line.contains("8192") || line.contains(&format!("{MAX_HEADER_LINE_BYTES}"))),
        "expected MalformedHeader with size hint, got: {err:?}"
    );
}

#[test]
fn transport_11_content_length_with_trailing_whitespace_parses() {
    let raw = b"Content-Length: 5   \r\n\r\nhello";
    let mut cursor = FrameReader::new(Cursor::new(raw.as_ref()));
    let frame = read_frame(&mut cursor, ContentLengthCeiling::unbounded())
        .expect("must parse with trailing ws");
    assert_eq!(frame.body, b"hello");
}

// ── Further cases ─────────────────────────────────────────────────────────────

#[test]
fn header_name_is_case_insensitive_and_last_length_wins() {
    let raw = b"content-length: 3\r\nX-Other: 1\r\nCONTENT-LENGTH: 2\r\n\r\nhello";
    let mut cursor = FrameReader::new(Cursor::new(raw.as_ref()));
    let frame = read_frame(&mut cursor, ContentLengthCeiling::unbounded()).expect("frame");
    assert_eq!(frame.body, b"he");
}

#[test]
fn bare_newline_ends_the_header_block() {
    let raw = b"Content-Length: 2\n\nhi";
    let mut cursor = FrameReader::new(Cursor::new(raw.as_ref()));
    let frame = read_frame(&mut cursor, ContentLengthCeiling::unbounded()).expect("frame");
    assert_eq!(frame.body, b"hi");
}

#[test]
fn header_without_colon_is_malformed() {
    let raw = b"garbage line\r\n\r\n";
    let mut cursor = FrameReader::new(Cursor::new(raw.as_ref()));
    let err = read_frame(&mut cursor, ContentLengthCeiling::unbounded()).expect_err("should fail");
    assert!(
        matches!(err, TransportError::MalformedHeader { ref line } if line == "garbage line"),
        "got {err:?}"
    );
}

#[test]
fn eof_inside_headers_is_an_io_error() {
    let raw = b"Content-Length: 2\r\n";
    let mut cursor = FrameReader::new(Cursor::new(raw.as_ref()));
    let err = read_frame(&mut cursor, ContentLengthCeiling::unbounded()).expect_err("should fail");
    match err {
        TransportError::Io(e) => assert_eq!(e.kind(), ErrorKind::UnexpectedEof),
        other => panic!("expected Io(UnexpectedEof), got {other:?}"),
    }
}

#[test]
fn non_utf8_header_line_is_malformed() {
    let raw: &[u8] = b"\xff\xfe: 1\r\n\r\n";
    let mut cursor = FrameReader::new(Cursor::new(raw));
    let err = read_frame(&mut cursor, ContentLengthCeiling::unbounded()).expect_err("should fail");
    assert!(
        matches!(err, TransportError::MalformedHeader { ref line } if line.starts_with("header line is not valid UTF-8: ")),
        "got {err:?}"
    );
}

#[test]
fn plus_sign_and_overflow_in_length() {
    let mut ok = FrameReader::new(Cursor::new(b"Content-Length: +2\r\n\r\nhi".as_ref()));
    assert_eq!(read_frame(&mut ok, ContentLengthCeiling::unbounded()).unwrap().body, b"hi");
    let mut big = FrameReader::new(Cursor::new(b"Content-Length: 99999999999999999999999\r\n\r\n".as_ref()));
    let err = read_frame(&mut big, ContentLengthCeiling::unbounded()).expect_err("overflow");
    assert!(matches!(err, TransportError::InvalidContentLength { ref value } if value == "99999999999999999999999"));
}

#[test]
fn interpret_header_line_cases() {
    assert!(matches!(interpret_header_line("\r\n"), Ok(HeaderLine::End)));
    assert!(matches!(interpret_header_line("\n"), Ok(HeaderLine::End)));
    assert!(matches!(interpret_header_line("\r\r\n"), Ok(HeaderLine::Skip)));
    assert!(matches!(interpret_header_line("X: y\r\n"), Ok(HeaderLine::Skip)));
    assert!(matches!(
        interpret_header_line("  Content-Length :  12 \r\n"),
        Ok(HeaderLine::ContentLength(12))
    ));
    assert!(matches!(interpret_header_line(""), Err(TransportError::Io(_))));
}

#[test]
fn encode_frame_matches_written_bytes() {
    let frame = Frame { body: b"abc".to_vec() };
    let mut written = FrameWriter::new(Vec::<u8>::new());
    write_frame(&mut written, &frame).unwrap();
    assert_eq!(encode_frame(&frame), written.into_inner());
    assert_eq!(encode_frame(&frame), b"Content-Length: 3\r\n\r\nabc".to_vec());
}

#[test]
fn empty_body_round_trips() {
    let frame = Frame { body: Vec::new() };
    let mut buf = FrameWriter::new(Vec::<u8>::new());
    write_frame(&mut buf, &frame).unwrap();
    let mut cursor = FrameReader::new(Cursor::new(buf.into_inner()));
    assert_eq!(
        read_frame(&mut cursor, ContentLengthCeiling::new(0)).unwrap(),
        frame
    );
}

#[test]
fn reads_consume_exactly_what_they_use() {
    // An over-long header line: exactly the cap is consumed.
    let mut cursor = FrameReader::new(Cursor::new(vec![b'a'; 16 * 1024]));
    assert!(read_frame(&mut cursor, ContentLengthCeiling::unbounded()).is_err());
    assert_eq!(cursor.get_ref().position(), MAX_HEADER_LINE_BYTES as u64);
    // One frame of two: the second is left for the next read.
    let mut buf = FrameWriter::new(Vec::<u8>::new());
    write_frame(&mut buf, &Frame { body: b"one".to_vec() }).unwrap();
    let first_len = buf.get_ref().len() as u64;
    write_frame(&mut buf, &Frame { body: b"two".to_vec() }).unwrap();
    let mut cursor = FrameReader::new(Cursor::new(buf.into_inner()));
    assert_eq!(read_frame(&mut cursor, ContentLengthCeiling::unbounded()).unwrap().body, b"one");
    assert_eq!(cursor.get_ref().position(), first_len);
}

/// A reader whose every read fails.
struct FailingReader;

impl Read for FailingReader {
    fn read(&mut self, _buf: &mut [u8]) -> std::io::Result<usize> {
        Err(std::io::Error::new(ErrorKind::BrokenPipe, "gone"))
    }
}

/// A writer whose every write fails.
struct FailingWriter;

impl std::io::Write for FailingWriter {
    fn write(&mut self, _buf: &[u8]) -> std::io::Result<usize> {
        Err(std::io::Error::new(ErrorKind::BrokenPipe, "gone"))
    }
    fn flush(&mut self) -> std::io::Result<()> {
        Ok(())
    }
}

#[test]
fn a_failing_reader_gives_an_io_error() {
    let mut reader = FrameReader::new(BufReader::new(FailingReader));
    match read_frame(&mut reader, ContentLengthCeiling::unbounded()) {
        Err(TransportError::Io(e)) => assert_eq!(e.kind(), ErrorKind::BrokenPipe),
        other => panic!("expected Io(BrokenPipe), got {other:?}"),
    }
}

#[test]
fn a_failing_writer_gives_an_io_error() {
    let mut writer = FrameWriter::new(FailingWriter);
    match write_frame(&mut writer, &Frame { body: b"hi".to_vec() }) {
        Err(TransportError::Io(e)) => assert_eq!(e.kind(), ErrorKind::BrokenPipe),
        other => panic!("expected Io(BrokenPipe), got {other:?}"),
    }
}

#[test]
fn a_written_frame_followed_by_other_bytes_reads_back_exactly() {
    let mut writer = FrameWriter::new(Vec::new());
    write_frame(&mut writer, &Frame { body: b"{\"a\":1}".to_vec() }).unwrap();
    let mut stream = writer.into_inner();
    let frame_len = stream.len();
    stream.extend_from_slice(b"trailing bytes that are no frame");
    let mut reader = FrameReader::new(Cursor::new(stream));
    let f = read_frame(&mut reader, ContentLengthCeiling::new(7)).unwrap();
    assert_eq!(f.body, b"{\"a\":1}".to_vec());
    assert_eq!(reader.get_ref().position() as usize, frame_len);
}
