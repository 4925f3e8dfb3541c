use lsp_server::framing::{
    encode_frame, finish_body, into_io_error, io_report, next_header_step, parse_header_line,
    read_frame_text, HeaderLine, HeaderStep, IoReport, ReadError,
};
use lsp_server::text::{parse_usize, IntErrorKind};
use lsp_server::{invalid_data, read_msg_text, write_msg_text};
use std::io::ErrorKind;

fn read_all(bytes: &[u8]) -> Vec<std::io::Result<Option<String>>> {
    let mut cur: &[u8] = bytes;
    let mut out = Vec::new();
    loop {
        let r = read_msg_text(&mut cur);
        let stop = !matches!(r, Ok(Some(_)));
        out.push(r);
        if stop {
            return out;
        }
    }
}

#[test]
fn reads_one_message() {
    let mut cur: &[u8] = b"Content-Length: 5\r\n\r\nhello";
    assert_eq!(read_msg_text(&mut cur).unwrap(), Some("hello".to_string()));
    assert_eq!(read_msg_text(&mut cur).unwrap(), None);
}

#[test]
fn reads_messages_one_after_another() {
    let rs = read_all(b"Content-Length: 2\r\n\r\n{}Content-Type: x\r\ncontent-length: 3\r\n\r\n[1]");
    assert_eq!(rs.len(), 3);
    assert_eq!(rs[0].as_ref().unwrap(), &Some("{}".to_string()));
    assert_eq!(rs[1].as_ref().unwrap(), &Some("[1]".to_string()));
    assert_eq!(rs[2].as_ref().unwrap(), &None);
}

#[test]
fn end_of_stream_within_the_headers_is_no_message() {
    let mut cur: &[u8] = b"Content-Length: 5\r\n";
    assert_eq!(read_msg_text(&mut cur).unwrap(), None);
    let mut empty: &[u8] = &[];
    assert_eq!(read_msg_text(&mut empty).unwrap(), None);
}

#[test]
fn the_last_content_length_counts() {
    let mut cur: &[u8] = b"Content-Length: 9\r\nCONTENT-LENGTH: +2\r\n\r\nokrest";
    assert_eq!(read_msg_text(&mut cur).unwrap(), Some("ok".to_string()));
}

#[test]
fn header_errors_are_invalid_data() {
    let e = read_msg_text(&mut &b"Content-Length: 5\n\nhello"[..]).unwrap_err();
    assert_eq!(e.kind(), ErrorKind::InvalidData);
    assert_eq!(e.to_string(), "malformed header: \"Content-Length: 5\\n\"");

    let e = read_msg_text(&mut &b"Content-Length 5\r\n\r\nhello"[..]).unwrap_err();
    assert_eq!(e.kind(), ErrorKind::InvalidData);
    assert_eq!(e.to_string(), "malformed header: \"Content-Length 5\"");

    let e = read_msg_text(&mut &b"Content-Type: x\r\n\r\n"[..]).unwrap_err();
    assert_eq!(e.kind(), ErrorKind::InvalidData);
    assert_eq!(e.to_string(), "no Content-Length");

    let e = read_msg_text(&mut &b"Content-Length: x1\r\n\r\n"[..]).unwrap_err();
    assert_eq!(e.kind(), ErrorKind::InvalidData);
    assert_eq!(e.to_string(), "invalid digit found in string");

    let e = read_msg_text(&mut &b"Content-Length: \r\n\r\n"[..]).unwrap_err();
    assert_eq!(e.to_string(), "cannot parse integer from empty string");

    let e = read_msg_text(&mut &b"Content-Length: 99999999999999999999999\r\n\r\n"[..]).unwrap_err();
    assert_eq!(e.to_string(), "number too large to fit in target type");
}

#[test]
fn body_errors() {
    let e = read_msg_text(&mut &b"Content-Length: 9\r\n\r\nshort"[..]).unwrap_err();
    assert_eq!(e.kind(), ErrorKind::UnexpectedEof);

    let e = read_msg_text(&mut &b"Content-Length: 2\r\n\r\n\xff\xfe"[..]).unwrap_err();
    assert_eq!(e.kind(), ErrorKind::InvalidData);
    assert_eq!(e.to_string(), "invalid utf-8 sequence of 1 bytes from index 0");
}

#[test]
fn header_that_is_not_utf8_is_a_stream_error() {
    let r = read_frame_text(&mut &b"X-\xff: 1\r\n\r\n"[..]);
    assert!(matches!(r, Err(ReadError::Io(_))));
}

#[test]
fn read_errors_name_their_cause() {
    let r = read_frame_text(&mut &b"abc"[..]);
    assert!(matches!(r, Err(ReadError::Unterminated(l)) if l == "abc"));
    let r = read_frame_text(&mut &b"abc\r\n"[..]);
    assert!(matches!(r, Err(ReadError::NoSeparator(l)) if l == "abc"));
    let r = read_frame_text(&mut &b"Content-Length: -1\r\n"[..]);
    assert!(matches!(r, Err(ReadError::InvalidContentLength(IntErrorKind::InvalidDigit))));
    let r = read_frame_text(&mut &b"\r\n"[..]);
    assert!(matches!(r, Err(ReadError::MissingContentLength)));
    let r = read_frame_text(&mut &b"Content-Length: 3\r\n\r\nab"[..]);
    assert!(matches!(r, Err(ReadError::Io(e)) if e.kind() == ErrorKind::UnexpectedEof));
    let r = read_frame_text(&mut &b"Content-Length: 1\r\n\r\n\x80"[..]);
    assert!(matches!(r, Err(ReadError::BodyNotUtf8(_))));
}

#[test]
fn writes_the_frame() {
    let mut out: Vec<u8> = Vec::new();
    write_msg_text(&mut out, "{\"a\":\"é\"}").unwrap();
    assert_eq!(out, b"Content-Length: 10\r\n\r\n{\"a\":\"\xc3\xa9\"}".to_vec());
    assert_eq!(encode_frame(""), b"Content-Length: 0\r\n\r\n".to_vec());
}

/// Law (`lemma_frame_roundtrip`): reading gives back what was written.
#[test]
fn read_gives_back_what_was_written() {
    let texts = ["", "x", "{\"jsonrpc\":\"2.0\",\"id\":1}", "ünïcödé ✓", "a\r\n\r\nb"];
    let mut out: Vec<u8> = Vec::new();
    for t in texts.iter() {
        write_msg_text(&mut out, t).unwrap();
    }
    let mut cur: &[u8] = &out;
    for t in texts.iter() {
        assert_eq!(read_msg_text(&mut cur).unwrap(), Some(t.to_string()));
    }
    assert_eq!(read_msg_text(&mut cur).unwrap(), None);
}

#[test]
fn header_lines_are_classified() {
    assert_eq!(parse_header_line(b"\r\n"), HeaderLine::End);
    assert_eq!(parse_header_line(b"Content-Length: 12\r\n"), HeaderLine::ContentLength(Ok(12)));
    assert_eq!(parse_header_line(b"cOnTeNt-LeNgTh: 7\r\n"), HeaderLine::ContentLength(Ok(7)));
    assert_eq!(
        parse_header_line(b"Content-Length: 1: 2\r\n"),
        HeaderLine::ContentLength(Err(IntErrorKind::InvalidDigit))
    );
    assert_eq!(parse_header_line(b"Content-Type: a: b\r\n"), HeaderLine::Other);
    assert_eq!(parse_header_line(b"Content-Length:5\r\n"), HeaderLine::NoSeparator);
    assert_eq!(parse_header_line(b"Content-Length: 5\n"), HeaderLine::Unterminated);
    assert_eq!(parse_header_line(b"\n"), HeaderLine::Unterminated);
}

#[test]
fn lengths_parse_as_std_parses_them() {
    for s in ["0", "+7", "007", "18446744073709551615", "", "+", "-", "-0", "1 ", " 1", "1_0", "18446744073709551616", "99999999999999999999x"] {
        let std = s.parse::<usize>();
        let ours = parse_usize(s.as_bytes());
        match (std, ours) {
            (Ok(a), Ok(b)) => assert_eq!(a, b),
            (Err(e), Err(k)) => assert_eq!(e.to_string(), k.message()),
            (a, b) => panic!("{s:?}: {a:?} vs {b:?}"),
        }
    }
}

#[test]
fn invalid_data_errors_carry_their_text() {
    let e = invalid_data("boom".to_string());
    assert_eq!(e.kind(), ErrorKind::InvalidData);
    assert_eq!(e.to_string(), "boom");
}

#[test]
fn each_header_line_decides_the_next_step() {
    let step = |size: Option<usize>, line: &str| next_header_step(size, line.to_string());
    assert!(matches!(step(None, "Content-Length: 3\r\n"), HeaderStep::Continue(Some(3))));
    assert!(matches!(step(Some(2), "X-Other: y\r\n"), HeaderStep::Continue(Some(2))));
    assert!(matches!(step(Some(3), "\r\n"), HeaderStep::Body(3)));
    assert!(matches!(step(None, "\r\n"), HeaderStep::Fail(ReadError::MissingContentLength)));
    assert!(matches!(step(Some(1), ""), HeaderStep::End));
    assert!(matches!(step(None, "junk"), HeaderStep::Fail(ReadError::Unterminated(l)) if l == "junk"));
}

#[test]
fn the_body_is_the_announced_bytes() {
    assert_eq!(finish_body(3, b"abc".to_vec()).unwrap(), Some("abc".to_string()));
    assert_eq!(finish_body(2, b"abc".to_vec()).unwrap(), Some("ab".to_string()));
    assert!(matches!(finish_body(3, b"ab".to_vec()), Err(ReadError::TruncatedBody)));
    assert!(matches!(
        finish_body(1, vec![0xff]),
        Err(ReadError::BodyNotUtf8(m)) if m == "invalid utf-8 sequence of 1 bytes from index 0"
    ));
}

#[test]
fn reads_a_frame_and_empties_the_stream() {
    let mut s: &[u8] = b"Content-Length: 2\r\n\r\n{}";
    assert_eq!(read_msg_text(&mut s).unwrap(), Some("{}".to_string()));
    assert!(s.is_empty());
}

#[test]
fn a_cut_header_block_is_no_message_and_is_consumed() {
    let mut s: &[u8] = b"Content-Type: x\r\nContent-Length: 4\r\n";
    assert_eq!(read_msg_text(&mut s).unwrap(), None);
    assert!(s.is_empty());
}

#[test]
fn header_names_ignore_case_and_other_headers_are_skipped() {
    let mut s: &[u8] =
        b"content-length: 2\r\nContent-Type: application/vscode-jsonrpc; charset=utf-8\r\n\r\n{}";
    assert_eq!(read_msg_text(&mut s).unwrap(), Some("{}".to_string()));
    assert!(s.is_empty());
}

#[test]
fn malformed_frames_give_the_right_error_kind() {
    let e = read_msg_text(&mut &b"Content-Length:2\r\n\r\n{}"[..]).unwrap_err();
    assert_eq!(e.kind(), ErrorKind::InvalidData);
    let e = read_msg_text(&mut &b"Content-Type: text/plain\r\n\r\n{}"[..]).unwrap_err();
    assert_eq!(e.kind(), ErrorKind::InvalidData);
    let e = read_msg_text(&mut &b"Content-Length: 2 \r\n\r\n{}"[..]).unwrap_err();
    assert_eq!(e.kind(), ErrorKind::InvalidData);
    let e = read_msg_text(&mut &b"Content-Length: 5\r\n\r\n{}"[..]).unwrap_err();
    assert_eq!(e.kind(), ErrorKind::UnexpectedEof);
    let e = read_msg_text(&mut &b"Content-Length: 1\r\n\r\n\xff"[..]).unwrap_err();
    assert_eq!(e.kind(), ErrorKind::InvalidData);
    let e = read_msg_text(&mut &b"X-\xff: 1\r\n\r\n"[..]).unwrap_err();
    assert_eq!(e.kind(), ErrorKind::InvalidData);
}

#[test]
fn the_length_counts_bytes() {
    let mut s: &[u8] = b"Content-Length: 2\r\n\r\n\xc3\xa9";
    assert_eq!(read_msg_text(&mut s).unwrap(), Some("é".to_string()));
    assert!(s.is_empty());
}

#[test]
fn reading_leaves_what_follows_the_message() {
    let mut s: &[u8] = b"X-A: b\r\nContent-Length: 3\r\n\r\nabcREST";
    assert_eq!(read_msg_text(&mut s).unwrap(), Some("abc".to_string()));
    assert_eq!(s, b"REST");
}

#[test]
fn write_then_read_leaves_the_rest() {
    let mut v: Vec<u8> = Vec::new();
    write_msg_text(&mut v, "{\"k\":[1,2]}").unwrap();
    v.extend_from_slice(b"tail");
    let mut s: &[u8] = &v;
    assert_eq!(read_msg_text(&mut s).unwrap(), Some("{\"k\":[1,2]}".to_string()));
    assert_eq!(s, b"tail");
}

#[test]
fn failed_reads_are_reported_by_kind() {
    assert!(matches!(
        io_report(ReadError::MissingContentLength),
        IoReport::InvalidData(m) if m == "no Content-Length"
    ));
    assert!(matches!(
        io_report(ReadError::NoSeparator("abc".to_string())),
        IoReport::InvalidData(m) if m == "malformed header: \"abc\""
    ));
    assert!(matches!(
        io_report(ReadError::TruncatedBody),
        IoReport::UnexpectedEof(m) if m == "failed to fill whole buffer"
    ));
    let e = into_io_error(ReadError::InvalidContentLength(lsp_server::text::IntErrorKind::Empty));
    assert_eq!(e.kind(), ErrorKind::InvalidData);
    assert_eq!(e.to_string(), "cannot parse integer from empty string");
}

#[test]
fn a_stream_error_comes_where_the_stream_fails() {
    let mut s: &[u8] = b"Content-Length: 4\r\n\r\nab";
    assert!(matches!(read_frame_text(&mut s), Err(ReadError::Io(e)) if e.kind() == ErrorKind::UnexpectedEof));
    let mut s: &[u8] = b"Content-Length: 2\r\n\r\nabcd";
    assert_eq!(read_frame_text(&mut s).unwrap(), Some("ab".to_string()));
    assert_eq!(s, b"cd");
}

#[test]
fn a_short_body_gives_the_streams_own_error() {
    let mut s: &[u8] = b"Content-Length: 5\r\n\r\n{}";
    let e = read_msg_text(&mut s).unwrap_err();
    assert_eq!(e.kind(), ErrorKind::UnexpectedEof);
    let e = into_io_error(ReadError::Io(std::io::Error::new(ErrorKind::UnexpectedEof, "x")));
    assert_eq!(e.kind(), ErrorKind::UnexpectedEof);
    assert_eq!(e.to_string(), "x");
}
