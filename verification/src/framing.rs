//! The base protocol's framing: a block of `name: value` header lines, each
//! ended by CR LF, an empty line, then as many bytes of UTF-8 text as the
//! `Content-Length` header names.
use crate::stream::{
    debug_string, debug_text, invalid_data_error, io_error_kind, io_error_text, read_exact,
    read_line, string_from_utf8, unexpected_eof_error, utf8_error_text, IoKind,
};
use crate::text::{
    ascii_lower, bytes_eq_ignore_ascii_case, decimal, eq_ignore_ascii_case, int_error_text, lemma_parse_decimal,
    parse_usize, push_decimal, spec_parse_usize, IntErrorKind,
};
use vstd::prelude::*;
use vstd::slice::slice_subrange;
use vstd::utf8::{decode_utf8, encode_utf8, valid_utf8};

verus! {

broadcast use vstd::utf8::group_utf8_lib;

/// `Content-Length` as bytes: the one header field that the codec reads.
pub open spec fn content_length_name() -> Seq<u8> {
    seq![67u8, 111u8, 110u8, 116u8, 101u8, 110u8, 116u8, 45u8, 76u8, 101u8, 110u8, 103u8, 116u8, 104u8]
}

/// `i` is the first LF in `s`.
pub open spec fn is_line_end(s: Seq<u8>, i: int) -> bool {
    &&& 0 <= i < s.len()
    &&& s[i] == 10
    &&& forall|j: int| 0 <= j < i ==> s[j] != 10
}

/// How many bytes `BufRead::read_line` takes from a stream holding `s`: up
/// to and including the first LF, or all of `s` when it holds none.
pub open spec fn line_len(s: Seq<u8>) -> int {
    if exists|i: int| is_line_end(s, i) {
        (choose|i: int| is_line_end(s, i)) + 1
    } else {
        s.len() as int
    }
}

/// The bytes that `BufRead::read_line` takes from a stream holding `s`.
pub open spec fn first_line(s: Seq<u8>) -> Seq<u8> {
    s.take(line_len(s))
}

/// `h` holds `": "` at `i`.
pub open spec fn separator_at(h: Seq<u8>, i: int) -> bool {
    &&& 0 <= i && i + 1 < h.len()
    &&& h[i] == 58 && h[i + 1] == 32
}

/// `h` holds `": "` at `i` and nowhere before.
pub open spec fn is_first_separator(h: Seq<u8>, i: int) -> bool {
    &&& separator_at(h, i)
    &&& forall|j: int| 0 <= j < i ==> !#[trigger] separator_at(h, j)
}

/// Where the first `": "` of `h` starts, or `-1`.
pub open spec fn separator_index(h: Seq<u8>) -> int {
    if exists|i: int| is_first_separator(h, i) {
        choose|i: int| is_first_separator(h, i)
    } else {
        -1
    }
}

/// The line ends with CR LF.
pub open spec fn ends_with_crlf(line: Seq<u8>) -> bool {
    &&& line.len() >= 2
    &&& line[line.len() - 2] == 13
    &&& line[line.len() - 1] == 10
}

/// What one header line (with its line end) means to the reader.
#[derive(Clone, Copy, Debug, PartialEq, Eq)]
pub enum HeaderLine {
    /// The empty line that closes the header block.
    End,
    /// A `Content-Length` field (the name in any ASCII case), with the result
    /// of parsing its value as a `usize`.
    ContentLength(Result<usize, IntErrorKind>),
    /// Any other field; it is skipped.
    Other,
    /// The line does not end with CR LF.
    Unterminated,
    /// The line has no `": "` between a name and a value.
    NoSeparator,
}

/// The meaning of one header line.
pub open spec fn classify_header(line: Seq<u8>) -> HeaderLine {
    if !ends_with_crlf(line) {
        HeaderLine::Unterminated
    } else {
        let h = line.take(line.len() - 2);
        if h.len() == 0 {
            HeaderLine::End
        } else {
            let k = separator_index(h);
            if k < 0 {
                HeaderLine::NoSeparator
            } else if eq_ignore_ascii_case(h.take(k), content_length_name()) {
                HeaderLine::ContentLength(spec_parse_usize(h.skip(k + 2)))
            } else {
                HeaderLine::Other
            }
        }
    }
}

/// Why a stream does not start with a well-formed message.
pub enum FrameFault {
    /// A header line is not valid UTF-8.
    HeaderNotUtf8,
    /// A header line (shown whole) does not end with CR LF.
    Unterminated(Seq<char>),
    /// A header line (shown without CR LF) has no `": "`.
    NoSeparator(Seq<char>),
    /// The value of `Content-Length` is not a `usize`.
    InvalidContentLength(IntErrorKind),
    /// The header block ended without `Content-Length`.
    MissingContentLength,
    /// The stream ended before the announced number of bytes.
    TruncatedBody,
    /// The body, these bytes, is not valid UTF-8.
    BodyNotUtf8(Seq<u8>),
}

/// A stream that is not empty gives a line of at least one byte.
pub proof fn lemma_line_len_bounds(s: Seq<u8>)
    requires
        s.len() > 0,
    ensures
        1 <= line_len(s) <= s.len(),
{
}

/// What reading the body of `k` bytes from a stream holding `rest` gives.
pub open spec fn read_body(rest: Seq<u8>, k: usize) -> Result<Option<Seq<char>>, FrameFault> {
    if rest.len() < k {
        Err(FrameFault::TruncatedBody)
    } else if valid_utf8(rest.take(k as int)) {
        Ok(Some(decode_utf8(rest.take(k as int))))
    } else {
        Err(FrameFault::BodyNotUtf8(rest.take(k as int)))
    }
}

/// What reading header lines from a stream holding `s` gives, where `size`
/// is the length that earlier lines announced: `Ok(None)` where the stream
/// ends first, the text of the message, or the fault that stops it.
pub open spec fn read_headers(s: Seq<u8>, size: Option<usize>) -> Result<
    Option<Seq<char>>,
    FrameFault,
>
    decreases s.len(),
{
    if s.len() == 0 {
        Ok(None)
    } else {
        proof {
            lemma_line_len_bounds(s);
        }
        let n = line_len(s);
        let line = s.take(n);
        if !valid_utf8(line) {
            Err(FrameFault::HeaderNotUtf8)
        } else {
            match classify_header(line) {
                HeaderLine::Unterminated => Err(FrameFault::Unterminated(decode_utf8(line))),
                HeaderLine::NoSeparator => Err(
                    FrameFault::NoSeparator(decode_utf8(line.take(line.len() - 2))),
                ),
                HeaderLine::End => match size {
                    None => Err(FrameFault::MissingContentLength),
                    Some(k) => read_body(s.skip(n), k),
                },
                HeaderLine::ContentLength(Ok(k)) => read_headers(s.skip(n), Some(k)),
                HeaderLine::ContentLength(Err(e)) => Err(FrameFault::InvalidContentLength(e)),
                HeaderLine::Other => read_headers(s.skip(n), size),
            }
        }
    }
}

/// What `read_msg_text` gives on a stream that holds `s` (and, where the
/// message is complete, anything after it).
pub open spec fn frame_outcome(s: Seq<u8>) -> Result<Option<Seq<char>>, FrameFault> {
    read_headers(s, None)
}

/// How many bytes reading header lines, and then the body, takes from a
/// stream holding `s`, where `size` is the length that earlier lines
/// announced. It is meant where that reading succeeds.
pub open spec fn headers_len(s: Seq<u8>, size: Option<usize>) -> int
    decreases s.len(),
{
    if s.len() == 0 {
        0
    } else {
        proof {
            lemma_line_len_bounds(s);
        }
        let n = line_len(s);
        match classify_header(s.take(n)) {
            HeaderLine::End => match size {
                Some(k) => n + k,
                None => n,
            },
            HeaderLine::ContentLength(Ok(k)) => n + headers_len(s.skip(n), Some(k)),
            HeaderLine::Other => n + headers_len(s.skip(n), size),
            _ => n,
        }
    }
}

/// How many bytes reading one message takes from a stream holding `s`.
pub open spec fn frame_len(s: Seq<u8>) -> int {
    headers_len(s, None)
}

/// A fault that the stream itself reports while it is read: a header line
/// that is not UTF-8, or a body cut short.
pub open spec fn stream_fault(o: Result<Option<Seq<char>>, FrameFault>) -> bool {
    o matches Err(f) && (f is HeaderNotUtf8 || f is TruncatedBody)
}

/// The header block that announces a body of `len` bytes.
pub open spec fn frame_header(len: nat) -> Seq<u8> {
    content_length_name() + seq![58u8, 32u8] + decimal(len) + seq![13u8, 10u8, 13u8, 10u8]
}

/// The bytes that frame the text `msg`.
pub open spec fn frame_bytes(msg: Seq<char>) -> Seq<u8> {
    frame_header(encode_utf8(msg).len()) + encode_utf8(msg)
}

/// A line as `read_line` hands it over splits a stream holding it and then
/// `x` right after it.
proof fn lemma_line_split(lb: Seq<u8>, x: Seq<u8>)
    requires
        lb.len() > 0,
        forall|i: int| 0 <= i < lb.len() - 1 ==> lb[i] != 10,
        lb.last() == 10 || x.len() == 0,
    ensures
        line_len(lb + x) == lb.len(),
        (lb + x).take(lb.len() as int) =~= lb,
        (lb + x).skip(lb.len() as int) =~= x,
{
    let s = lb + x;
    if lb.last() == 10 {
        let e = lb.len() - 1;
        assert(is_line_end(s, e));
        let c = choose|i: int| is_line_end(s, i);
        assert(c == e) by {
            if c < e {
                assert(s[c] == 10);
            } else if c > e {
                assert(s[e] == 10);
            }
        }
    } else {
        assert(s =~= lb);
        assert forall|i: int| !is_line_end(s, i) by {
            if 0 <= i < s.len() && s[i] == 10 {
                assert(i == lb.len() - 1);
            }
        }
    }
}

/// A stream with an LF in it has a first LF.
proof fn lemma_first_lf(s: Seq<u8>, i: int)
    requires
        0 <= i < s.len(),
        s[i] == 10,
    ensures
        exists|j: int| is_line_end(s, j),
    decreases i,
{
    if exists|j: int| 0 <= j < i && s[j] == 10 {
        let j = choose|j: int| 0 <= j < i && s[j] == 10;
        lemma_first_lf(s, j);
    } else {
        assert(is_line_end(s, i));
    }
}

/// The first line of a stream, and what is left after it: the line holds
/// no LF but as its last byte, and it ends with LF unless nothing is left.
proof fn lemma_first_line(t: Seq<u8>)
    ensures
        first_line(t) + t.skip(line_len(t)) =~= t,
        forall|i: int| 0 <= i < first_line(t).len() - 1 ==> #[trigger] first_line(t)[i] != 10,
        line_complete(first_line(t)) || t.skip(line_len(t)).len() == 0,
        t.len() > 0 ==> first_line(t).len() > 0,
        t.len() == 0 ==> first_line(t).len() == 0,
{
    if exists|i: int| is_line_end(t, i) {
        let c = choose|i: int| is_line_end(t, i);
        assert(first_line(t).last() == 10);
    } else {
        assert forall|i: int| 0 <= i < first_line(t).len() - 1 implies #[trigger] first_line(t)[i]
            != 10 by {
            if first_line(t)[i] == 10 {
                lemma_first_lf(t, i);
            }
        }
    }
}

/// Classifies one header line, as `classify_header` says.
pub fn parse_header_line(line: &[u8]) -> (h: HeaderLine)
    ensures
        h == classify_header(line@),
{
    let n = line.len();
    if n < 2 || line[n - 2] != 13 || line[n - 1] != 10 {
        return HeaderLine::Unterminated;
    }
    let hlen = n - 2;
    let head = slice_subrange(line, 0, hlen);
    assert(head@ =~= line@.take(line@.len() - 2));
    if hlen == 0 {
        return HeaderLine::End;
    }
    let mut i: usize = 0;
    while i + 1 < hlen && !(head[i] == 58 && head[i + 1] == 32)
        invariant
            0 <= i <= hlen,
            hlen < usize::MAX,
            hlen == head@.len(),
            forall|j: int| 0 <= j < i ==> !#[trigger] separator_at(head@, j),
        decreases hlen - i,
    {
        i = i + 1;
    }
    if i + 1 >= hlen {
        assert forall|k: int| !is_first_separator(head@, k) by {
            if is_first_separator(head@, k) {
                assert(!separator_at(head@, k));
            }
        }
        return HeaderLine::NoSeparator;
    }
    assert(is_first_separator(head@, i as int));
    assert(separator_index(head@) == i) by {
        let c = choose|k: int| is_first_separator(head@, k);
        if c < i {
            assert(separator_at(head@, c));
        } else if c > i {
            assert(!separator_at(head@, i as int));
        }
    }
    let name = slice_subrange(head, 0, i);
    let expected: Vec<u8> = vec![67u8, 111u8, 110u8, 116u8, 101u8, 110u8, 116u8, 45u8, 76u8, 101u8, 110u8, 103u8, 116u8, 104u8];
    assert(expected@ =~= content_length_name());
    assert(name@ =~= head@.take(i as int));
    if bytes_eq_ignore_ascii_case(name, expected.as_slice()) {
        let value = slice_subrange(head, i + 2, hlen);
        assert(value@ =~= head@.skip(i + 2));
        HeaderLine::ContentLength(parse_usize(value))
    } else {
        HeaderLine::Other
    }
}

/// Why reading a message from a stream failed.
#[derive(Debug)]
pub enum ReadError {
    /// The stream reported an error (on a stream held in memory: a header
    /// line that is not UTF-8, or a body cut short).
    Io(std::io::Error),
    /// A header line, shown whole, that does not end with CR LF.
    Unterminated(String),
    /// A header line, shown without CR LF, that has no `": "`.
    NoSeparator(String),
    /// The value of `Content-Length` is not a `usize`.
    InvalidContentLength(IntErrorKind),
    /// The header block ended without `Content-Length`.
    MissingContentLength,
    /// The stream ended before the announced number of bytes.
    TruncatedBody,
    /// The body is not valid UTF-8; the text of `std`'s error.
    BodyNotUtf8(String),
}

/// Reads exactly `len` bytes from `inp`, as `Read::read_exact` into a buffer
/// of `len` bytes does, in chunks of at most 8192 bytes so that no buffer
/// larger than what the stream holds is allocated. It fails, with the
/// stream's `UnexpectedEof` error, exactly where fewer bytes are left.
fn read_body_bytes(inp: &mut &[u8], len: usize) -> (r: std::io::Result<Vec<u8>>)
    ensures
        r is Ok <==> len <= old(inp)@.len(),
        r matches Ok(bytes) ==> bytes@ == old(inp)@.take(len as int) && final(inp)@ == old(
            inp,
        )@.skip(len as int),        r matches Err(e) ==> io_error_kind(e) == IoKind::UnexpectedEof,
{
    let ghost s: Seq<u8> = inp@;
    let mut body: Vec<u8> = Vec::new();
    while body.len() < len
        invariant
            s == old(inp)@,
            body@.len() <= len,
            body@.len() <= s.len(),
            body@ == s.take(body@.len() as int),
            inp@ == s.skip(body@.len() as int),
        decreases len - body@.len(),
    {
        let remaining = len - body.len();
        let n: usize = if remaining < 8192 {
            remaining
        } else {
            8192
        };
        let mut chunk: Vec<u8> = vec![0u8; n];
        let ghost start = body@.len() as int;
        match read_exact(inp, chunk.as_mut_slice()) {
            Ok(()) => {},
            Err(e) => {
                return Err(e);
            },
        }
        assert(chunk@ =~= s.subrange(start, start + n));
        let mut i: usize = 0;
        while i < n
            invariant
                0 <= i <= n,
                0 <= start,
                chunk@.len() == n,
                start + n <= s.len(),
                start + n <= len,
                chunk@ == s.subrange(start, start + n),
                body@ == s.take(start + i),
            decreases n - i,
        {
            body.push(chunk[i]);
            i = i + 1;
            assert(body@ =~= s.take(start + i));
        }
        assert(inp@ =~= s.skip(start + n));
    }
    Ok(body)
}

/// A result of reading stands for `o`, an outcome in `frame_outcome`'s
/// terms; an error of the stream itself stands for none.
pub open spec fn outcome_of(
    r: Result<Option<String>, ReadError>,
    o: Result<Option<Seq<char>>, FrameFault>,
) -> bool {
    match r {
        Ok(t) => o == Ok::<Option<Seq<char>>, FrameFault>(text_view(t)),
        Err(ReadError::Io(_)) => false,
        Err(ReadError::Unterminated(l)) => o == Err::<Option<Seq<char>>, FrameFault>(
            FrameFault::Unterminated(l@),
        ),
        Err(ReadError::NoSeparator(l)) => o == Err::<Option<Seq<char>>, FrameFault>(
            FrameFault::NoSeparator(l@),
        ),
        Err(ReadError::InvalidContentLength(e)) => o == Err::<Option<Seq<char>>, FrameFault>(
            FrameFault::InvalidContentLength(e),
        ),
        Err(ReadError::MissingContentLength) => o == Err::<Option<Seq<char>>, FrameFault>(
            FrameFault::MissingContentLength,
        ),
        Err(ReadError::TruncatedBody) => o == Err::<Option<Seq<char>>, FrameFault>(
            FrameFault::TruncatedBody,
        ),
        Err(ReadError::BodyNotUtf8(m)) => o matches Err(FrameFault::BodyNotUtf8(b)) && m@
            == utf8_error_text(b),
    }
}

/// The kind of the error that reading reports for a fault it finds itself.
pub open spec fn fault_kind(f: FrameFault) -> IoKind {
    match f {
        FrameFault::TruncatedBody => IoKind::UnexpectedEof,
        _ => IoKind::InvalidData,
    }
}

/// The text of the error that reading reports for a fault it finds itself:
/// a malformed header line shown with `{:?}`, a bad `Content-Length` by
/// `std`'s parse error text, a body that is not UTF-8 by `std`'s UTF-8 error
/// text.
pub open spec fn fault_text(f: FrameFault) -> Seq<char> {
    match f {
        FrameFault::HeaderNotUtf8 => Seq::empty(),
        FrameFault::Unterminated(l) => "malformed header: "@ + debug_text(l),
        FrameFault::NoSeparator(l) => "malformed header: "@ + debug_text(l),
        FrameFault::InvalidContentLength(k) => int_error_text(k),
        FrameFault::MissingContentLength => "no Content-Length"@,
        FrameFault::TruncatedBody => "failed to fill whole buffer"@,
        FrameFault::BodyNotUtf8(b) => utf8_error_text(b),
    }
}

/// The kind of the error reported for a failed read that is not the
/// stream's own.
pub open spec fn error_kind(e: ReadError) -> IoKind {
    match e {
        ReadError::TruncatedBody => IoKind::UnexpectedEof,
        _ => IoKind::InvalidData,
    }
}

/// The text of the error reported for a failed read that is not the
/// stream's own.
pub open spec fn error_text(e: ReadError) -> Seq<char> {
    match e {
        ReadError::Io(_) => Seq::empty(),
        ReadError::Unterminated(l) => "malformed header: "@ + debug_text(l@),
        ReadError::NoSeparator(l) => "malformed header: "@ + debug_text(l@),
        ReadError::InvalidContentLength(k) => int_error_text(k),
        ReadError::MissingContentLength => "no Content-Length"@,
        ReadError::TruncatedBody => "failed to fill whole buffer"@,
        ReadError::BodyNotUtf8(t) => t@,
    }
}

/// The text of a message read whole, by its characters.
pub open spec fn text_view(o: Option<String>) -> Option<Seq<char>> {
    match o {
        Some(t) => Some(t@),
        None => None,
    }
}

/// What to do after one header line has been read.
#[derive(Debug)]
pub enum HeaderStep {
    /// Read the next header line; the announced length is now this.
    Continue(Option<usize>),
    /// The header block is over: read a body of this many bytes.
    Body(usize),
    /// The stream has ended: there is no message.
    End,
    /// Reading fails with this error.
    Fail(ReadError),
}

/// A line as `read_line` hands it over that ends with LF, so that more of
/// the stream may follow it.
pub open spec fn line_complete(lb: Seq<u8>) -> bool {
    lb.len() > 0 && lb.last() == 10
}

/// `s` says, of a stream that goes on with `x`, what `outcome` says.
pub open spec fn step_agrees(
    s: HeaderStep,
    x: Seq<u8>,
    outcome: Result<Option<Seq<char>>, FrameFault>,
) -> bool {
    match s {
        HeaderStep::Continue(size) => outcome == read_headers(x, size),
        HeaderStep::Body(k) => outcome == read_body(x, k),
        HeaderStep::End => outcome == Ok::<Option<Seq<char>>, FrameFault>(None),
        HeaderStep::Fail(e) => outcome_of(Err(e), outcome),
    }
}

/// `s` says, of a stream that goes on with `x` after a line of `n` bytes,
/// how many bytes reading takes from it in all: `total`.
pub open spec fn len_agrees(s: HeaderStep, x: Seq<u8>, n: int, total: int) -> bool {
    match s {
        HeaderStep::Continue(size) => total == n + headers_len(x, size),
        HeaderStep::Body(k) => total == n + k,
        _ => true,
    }
}

/// Decides what follows a header line `line` (as `read_line` gave it; empty
/// where the stream has ended) when earlier lines announced `size`: for a
/// stream that holds `line` and then `x`, the step says what `read_headers`
/// gives.
pub fn next_header_step(size: Option<usize>, line: String) -> (s: HeaderStep)
    requires
        forall|i: int|
            0 <= i < encode_utf8(line@).len() - 1 ==> #[trigger] encode_utf8(line@)[i] != 10,
    ensures
        forall|x: Seq<u8>|
            line_complete(encode_utf8(line@)) || x.len() == 0 ==> step_agrees(
                s,
                x,
                #[trigger] read_headers(encode_utf8(line@) + x, size),
            ),
        forall|x: Seq<u8>|
            line_complete(encode_utf8(line@)) || x.len() == 0 ==> len_agrees(
                s,
                x,
                encode_utf8(line@).len() as int,
                #[trigger] headers_len(encode_utf8(line@) + x, size),
            ),
        (s is Continue || s is Body) ==> line_complete(encode_utf8(line@)),
        s is End <==> encode_utf8(line@).len() == 0,
        s matches HeaderStep::Fail(e) ==> !(e is Io) && !(e is TruncatedBody),
{
    let bytes = line.as_str().as_bytes();
    let ghost lb = bytes@;
    assert(lb == encode_utf8(line@));
    assert(valid_utf8(lb));
    assert(decode_utf8(lb) == line@);
    if bytes.len() == 0 {
        assert forall|x: Seq<u8>| line_complete(lb) || x.len() == 0 implies step_agrees(
            HeaderStep::End,
            x,
            #[trigger] read_headers(lb + x, size),
        ) by {
            assert(lb + x =~= Seq::<u8>::empty());
        }
        assert forall|x: Seq<u8>| line_complete(lb) || x.len() == 0 implies len_agrees(
            HeaderStep::End,
            x,
            lb.len() as int,
            #[trigger] headers_len(lb + x, size),
        ) by {}
        return HeaderStep::End;
    }
    let kind = parse_header_line(bytes);
    let step = match kind {
        HeaderLine::Unterminated => HeaderStep::Fail(ReadError::Unterminated(line)),
        HeaderLine::NoSeparator => {
            let n = bytes.len();
            proof {
                vstd::utf8::is_char_boundary_iff_not_is_continuation_byte(lb, n - 2);
            }
            let (front, _) = line.as_str().split_at(n - 2);
            let stripped = front.to_owned();
            proof {
                assert(encode_utf8(stripped@) =~= lb.take(n - 2));
                assert(decode_utf8(encode_utf8(stripped@)) == stripped@);
            }
            HeaderStep::Fail(ReadError::NoSeparator(stripped))
        },
        HeaderLine::ContentLength(Err(e)) => HeaderStep::Fail(ReadError::InvalidContentLength(e)),
        HeaderLine::End => match size {
            None => HeaderStep::Fail(ReadError::MissingContentLength),
            Some(k) => HeaderStep::Body(k),
        },
        HeaderLine::ContentLength(Ok(k)) => HeaderStep::Continue(Some(k)),
        HeaderLine::Other => HeaderStep::Continue(size),
    };
    assert forall|x: Seq<u8>| line_complete(lb) || x.len() == 0 implies step_agrees(
        step,
        x,
        #[trigger] read_headers(lb + x, size),
    ) by {
        lemma_line_split(lb, x);
    }
    assert forall|x: Seq<u8>| line_complete(lb) || x.len() == 0 implies len_agrees(
        step,
        x,
        lb.len() as int,
        #[trigger] headers_len(lb + x, size),
    ) by {
        lemma_line_split(lb, x);
    }
    step
}

/// The text of a body of `k` bytes out of the bytes read for it: too few
/// bytes, or bytes that are not UTF-8, fail as `read_body` says.
pub fn finish_body(k: usize, body: Vec<u8>) -> (r: Result<Option<String>, ReadError>)
    ensures
        outcome_of(r, read_body(body@, k)),
{
    if body.len() < k {
        return Err(ReadError::TruncatedBody);
    }
    let mut body = body;
    let ghost all = body@;
    body.truncate(k);
    assert(body@ =~= all.take(k as int));
    match string_from_utf8(body) {
        Ok(text) => Ok(Some(text)),
        Err(m) => Err(ReadError::BodyNotUtf8(m)),
    }
}

/// Reads one message's text from the stream held in `inp`: whatever it
/// gives but an error of the stream itself is what `frame_outcome` gives on
/// the stream, and an error of the stream comes exactly where a header line
/// is not UTF-8 or the body is cut short. On success the stream is left
/// just after the message (empty where it ended first). Each step is
/// `next_header_step`'s, the body `finish_body`'s.
pub fn read_frame_text(inp: &mut &[u8]) -> (r: Result<Option<String>, ReadError>)
    ensures
        match r {
            Err(ReadError::Io(_)) => stream_fault(frame_outcome(old(inp)@)),
            _ => outcome_of(r, frame_outcome(old(inp)@)),
        },
        stream_fault(frame_outcome(old(inp)@)) ==> r matches Err(ReadError::Io(_)),
        r matches Err(ReadError::Io(x)) ==> (frame_outcome(old(inp)@) == Err::<
            Option<Seq<char>>,
            FrameFault,
        >(FrameFault::TruncatedBody) ==> io_error_kind(x) == IoKind::UnexpectedEof),
        r is Ok ==> final(inp)@ == old(inp)@.skip(frame_len(old(inp)@)),
        r matches Ok(None) ==> final(inp)@.len() == 0,
{
    let ghost s: Seq<u8> = inp@;
    let mut size: Option<usize> = None;
    let ghost mut consumed: Seq<u8> = Seq::empty();
    assert(s =~= consumed + inp@);
    loop
        invariant
            s == old(inp)@,
            s == consumed + inp@,
            frame_outcome(s) == read_headers(inp@, size),
            frame_len(s) == consumed.len() + headers_len(inp@, size),
        decreases inp@.len(),
    {
        let ghost t: Seq<u8> = inp@;
        proof {
            lemma_first_line(t);
        }
        let mut line = String::new();
        match read_line(inp, &mut line) {
            Ok(_) => {},
            Err(e) => {
                assert(read_headers(t, size) == Err::<Option<Seq<char>>, FrameFault>(
                    FrameFault::HeaderNotUtf8,
                ));
                return Err(ReadError::Io(e));
            },
        }
        let ghost lb = encode_utf8(line@);
        let ghost x = inp@;
        assert(lb + x =~= t);
        let step = next_header_step(size, line);
        assert(step_agrees(step, x, read_headers(lb + x, size)));
        assert(len_agrees(step, x, lb.len() as int, headers_len(lb + x, size)));
        match step {
            HeaderStep::Continue(next) => {
                proof {
                    consumed = consumed + lb;
                    assert(s =~= consumed + inp@);
                }
                size = next;
            },
            HeaderStep::Body(k) => {
                let body = match read_body_bytes(inp, k) {
                    Ok(b) => b,
                    Err(e) => {
                        return Err(ReadError::Io(e));
                    },
                };
                assert(body@.take(k as int) =~= x.take(k as int));
                let r = finish_body(k, body);
                assert(s.skip(consumed.len() + lb.len() + k) =~= inp@);
                return r;
            },
            HeaderStep::End => {
                assert(s.skip(s.len() as int) =~= inp@);
                return Ok(None);
            },
            HeaderStep::Fail(e) => {
                return Err(e);
            },
        }
    }
}

/// How a failed read is reported: the stream's own error as it came, or a
/// new error of kind `InvalidData` or `UnexpectedEof` with this text.
pub enum IoReport {
    Stream(std::io::Error),
    InvalidData(String),
    UnexpectedEof(String),
}

/// The report of each failed read: a malformed header line is shown with
/// `{:?}`, a bad `Content-Length` by `std`'s parse error text.
pub open spec fn report_of(e: ReadError, r: IoReport) -> bool {
    match e {
        ReadError::Io(x) => r == IoReport::Stream(x),
        _ => match r {
            IoReport::Stream(_) => false,
            IoReport::InvalidData(m) => error_kind(e) == IoKind::InvalidData && m@ == error_text(e),
            IoReport::UnexpectedEof(m) => error_kind(e) == IoKind::UnexpectedEof && m@ == error_text(
                e,
            ),
        },
    }
}

/// Decides how a failed read is reported.
pub fn io_report(e: ReadError) -> (r: IoReport)
    ensures
        report_of(e, r),
{
    match e {
        ReadError::Io(x) => IoReport::Stream(x),
        ReadError::Unterminated(line) => IoReport::InvalidData(
            malformed_header_message(line.as_str()),
        ),
        ReadError::NoSeparator(line) => IoReport::InvalidData(
            malformed_header_message(line.as_str()),
        ),
        ReadError::InvalidContentLength(kind) => IoReport::InvalidData(kind.message().to_string()),
        ReadError::MissingContentLength => IoReport::InvalidData("no Content-Length".to_string()),
        ReadError::TruncatedBody => IoReport::UnexpectedEof(
            "failed to fill whole buffer".to_string(),
        ),
        ReadError::BodyNotUtf8(message) => IoReport::InvalidData(message),
    }
}

/// Builds the error that `read_msg_text` reports for a failed read, as
/// `io_report` decides it: the stream's own error, or a new one of the kind
/// and with the text that `io_report` gives. The error is opaque here, so
/// its kind and text are stated in `io_report` only.
pub fn into_io_error(e: ReadError) -> (r: std::io::Error)
    ensures
        e matches ReadError::Io(x) ==> r == x,
        !(e is Io) ==> io_error_kind(r) == error_kind(e) && io_error_text(r) == error_text(e),
{
    match io_report(e) {
        IoReport::Stream(x) => x,
        IoReport::InvalidData(m) => invalid_data(m),
        IoReport::UnexpectedEof(m) => unexpected_eof_error(m),
    }
}

/// The text of the error for a header line that is not `name: value` CR LF.
fn malformed_header_message(line: &str) -> (m: String)
    ensures
        m@ == "malformed header: "@ + debug_text(line@),
{
    let mut m = "malformed header: ".to_string();
    let quoted = debug_string(line);
    m.append(quoted.as_str());
    m
}

/// An error of kind `InvalidData` with the given text.
pub fn invalid_data(message: String) -> (e: std::io::Error)
    ensures
        io_error_kind(e) == IoKind::InvalidData,
        io_error_text(e) == message@,
{
    invalid_data_error(message)
}

/// Reads the text of one message from the stream held in `inp`. It
/// succeeds exactly where `frame_outcome` gives no fault on the stream, with
/// its text (`None` where the stream ended first), and leaves the stream
/// just after the message. A fault that reading finds itself comes back as
/// a new error of `fault_kind` and `fault_text`; an error of the stream
/// comes back as the stream gave it (for a body cut short, of kind
/// `UnexpectedEof`).
pub fn read_msg_text(inp: &mut &[u8]) -> (r: std::io::Result<Option<String>>)
    ensures
        r is Err <==> frame_outcome(old(inp)@) is Err,
        r matches Ok(o) ==> frame_outcome(old(inp)@) == Ok::<Option<Seq<char>>, FrameFault>(
            text_view(o),
        ) && final(inp)@ == old(inp)@.skip(frame_len(old(inp)@)),
        r matches Ok(None) ==> final(inp)@.len() == 0,
        r matches Err(x) ==> (frame_outcome(old(inp)@) matches Err(f) && (if stream_fault(
            frame_outcome(old(inp)@),
        ) {
            f is TruncatedBody ==> io_error_kind(x) == IoKind::UnexpectedEof
        } else {
            io_error_kind(x) == fault_kind(f) && io_error_text(x) == fault_text(f)
        })),
{
    match read_frame_text(inp) {
        Ok(o) => Ok(o),
        Err(e) => Err(into_io_error(e)),
    }
}

/// The bytes that carry `msg`: its header block, then its UTF-8 bytes.
pub fn encode_frame(msg: &str) -> (f: Vec<u8>)
    ensures
        f@ == frame_bytes(msg@),
{
    let body = msg.as_bytes();
    let len = body.len();
    let mut f: Vec<u8> = vec![67u8, 111u8, 110u8, 116u8, 101u8, 110u8, 116u8, 45u8, 76u8, 101u8, 110u8, 103u8, 116u8, 104u8];
    f.push(58u8);
    f.push(32u8);
    push_decimal(len as u64, &mut f);
    f.push(13u8);
    f.push(10u8);
    f.push(13u8);
    f.push(10u8);
    assert(f@ =~= frame_header(len as nat));
    let ghost head = f@;
    let mut i: usize = 0;
    while i < len
        invariant
            0 <= i <= len,
            len == body@.len(),
            f@ == head + body@.take(i as int),
        decreases len - i,
    {
        f.push(body[i]);
        i = i + 1;
        assert(f@ =~= head + body@.take(i as int));
    }
    assert(body@.take(len as int) =~= body@);
    f
}

/// Writes `msg` framed by its header block to the buffer `out`: the bytes
/// of `encode_frame(msg)` are appended, as writing them to a `Vec<u8>` does
/// (whose flush does nothing), and writing cannot fail.
pub fn write_msg_text(out: &mut Vec<u8>, msg: &str) -> (r: std::io::Result<()>)
    ensures
        r is Ok,
        final(out)@ == old(out)@ + frame_bytes(msg@),
{
    let frame = encode_frame(msg);
    out.extend_from_slice(frame.as_slice());
    Ok(())
}

/// The header line `Content-Length: <n>` with its CR LF.
pub open spec fn content_length_line(n: nat) -> Seq<u8> {
    content_length_name() + seq![58u8, 32u8] + decimal(n) + seq![13u8, 10u8]
}

proof fn lemma_content_length_line_bytes(n: nat)
    ensures
        forall|i: int|
            0 <= i < content_length_line(n).len() ==> #[trigger] content_length_line(n)[i] < 128
                && (i < content_length_line(n).len() - 1 ==> content_length_line(n)[i] != 10),
        content_length_line(n).last() == 10,
{
    let d = decimal(n);
    let h1 = content_length_line(n);
    crate::text::lemma_decimal_len(n);
    assert forall|i: int| 0 <= i < h1.len() implies #[trigger] h1[i] < 128 && (i < h1.len() - 1
        ==> h1[i] != 10) by {
        if 16 <= i < 16 + d.len() {
            assert(h1[i] == d[i - 16]);
        }
    }
}

proof fn lemma_first_separator_after_name(d: Seq<u8>)
    ensures
        separator_index(content_length_name() + seq![58u8, 32u8] + d) == 14,
{
    let name = content_length_name();
    let h = name + seq![58u8, 32u8] + d;
    assert(separator_at(h, 14));
    assert forall|j: int| 0 <= j < 14 implies !#[trigger] separator_at(h, j) by {
        assert(h[j] == name[j]);
    }
    assert(is_first_separator(h, 14));
    let c = choose|k: int| is_first_separator(h, k);
    if c < 14 {
        assert(separator_at(h, c));
    } else if c > 14 {
        assert(!separator_at(h, 14));
    }
}

proof fn lemma_content_length_line_meaning(n: nat)
    requires
        n <= usize::MAX,
    ensures
        classify_header(content_length_line(n)) == HeaderLine::ContentLength(Ok(n as usize)),
{
    let d = decimal(n);
    lemma_parse_decimal(n);
    let name = content_length_name();
    let h = name + seq![58u8, 32u8] + d;
    let h1 = content_length_line(n);
    assert(h1 =~= h + seq![13u8, 10u8]);
    assert(h1.take(h1.len() - 2) =~= h);
    lemma_first_separator_after_name(d);
    assert(h.take(14) =~= name);
    assert(eq_ignore_ascii_case(h.take(14), name));
    assert(h.skip(16) =~= d);
}

proof fn lemma_first_line_step(n: nat, after: Seq<u8>)
    requires
        n <= usize::MAX,
    ensures
        read_headers(content_length_line(n) + after, None) == read_headers(
            after,
            Some(n as usize),
        ),
        headers_len(content_length_line(n) + after, None) == content_length_line(n).len()
            + headers_len(after, Some(n as usize)),
{
    let h1 = content_length_line(n);
    lemma_content_length_line_bytes(n);
    lemma_content_length_line_meaning(n);
    crate::text::lemma_ascii_valid(h1);
    lemma_line_split(h1, after);
}

proof fn lemma_blank_line_step(rest: Seq<u8>, k: usize)
    ensures
        read_headers(seq![13u8, 10u8] + rest, Some(k)) == read_body(rest, k),
        headers_len(seq![13u8, 10u8] + rest, Some(k)) == 2 + k,
{
    let h2 = seq![13u8, 10u8];
    crate::text::lemma_ascii_valid(h2);
    lemma_line_split(h2, rest);
    assert(h2.take(0) =~= Seq::<u8>::empty());
    assert(classify_header(h2) == HeaderLine::End);
}

/// Reading gives back what was written: a stream that starts with the frame
/// of `msg` (the bytes `write_msg_text` appends) yields exactly `msg`,
/// whatever follows it, and reading takes exactly the frame, so that what
/// follows is left to be read.
pub proof fn lemma_frame_roundtrip(msg: Seq<char>, rest: Seq<u8>)
    requires
        encode_utf8(msg).len() <= usize::MAX,
    ensures
        frame_outcome(frame_bytes(msg) + rest) == Ok::<Option<Seq<char>>, FrameFault>(Some(msg)),
        frame_len(frame_bytes(msg) + rest) == frame_bytes(msg).len(),
        (frame_bytes(msg) + rest).skip(frame_len(frame_bytes(msg) + rest)) == rest,
{
    let body = encode_utf8(msg);
    let n = body.len();
    let h1 = content_length_line(n);
    let after = seq![13u8, 10u8] + (body + rest);
    assert(frame_bytes(msg) + rest =~= h1 + after);
    lemma_first_line_step(n, after);
    lemma_blank_line_step(body + rest, n as usize);
    assert((body + rest).take(n as int) =~= body);
    assert((frame_bytes(msg) + rest).skip(frame_bytes(msg).len() as int) =~= rest);
}

/// The header line `name: value` with its CR LF.
pub open spec fn header_line(name: Seq<u8>, value: Seq<u8>) -> Seq<u8> {
    name + seq![58u8, 32u8] + value + seq![13u8, 10u8]
}

/// Such a header line is valid UTF-8, holds LF only as its last byte, and
/// is classified as another header.
proof fn lemma_other_line(name: Seq<u8>, value: Seq<u8>)
    requires
        valid_utf8(name),
        valid_utf8(value),
        forall|i: int| 0 <= i < name.len() ==> #[trigger] name[i] != 10,
        forall|i: int| 0 <= i < value.len() ==> #[trigger] value[i] != 10,
        forall|j: int| 0 <= j < name.len() - 1 ==> !(#[trigger] name[j] == 58 && name[j + 1] == 32),
        !eq_ignore_ascii_case(name, content_length_name()),
    ensures
        valid_utf8(header_line(name, value)),
        header_line(name, value).len() > 0,
        header_line(name, value).last() == 10,
        forall|i: int|
            0 <= i < header_line(name, value).len() - 1 ==> #[trigger] header_line(name, value)[i]
                != 10,
        classify_header(header_line(name, value)) == HeaderLine::Other,
{
    let h = header_line(name, value);
    let hb = name + seq![58u8, 32u8] + value;
    assert(h =~= hb + seq![13u8, 10u8]);
    assert(h.take(h.len() - 2) =~= hb);
    crate::text::lemma_ascii_valid(seq![58u8, 32u8]);
    crate::text::lemma_ascii_valid(seq![13u8, 10u8]);
    vstd::utf8::valid_utf8_concat(name, seq![58u8, 32u8]);
    vstd::utf8::valid_utf8_concat(name + seq![58u8, 32u8], value);
    vstd::utf8::valid_utf8_concat(hb, seq![13u8, 10u8]);
    let k = name.len() as int;
    assert(separator_at(hb, k));
    assert forall|j: int| 0 <= j < k implies !#[trigger] separator_at(hb, j) by {
        if j < k - 1 {
            assert(hb[j] == name[j] && hb[j + 1] == name[j + 1]);
        } else {
            assert(hb[j + 1] == 58);
        }
    }
    assert(is_first_separator(hb, k));
    let c = choose|i: int| is_first_separator(hb, i);
    assert(c == k) by {
        if c < k {
            assert(separator_at(hb, c));
        } else if c > k {
            assert(!separator_at(hb, k));
        }
    }
    assert(hb.take(k) =~= name);
    assert forall|i: int| 0 <= i < h.len() - 1 implies #[trigger] h[i] != 10 by {
        if i < k {
            assert(h[i] == name[i]);
        } else if k + 2 <= i < k + 2 + value.len() {
            assert(h[i] == value[i - k - 2]);
        }
    }
}

/// A header line whose name is not `Content-Length` in any ASCII case is
/// skipped: what follows it is read as if it were not there.
proof fn lemma_other_line_step(name: Seq<u8>, value: Seq<u8>, x: Seq<u8>, size: Option<usize>)
    requires
        valid_utf8(name),
        valid_utf8(value),
        forall|i: int| 0 <= i < name.len() ==> #[trigger] name[i] != 10,
        forall|i: int| 0 <= i < value.len() ==> #[trigger] value[i] != 10,
        forall|j: int| 0 <= j < name.len() - 1 ==> !(#[trigger] name[j] == 58 && name[j + 1] == 32),
        !eq_ignore_ascii_case(name, content_length_name()),
    ensures
        read_headers(header_line(name, value) + x, size) == read_headers(x, size),
        headers_len(header_line(name, value) + x, size) == header_line(name, value).len()
            + headers_len(x, size),
{
    lemma_other_line(name, value);
    lemma_skip_other_line(header_line(name, value), x, size);
}

/// A complete header line classified as another header is skipped.
proof fn lemma_skip_other_line(h: Seq<u8>, x: Seq<u8>, size: Option<usize>)
    requires
        valid_utf8(h),
        h.len() > 0,
        h.last() == 10,
        forall|i: int| 0 <= i < h.len() - 1 ==> #[trigger] h[i] != 10,
        classify_header(h) == HeaderLine::Other,
    ensures
        read_headers(h + x, size) == read_headers(x, size),
        headers_len(h + x, size) == h.len() + headers_len(x, size),
{
    lemma_line_split(h, x);
}

/// Other headers are skipped wherever they stand: a header line whose name
/// is not `Content-Length` in any ASCII case, put before the frame of `msg`
/// or between its `Content-Length` line and the blank line, changes nothing.
/// Reading still gives `msg`, takes the whole frame with that line, and
/// leaves what follows.
pub proof fn lemma_other_header_skipped(
    msg: Seq<char>,
    name: Seq<u8>,
    value: Seq<u8>,
    rest: Seq<u8>,
)
    requires
        encode_utf8(msg).len() <= usize::MAX,
        valid_utf8(name),
        valid_utf8(value),
        forall|i: int| 0 <= i < name.len() ==> #[trigger] name[i] != 10,
        forall|i: int| 0 <= i < value.len() ==> #[trigger] value[i] != 10,
        forall|j: int| 0 <= j < name.len() - 1 ==> !(#[trigger] name[j] == 58 && name[j + 1] == 32),
        !eq_ignore_ascii_case(name, content_length_name()),
    ensures
        frame_outcome(header_line(name, value) + frame_bytes(msg) + rest) == Ok::<
            Option<Seq<char>>,
            FrameFault,
        >(Some(msg)),
        frame_len(header_line(name, value) + frame_bytes(msg) + rest) == header_line(
            name,
            value,
        ).len() + frame_bytes(msg).len(),
        frame_outcome(
            content_length_line(encode_utf8(msg).len()) + header_line(name, value) + seq![13u8, 10u8]
                + encode_utf8(msg) + rest,
        ) == Ok::<Option<Seq<char>>, FrameFault>(Some(msg)),
        frame_len(
            content_length_line(encode_utf8(msg).len()) + header_line(name, value) + seq![13u8, 10u8]
                + encode_utf8(msg) + rest,
        ) == header_line(name, value).len() + frame_bytes(msg).len(),
{
    lemma_other_header_before(msg, name, value, rest);
    lemma_other_header_after(msg, name, value, rest);
}

proof fn lemma_other_header_before(msg: Seq<char>, name: Seq<u8>, value: Seq<u8>, rest: Seq<u8>)
    requires
        encode_utf8(msg).len() <= usize::MAX,
        valid_utf8(name),
        valid_utf8(value),
        forall|i: int| 0 <= i < name.len() ==> #[trigger] name[i] != 10,
        forall|i: int| 0 <= i < value.len() ==> #[trigger] value[i] != 10,
        forall|j: int| 0 <= j < name.len() - 1 ==> !(#[trigger] name[j] == 58 && name[j + 1] == 32),
        !eq_ignore_ascii_case(name, content_length_name()),
    ensures
        frame_outcome(header_line(name, value) + frame_bytes(msg) + rest) == Ok::<
            Option<Seq<char>>,
            FrameFault,
        >(Some(msg)),
        frame_len(header_line(name, value) + frame_bytes(msg) + rest) == header_line(
            name,
            value,
        ).len() + frame_bytes(msg).len(),
{
    let h = header_line(name, value);
    let f = frame_bytes(msg) + rest;
    lemma_frame_roundtrip(msg, rest);
    lemma_other_line_step(name, value, f, None);
    assert(h + frame_bytes(msg) + rest =~= h + f);
}

#[verifier::rlimit(40)]
proof fn lemma_other_header_after(msg: Seq<char>, name: Seq<u8>, value: Seq<u8>, rest: Seq<u8>)
    requires
        encode_utf8(msg).len() <= usize::MAX,
        valid_utf8(name),
        valid_utf8(value),
        forall|i: int| 0 <= i < name.len() ==> #[trigger] name[i] != 10,
        forall|i: int| 0 <= i < value.len() ==> #[trigger] value[i] != 10,
        forall|j: int| 0 <= j < name.len() - 1 ==> !(#[trigger] name[j] == 58 && name[j + 1] == 32),
        !eq_ignore_ascii_case(name, content_length_name()),
    ensures
        frame_outcome(
            content_length_line(encode_utf8(msg).len()) + header_line(name, value) + seq![13u8, 10u8]
                + encode_utf8(msg) + rest,
        ) == Ok::<Option<Seq<char>>, FrameFault>(Some(msg)),
        frame_len(
            content_length_line(encode_utf8(msg).len()) + header_line(name, value) + seq![13u8, 10u8]
                + encode_utf8(msg) + rest,
        ) == header_line(name, value).len() + frame_bytes(msg).len(),
{
    let h = header_line(name, value);
    let body = encode_utf8(msg);
    let n = body.len();
    let cl = content_length_line(n);
    let br = body + rest;
    let tail = seq![13u8, 10u8] + br;
    let s2 = cl + h + seq![13u8, 10u8] + body + rest;
    assert(s2 =~= cl + (h + tail));
    lemma_first_line_step(n, h + tail);
    lemma_other_line_step(name, value, tail, Some(n as usize));
    lemma_blank_line_step(br, n as usize);
    assert(br.take(n as int) =~= body);
    assert(read_body(br, n as usize) == Ok::<Option<Seq<char>>, FrameFault>(Some(msg)));
    assert(frame_bytes(msg).len() == cl.len() + 2 + n);
}

/// The header line `name: n` with its CR LF.
pub open spec fn length_line(name: Seq<u8>, n: nat) -> Seq<u8> {
    name + seq![58u8, 32u8] + decimal(n) + seq![13u8, 10u8]
}

/// A name equal to `Content-Length` up to ASCII case holds only ASCII
/// letters and `-`.
proof fn lemma_length_name_bytes(name: Seq<u8>)
    requires
        eq_ignore_ascii_case(name, content_length_name()),
    ensures
        name.len() == 14,
        forall|j: int| 0 <= j < 14 ==> #[trigger] name[j] < 128 && name[j] != 10 && name[j] != 58,
{
    let cl = content_length_name();
    assert forall|j: int| 0 <= j < 14 implies #[trigger] name[j] < 128 && name[j] != 10 && name[j]
        != 58 by {
        assert(ascii_lower(name[j]) == ascii_lower(cl[j]));
        assert(cl[j] == 45 || 65 <= cl[j] <= 90 || 97 <= cl[j] <= 122);
    }
}

/// A length line is valid UTF-8, holds LF only at its end, and announces `n`.
proof fn lemma_length_line(name: Seq<u8>, n: nat)
    requires
        n <= usize::MAX,
        eq_ignore_ascii_case(name, content_length_name()),
    ensures
        valid_utf8(length_line(name, n)),
        length_line(name, n).len() > 0,
        length_line(name, n).last() == 10,
        forall|i: int|
            0 <= i < length_line(name, n).len() - 1 ==> #[trigger] length_line(name, n)[i] != 10,
        classify_header(length_line(name, n)) == HeaderLine::ContentLength(Ok(n as usize)),
{
    lemma_length_name_bytes(name);
    let d = decimal(n);
    crate::text::lemma_decimal_len(n);
    lemma_parse_decimal(n);
    let h = name + seq![58u8, 32u8] + d;
    let h1 = length_line(name, n);
    assert(h1 =~= h + seq![13u8, 10u8]);
    assert forall|i: int| 0 <= i < h1.len() implies #[trigger] h1[i] < 128 && (i < h1.len() - 1
        ==> h1[i] != 10) by {
        if i < 14 {
            assert(h1[i] == name[i]);
        } else if 16 <= i < 16 + d.len() {
            assert(h1[i] == d[i - 16]);
        }
    }
    crate::text::lemma_ascii_valid(h1);
    assert(h1.take(h1.len() - 2) =~= h);
    assert(separator_at(h, 14));
    assert forall|j: int| 0 <= j < 14 implies !#[trigger] separator_at(h, j) by {
        assert(h[j] == name[j]);
    }
    assert(is_first_separator(h, 14));
    let c = choose|k: int| is_first_separator(h, k);
    assert(c == 14) by {
        if c < 14 {
            assert(separator_at(h, c));
        } else if c > 14 {
            assert(!separator_at(h, 14));
        }
    }
    assert(h.take(14) =~= name);
    assert(h.skip(16) =~= d);
}

/// A length line sets the announced length, whatever was announced before.
proof fn lemma_length_line_step(name: Seq<u8>, n: nat, after: Seq<u8>, size: Option<usize>)
    requires
        n <= usize::MAX,
        eq_ignore_ascii_case(name, content_length_name()),
    ensures
        read_headers(length_line(name, n) + after, size) == read_headers(after, Some(n as usize)),
        headers_len(length_line(name, n) + after, size) == length_line(name, n).len()
            + headers_len(after, Some(n as usize)),
{
    lemma_length_line(name, n);
    lemma_line_split(length_line(name, n), after);
}

/// The name `Content-Length` is matched in any ASCII case, and the last
/// `Content-Length` line counts. A frame of `msg` whose length line writes
/// the name as `name` (any ASCII case of `Content-Length`) is read as `msg`,
/// also after an earlier `Content-Length` line that announced another
/// length `k`; reading takes exactly these lines, the blank line and the
/// body.
pub proof fn lemma_length_name_any_case(msg: Seq<char>, name: Seq<u8>, k: nat, rest: Seq<u8>)
    requires
        encode_utf8(msg).len() <= usize::MAX,
        k <= usize::MAX,
        eq_ignore_ascii_case(name, content_length_name()),
    ensures
        frame_outcome(
            length_line(name, encode_utf8(msg).len()) + seq![13u8, 10u8] + encode_utf8(msg) + rest,
        ) == Ok::<Option<Seq<char>>, FrameFault>(Some(msg)),
        frame_len(
            length_line(name, encode_utf8(msg).len()) + seq![13u8, 10u8] + encode_utf8(msg) + rest,
        ) == length_line(name, encode_utf8(msg).len()).len() + 2 + encode_utf8(msg).len(),
        frame_outcome(
            length_line(content_length_name(), k) + length_line(name, encode_utf8(msg).len())
                + seq![13u8, 10u8] + encode_utf8(msg) + rest,
        ) == Ok::<Option<Seq<char>>, FrameFault>(Some(msg)),
        frame_len(
            length_line(content_length_name(), k) + length_line(name, encode_utf8(msg).len())
                + seq![13u8, 10u8] + encode_utf8(msg) + rest,
        ) == length_line(content_length_name(), k).len() + length_line(
            name,
            encode_utf8(msg).len(),
        ).len() + 2 + encode_utf8(msg).len(),
{
    lemma_length_any_case_one(msg, name, rest);
    lemma_length_any_case_two(msg, name, k, rest);
}

proof fn lemma_length_any_case_one(msg: Seq<char>, name: Seq<u8>, rest: Seq<u8>)
    requires
        encode_utf8(msg).len() <= usize::MAX,
        eq_ignore_ascii_case(name, content_length_name()),
    ensures
        frame_outcome(
            length_line(name, encode_utf8(msg).len()) + seq![13u8, 10u8] + encode_utf8(msg) + rest,
        ) == Ok::<Option<Seq<char>>, FrameFault>(Some(msg)),
        frame_len(
            length_line(name, encode_utf8(msg).len()) + seq![13u8, 10u8] + encode_utf8(msg) + rest,
        ) == length_line(name, encode_utf8(msg).len()).len() + 2 + encode_utf8(msg).len(),
{
    let body = encode_utf8(msg);
    let n = body.len();
    let br = body + rest;
    let tail = seq![13u8, 10u8] + br;
    assert(length_line(name, n) + seq![13u8, 10u8] + body + rest =~= length_line(name, n) + tail);
    lemma_length_line_step(name, n, tail, None);
    lemma_blank_line_step(br, n as usize);
    assert(br.take(n as int) =~= body);
}

#[verifier::rlimit(40)]
proof fn lemma_length_any_case_two(msg: Seq<char>, name: Seq<u8>, k: nat, rest: Seq<u8>)
    requires
        encode_utf8(msg).len() <= usize::MAX,
        k <= usize::MAX,
        eq_ignore_ascii_case(name, content_length_name()),
    ensures
        frame_outcome(
            length_line(content_length_name(), k) + length_line(name, encode_utf8(msg).len())
                + seq![13u8, 10u8] + encode_utf8(msg) + rest,
        ) == Ok::<Option<Seq<char>>, FrameFault>(Some(msg)),
        frame_len(
            length_line(content_length_name(), k) + length_line(name, encode_utf8(msg).len())
                + seq![13u8, 10u8] + encode_utf8(msg) + rest,
        ) == length_line(content_length_name(), k).len() + length_line(
            name,
            encode_utf8(msg).len(),
        ).len() + 2 + encode_utf8(msg).len(),
{
    let body = encode_utf8(msg);
    let n = body.len();
    let br = body + rest;
    let tail = seq![13u8, 10u8] + br;
    let second = length_line(name, n) + tail;
    let first = length_line(content_length_name(), k);
    assert(first + length_line(name, n) + seq![13u8, 10u8] + body + rest =~= first + second);
    assert(eq_ignore_ascii_case(content_length_name(), content_length_name()));
    lemma_length_line_step(content_length_name(), k, second, None);
    lemma_length_line_step(name, n, tail, Some(k as usize));
    lemma_blank_line_step(br, n as usize);
    assert(br.take(n as int) =~= body);
}

/// After the header block that announces `n` bytes, reading takes the next
/// `n` bytes as the body: it fails as cut short where fewer are left, fails
/// naming those bytes where they are not UTF-8, and otherwise gives their
/// text, taking exactly the header block and the `n` bytes.
pub proof fn lemma_body_after_header(n: nat, x: Seq<u8>)
    requires
        n <= usize::MAX,
    ensures
        x.len() < n ==> frame_outcome(frame_header(n) + x) == Err::<Option<Seq<char>>, FrameFault>(
            FrameFault::TruncatedBody,
        ),
        x.len() >= n && !valid_utf8(x.take(n as int)) ==> frame_outcome(frame_header(n) + x)
            == Err::<Option<Seq<char>>, FrameFault>(FrameFault::BodyNotUtf8(x.take(n as int))),
        x.len() >= n && valid_utf8(x.take(n as int)) ==> frame_outcome(frame_header(n) + x)
            == Ok::<Option<Seq<char>>, FrameFault>(Some(decode_utf8(x.take(n as int)))),
        x.len() >= n ==> frame_len(frame_header(n) + x) == frame_header(n).len() + n,
{
    let cl = content_length_line(n);
    let tail = seq![13u8, 10u8] + x;
    assert(frame_header(n) + x =~= cl + tail);
    lemma_first_line_step(n, tail);
    lemma_blank_line_step(x, n as usize);
}

/// Where the stream ends inside the header block there is no message, and
/// where the header block ends without `Content-Length` reading fails.
pub proof fn lemma_no_length(n: nat, x: Seq<u8>)
    requires
        n <= usize::MAX,
    ensures
        frame_outcome(Seq::empty()) == Ok::<Option<Seq<char>>, FrameFault>(None),
        frame_outcome(content_length_line(n)) == Ok::<Option<Seq<char>>, FrameFault>(None),
        frame_len(content_length_line(n)) == content_length_line(n).len(),
        frame_outcome(seq![13u8, 10u8] + x) == Err::<Option<Seq<char>>, FrameFault>(
            FrameFault::MissingContentLength,
        ),
{
    lemma_first_line_step(n, Seq::empty());
    assert(content_length_line(n) + Seq::<u8>::empty() =~= content_length_line(n));
    let h2 = seq![13u8, 10u8];
    crate::text::lemma_ascii_valid(h2);
    lemma_line_split(h2, x);
    assert(h2.take(0) =~= Seq::<u8>::empty());
    assert(classify_header(h2) == HeaderLine::End);
}

} // verus!
