//! The calls into `std::io` and into `std`'s text formatting that the codec
//! makes, each with the contract that `std`'s documentation gives it.
use crate::framing::first_line;
use std::io::{BufRead, Read};
use vstd::prelude::*;
use vstd::utf8::{decode_utf8, encode_utf8, valid_utf8};

verus! {

/// `std::io::Error`, carried through unchanged.
#[verifier::external_type_specification]
#[verifier::external_body]
pub struct ExIoError(std::io::Error);

/// The kinds of `std::io::ErrorKind` that reading tells apart.
#[derive(Clone, Copy, Debug, PartialEq, Eq)]
pub enum IoKind {
    /// `ErrorKind::InvalidData`.
    InvalidData,
    /// `ErrorKind::UnexpectedEof`.
    UnexpectedEof,
    /// Any other kind.
    Other,
}

/// The kind of an `io::Error`, as `io::Error::kind` gives it.
pub uninterp spec fn io_error_kind(e: std::io::Error) -> IoKind;

/// What an `io::Error` shows through `Display`.
pub uninterp spec fn io_error_text(e: std::io::Error) -> Seq<char>;

/// What `<str as Debug>::fmt` writes for a string: the string in double
/// quotes, with its special characters escaped.
pub uninterp spec fn debug_text(s: Seq<char>) -> Seq<char>;

/// What `<FromUtf8Error as Display>::fmt` writes for the error that
/// `String::from_utf8` gives on these bytes.
pub uninterp spec fn utf8_error_text(bytes: Seq<u8>) -> Seq<char>;

/// Calls `BufRead::read_line` on a stream held in memory. As the
/// documentation of `read_line` and of `Read for &[u8]` says, it takes the
/// bytes up to and including the first LF (all that is left where there is
/// none), the slice then points past them, and they are appended to `buf`;
/// it fails where they are not valid UTF-8, and a read from a slice fails in
/// no other way. What is left in the slice after a failure is not stated.
/// Here `buf` starts empty.
#[verifier::external_body]
pub(crate) fn read_line(inp: &mut &[u8], buf: &mut String) -> (r: std::io::Result<usize>)
    requires
        old(buf)@.len() == 0,
    ensures
        r is Ok <==> valid_utf8(first_line(old(inp)@)),
        r matches Ok(n) ==> {
            &&& n == first_line(old(inp)@).len()
            &&& encode_utf8(final(buf)@) == first_line(old(inp)@)
            &&& final(inp)@ == old(inp)@.skip(n as int)
        },
{
    inp.read_line(buf)
}

/// Calls `Read::read_exact` on a stream held in memory. As its documentation
/// says, it fills `buf` with the next bytes and the slice then points past
/// them; where fewer bytes are left it fails with an error of kind
/// `ErrorKind::UnexpectedEof`, and what is then left in the slice is not
/// stated.
#[verifier::external_body]
pub(crate) fn read_exact(inp: &mut &[u8], buf: &mut [u8]) -> (r: std::io::Result<()>)
    ensures
        final(buf)@.len() == old(buf)@.len(),
        r is Ok <==> old(buf)@.len() <= old(inp)@.len(),
        r is Ok ==> final(buf)@ == old(inp)@.take(old(buf)@.len() as int) && final(inp)@ == old(
            inp,
        )@.skip(old(buf)@.len() as int),
        r matches Err(e) ==> io_error_kind(e) == IoKind::UnexpectedEof,
{
    inp.read_exact(buf)
}

/// Calls `std::io::Error::new` with `ErrorKind::InvalidData` and `message`
/// as the payload: the error has that kind, and its `Display` shows the
/// payload's, which for a `String` is the string itself.
#[verifier::external_body]
pub(crate) fn invalid_data_error(message: String) -> (e: std::io::Error)
    ensures
        io_error_kind(e) == IoKind::InvalidData,
        io_error_text(e) == message@,
{
    std::io::Error::new(std::io::ErrorKind::InvalidData, message)
}

/// Calls `std::io::Error::new` with `ErrorKind::UnexpectedEof` and `message`
/// as the payload: the error has that kind, and its `Display` shows the
/// string.
#[verifier::external_body]
pub(crate) fn unexpected_eof_error(message: String) -> (e: std::io::Error)
    ensures
        io_error_kind(e) == IoKind::UnexpectedEof,
        io_error_text(e) == message@,
{
    std::io::Error::new(std::io::ErrorKind::UnexpectedEof, message)
}

/// Calls `String::from_utf8`: it succeeds exactly on valid UTF-8, and the
/// string then holds the decoded characters; on failure the error's text is
/// handed back.
#[verifier::external_body]
pub(crate) fn string_from_utf8(bytes: Vec<u8>) -> (r: Result<String, String>)
    ensures
        r is Ok <==> valid_utf8(bytes@),
        r matches Ok(s) ==> s@ == decode_utf8(bytes@),
        r matches Err(m) ==> m@ == utf8_error_text(bytes@),
{
    match String::from_utf8(bytes) {
        Ok(s) => Ok(s),
        Err(e) => Err(e.to_string()),
    }
}

/// Formats `s` with `{:?}`, that is `<str as Debug>::fmt`.
#[verifier::external_body]
pub(crate) fn debug_string(s: &str) -> (r: String)
    ensures
        r@ == debug_text(s@),
{
    format!("{:?}", s)
}

} // verus!
