//! The error codes that JSON-RPC and the protocol define.
use vstd::prelude::*;

verus! {

/// An error code of a response error; `code` gives its number.
#[derive(Clone, Copy, Debug)]
#[non_exhaustive]
pub enum ErrorCode {
    // Defined by JSON RPC:
    ParseError,
    InvalidRequest,
    MethodNotFound,
    InvalidParams,
    InternalError,
    ServerErrorStart,
    ServerErrorEnd,
    /// Error code indicating that a server received a notification or
    /// request before the server has received the `initialize` request.
    ServerNotInitialized,
    UnknownErrorCode,
    // Defined by the protocol:
    /// The client has canceled a request and a server has detected
    /// the cancel.
    RequestCanceled,
    /// The server detected that the content of a document got
    /// modified outside normal conditions. A server should
    /// NOT send this error code if it detects a content change
    /// in it unprocessed messages. The result even computed
    /// on an older state might still be useful for the client.
    ///
    /// If a client decides that a result is not of any use anymore
    /// the client should cancel the request.
    ContentModified,
    /// The server cancelled the request. This error code should
    /// only be used for requests that explicitly support being
    /// server cancellable.
    ///
    /// @since 3.17.0
    ServerCancelled,
    /// A request failed but it was syntactically correct, e.g the
    /// method name was known and the parameters were valid. The error
    /// message should contain human readable information about why
    /// the request failed.
    ///
    /// @since 3.17.0
    RequestFailed,
}

/// The number of each error code.
pub open spec fn error_code_value(c: ErrorCode) -> int {
    match c {
        ErrorCode::ParseError => -32700,
        ErrorCode::InvalidRequest => -32600,
        ErrorCode::MethodNotFound => -32601,
        ErrorCode::InvalidParams => -32602,
        ErrorCode::InternalError => -32603,
        ErrorCode::ServerErrorStart => -32099,
        ErrorCode::ServerErrorEnd => -32000,
        ErrorCode::ServerNotInitialized => -32002,
        ErrorCode::UnknownErrorCode => -32001,
        ErrorCode::RequestCanceled => -32800,
        ErrorCode::ContentModified => -32801,
        ErrorCode::ServerCancelled => -32802,
        ErrorCode::RequestFailed => -32803,
    }
}

impl ErrorCode {
    /// The number that stands for this code in a response error.
    pub fn code(self) -> (n: i32)
        ensures
            n == error_code_value(self),
    {
        match self {
            ErrorCode::ParseError => -32700,
            ErrorCode::InvalidRequest => -32600,
            ErrorCode::MethodNotFound => -32601,
            ErrorCode::InvalidParams => -32602,
            ErrorCode::InternalError => -32603,
            ErrorCode::ServerErrorStart => -32099,
            ErrorCode::ServerErrorEnd => -32000,
            ErrorCode::ServerNotInitialized => -32002,
            ErrorCode::UnknownErrorCode => -32001,
            ErrorCode::RequestCanceled => -32800,
            ErrorCode::ContentModified => -32801,
            ErrorCode::ServerCancelled => -32802,
            ErrorCode::RequestFailed => -32803,
        }
    }
}

/// Each code has its own number: the number tells the code.
pub proof fn lemma_error_codes_distinct(a: ErrorCode, b: ErrorCode)
    ensures
        error_code_value(a) == error_code_value(b) ==> a == b,
{
}

} // verus!
