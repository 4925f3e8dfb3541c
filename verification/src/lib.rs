//! Messages of the Language Server Protocol: their JSON form, and their
//! framing on a byte stream by a `Content-Length` header.
pub mod codec;
pub mod error_code;
pub mod framing;
pub mod id;
pub mod json;
pub mod msg;
pub mod stream;
pub mod text;

pub use error_code::ErrorCode;
pub use framing::{invalid_data, read_msg_text, write_msg_text};
pub use id::RequestId;
pub use json::{DecodeError, JsonNumber, JsonValue};
pub use msg::{ExtractError, Message, Notification, Request, Response, ResponseError};
