//! The three kinds of LSP message, and how each is written as a JSON object
//! and read back from one.
use crate::id::RequestId;
use crate::json::{
    i64_number, lemma_lookup_skip_front, lookup, number_as_i64, pick_members, DecodeError,
    JsonNumber, JsonValue,
};
use crate::text::str_eq;
use vstd::prelude::*;

verus! {

/// `serde_json::Error`, carried through unchanged.
#[verifier::external_type_specification]
#[verifier::external_body]
pub struct ExJsonError(serde_json::Error);

/// A message: a request, a response to one, or a notification.
#[derive(Debug, Clone)]
pub enum Message {
    Request(Request),
    Response(Response),
    Notification(Notification),
}

/// A request, which expects a response with the same id.
#[derive(Debug, Clone)]
pub struct Request {
    pub id: RequestId,
    pub method: String,
    pub params: JsonValue,
}

/// The response to a request. JSON-RPC lets the id be `null` where the
/// request's id could not be read; such a response is refused when read, so
/// the id is always there.
#[derive(Debug, Clone)]
pub struct Response {
    pub id: RequestId,
    pub result: Option<JsonValue>,
    pub error: Option<ResponseError>,
}

/// The error that a response reports.
#[derive(Debug, Clone)]
pub struct ResponseError {
    pub code: i32,
    pub message: String,
    pub data: Option<JsonValue>,
}

/// A notification, which expects no response.
#[derive(Debug, Clone)]
pub struct Notification {
    pub method: String,
    pub params: JsonValue,
}

/// Why a request or notification was not for the method asked for, or its
/// parameters were not of the type asked for.
#[derive(Debug)]
pub enum ExtractError<T> {
    /// The method is another one; the message is handed back.
    MethodMismatch(T),
    /// The parameters did not deserialize.
    JsonError { method: String, error: serde_json::Error },
}

impl From<Request> for Message {
    fn from(request: Request) -> (m: Message) {
        Message::Request(request)
    }
}

impl vstd::std_specs::convert::FromSpecImpl<Request> for Message {
    open spec fn obeys_from_spec() -> bool {
        true
    }

    open spec fn from_spec(v: Request) -> Message {
        Message::Request(v)
    }
}

impl From<Response> for Message {
    fn from(response: Response) -> (m: Message) {
        Message::Response(response)
    }
}

impl vstd::std_specs::convert::FromSpecImpl<Response> for Message {
    open spec fn obeys_from_spec() -> bool {
        true
    }

    open spec fn from_spec(v: Response) -> Message {
        Message::Response(v)
    }
}

impl From<Notification> for Message {
    fn from(notification: Notification) -> (m: Message) {
        Message::Notification(notification)
    }
}

impl vstd::std_specs::convert::FromSpecImpl<Notification> for Message {
    open spec fn obeys_from_spec() -> bool {
        true
    }

    open spec fn from_spec(v: Notification) -> Message {
        Message::Notification(v)
    }
}

// ---- How a message is written as JSON ----

/// `e` is the member `key` with the value `v`.
pub open spec fn member(e: (String, JsonValue), key: Seq<char>, v: JsonValue) -> bool {
    e.0@ == key && e.1 == v
}

/// The members that write a request: `id`, `method`, and `params` unless
/// they are `null`.
pub open spec fn request_members(r: Request, es: Seq<(String, JsonValue)>) -> bool {
    &&& es.len() == (if r.params is Null {
        2int
    } else {
        3int
    })
    &&& member(es[0], "id"@, r.id.json())
    &&& member(es[1], "method"@, JsonValue::String(r.method))
    &&& !(r.params is Null) ==> member(es[2], "params"@, r.params)
}

/// The members that write a response error: `code`, `message`, and `data`
/// where there is some.
pub open spec fn response_error_members(e: ResponseError, es: Seq<(String, JsonValue)>) -> bool {
    &&& es.len() == (if e.data is Some {
        3int
    } else {
        2int
    })
    &&& member(es[0], "code"@, JsonValue::Number(i64_number(e.code as i64)))
    &&& member(es[1], "message"@, JsonValue::String(e.message))
    &&& e.data matches Some(d) ==> member(es[2], "data"@, d)
}

/// `v` is the object that writes the response error `e`.
pub open spec fn response_error_json(e: ResponseError, v: JsonValue) -> bool {
    v matches JsonValue::Object(es) && response_error_members(e, es@)
}

/// The members that write a response: `id`, then `result` and `error` where
/// there is one.
pub open spec fn response_members(r: Response, es: Seq<(String, JsonValue)>) -> bool {
    let n_result = if r.result is Some {
        1int
    } else {
        0int
    };
    &&& es.len() == 1 + n_result + (if r.error is Some {
        1int
    } else {
        0int
    })
    &&& member(es[0], "id"@, r.id.json())
    &&& r.result matches Some(x) ==> member(es[1], "result"@, x)
    &&& r.error matches Some(e) ==> es[1 + n_result].0@ == "error"@ && response_error_json(
        e,
        es[1 + n_result].1,
    )
}

/// The members that write a notification: `method`, and `params` unless
/// they are `null`.
pub open spec fn notification_members(n: Notification, es: Seq<(String, JsonValue)>) -> bool {
    &&& es.len() == (if n.params is Null {
        1int
    } else {
        2int
    })
    &&& member(es[0], "method"@, JsonValue::String(n.method))
    &&& !(n.params is Null) ==> member(es[1], "params"@, n.params)
}

/// The members that write a message, by its kind.
pub open spec fn message_members(m: Message, es: Seq<(String, JsonValue)>) -> bool {
    match m {
        Message::Request(r) => request_members(r, es),
        Message::Response(r) => response_members(r, es),
        Message::Notification(n) => notification_members(n, es),
    }
}

/// `v` is the object that writes the message `m`.
pub open spec fn message_json(m: Message, v: JsonValue) -> bool {
    v matches JsonValue::Object(es) && message_members(m, es@)
}

/// `v` is the object that goes on the wire for `m`: `"jsonrpc": "2.0"`
/// first, then the members that write `m`.
pub open spec fn wire_json(m: Message, v: JsonValue) -> bool {
    &&& v matches JsonValue::Object(es)
    &&& es@.len() > 0
    &&& es@[0].0@ == "jsonrpc"@
    &&& es@[0].1 matches JsonValue::String(s) && s@ == "2.0"@
    &&& message_members(m, es@.drop_first())
}

// ---- How a message is read from JSON ----

/// A value that may be missing, `null` where it is.
pub open spec fn or_null(v: Option<JsonValue>) -> JsonValue {
    match v {
        Some(x) => x,
        None => JsonValue::Null,
    }
}

/// The response error that an object with these members stands for: a
/// `code` that is a number with an `i64` value (cut to its low 32 bits), a
/// `message` that is a string, and `data` where it is there.
pub open spec fn decode_response_error_members(es: Seq<(String, JsonValue)>) -> Result<
    ResponseError,
    DecodeError,
> {
    match lookup(es, "code"@) {
        None => Err(DecodeError::MissingCode),
        Some(JsonValue::Number(n)) => match number_as_i64(n) {
            None => Err(DecodeError::CodeNotInteger(n)),
            Some(c) => match lookup(es, "message"@) {
                None => Err(DecodeError::MissingMessage),
                Some(JsonValue::String(m)) => Ok(
                    ResponseError { code: c as i32, message: m, data: lookup(es, "data"@) },
                ),
                Some(other) => Err(DecodeError::MessageNotString(other)),
            },
        },
        Some(other) => Err(DecodeError::CodeNotNumber(other)),
    }
}

/// The response error that a JSON value stands for.
pub open spec fn decode_response_error(v: JsonValue) -> Result<ResponseError, DecodeError> {
    match v {
        JsonValue::Object(es) => decode_response_error_members(es@),
        other => Err(DecodeError::NotAnObject(other)),
    }
}

/// The message that an object with these members stands for. With both `id`
/// and `method` it is a request, with `method` alone a notification, with
/// `id` alone a response; missing `params` read as `null`; other members
/// are ignored.
pub open spec fn decode_members(es: Seq<(String, JsonValue)>) -> Result<Message, DecodeError> {
    match (lookup(es, "id"@), lookup(es, "method"@)) {
        (Some(i), Some(m)) => match RequestId::decode(i) {
            Err(e) => Err(e),
            Ok(id) => match m {
                JsonValue::String(method) => Ok(
                    Message::Request(
                        Request { id, method, params: or_null(lookup(es, "params"@)) },
                    ),
                ),
                other => Err(DecodeError::MethodNotString(other)),
            },
        },
        (None, Some(m)) => match m {
            JsonValue::String(method) => Ok(
                Message::Notification(
                    Notification { method, params: or_null(lookup(es, "params"@)) },
                ),
            ),
            other => Err(DecodeError::MethodNotString(other)),
        },
        (Some(i), None) => match RequestId::decode(i) {
            Err(e) => Err(e),
            Ok(id) => match lookup(es, "error"@) {
                None => Ok(
                    Message::Response(
                        Response { id, result: lookup(es, "result"@), error: None },
                    ),
                ),
                Some(ev) => match decode_response_error(ev) {
                    Err(e) => Err(e),
                    Ok(e) => Ok(
                        Message::Response(
                            Response { id, result: lookup(es, "result"@), error: Some(e) },
                        ),
                    ),
                },
            },
        },
        (None, None) => Err(DecodeError::NeitherIdNorMethod),
    }
}

/// The message that a JSON value stands for.
pub open spec fn decode_message(v: JsonValue) -> Result<Message, DecodeError> {
    match v {
        JsonValue::Object(es) => decode_members(es@),
        other => Err(DecodeError::NotAnObject(other)),
    }
}

// ---- Constructors and accessors ----

impl Response {
    /// A successful response to the request `id`.
    pub fn new_ok(id: RequestId, result: JsonValue) -> (r: Response)
        ensures
            r.id == id,
            r.result == Some(result),
            r.error is None,
    {
        Response { id, result: Some(result), error: None }
    }

    /// A failed response to the request `id`, with an error without data.
    pub fn new_err(id: RequestId, code: i32, message: String) -> (r: Response)
        ensures
            r.id == id,
            r.result is None,
            r.error == Some(ResponseError { code, message, data: None }),
    {
        let error = ResponseError { code, message, data: None };
        Response { id, result: None, error: Some(error) }
    }
}

impl Request {
    /// A request with these parts.
    pub fn new(id: RequestId, method: String, params: JsonValue) -> (r: Request)
        ensures
            r.id == id,
            r.method == method,
            r.params == params,
    {
        Request { id, method, params }
    }

    /// The id and parameters of the request where it is for `method`;
    /// otherwise the request comes back in `MethodMismatch`.
    pub fn extract(self, method: &str) -> (r: Result<(RequestId, JsonValue), ExtractError<Request>>)
        ensures
            self.method@ == method@ ==> r == Ok::<(RequestId, JsonValue), ExtractError<Request>>(
                (self.id, self.params),
            ),
            self.method@ != method@ ==> r == Err::<(RequestId, JsonValue), ExtractError<Request>>(
                ExtractError::MethodMismatch(self),
            ),
    {
        if !str_eq(self.method.as_str(), method) {
            return Err(ExtractError::MethodMismatch(self));
        }
        Ok((self.id, self.params))
    }

    /// Whether the request is `shutdown`.
    pub fn is_shutdown(&self) -> (r: bool)
        ensures
            r == (self.method@ == "shutdown"@),
    {
        str_eq(self.method.as_str(), "shutdown")
    }

    /// Whether the request is `initialize`.
    pub fn is_initialize(&self) -> (r: bool)
        ensures
            r == (self.method@ == "initialize"@),
    {
        str_eq(self.method.as_str(), "initialize")
    }
}

impl Notification {
    /// A notification with these parts.
    pub fn new(method: String, params: JsonValue) -> (n: Notification)
        ensures
            n.method == method,
            n.params == params,
    {
        Notification { method, params }
    }

    /// The parameters of the notification where it is for `method`;
    /// otherwise the notification comes back in `MethodMismatch`.
    pub fn extract(self, method: &str) -> (r: Result<JsonValue, ExtractError<Notification>>)
        ensures
            self.method@ == method@ ==> r == Ok::<JsonValue, ExtractError<Notification>>(
                self.params,
            ),
            self.method@ != method@ ==> r == Err::<JsonValue, ExtractError<Notification>>(
                ExtractError::MethodMismatch(self),
            ),
    {
        if !str_eq(self.method.as_str(), method) {
            return Err(ExtractError::MethodMismatch(self));
        }
        Ok(self.params)
    }

    /// Whether the notification is `exit`.
    pub fn is_exit(&self) -> (r: bool)
        ensures
            r == (self.method@ == "exit"@),
    {
        str_eq(self.method.as_str(), "exit")
    }

    /// Whether the notification is `initialized`.
    pub fn is_initialized(&self) -> (r: bool)
        ensures
            r == (self.method@ == "initialized"@),
    {
        str_eq(self.method.as_str(), "initialized")
    }
}

} // verus!
