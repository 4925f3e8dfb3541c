//! Writing messages as JSON objects and reading them back, with the laws
//! that tie the two together.
use crate::id::RequestId;
use crate::json::{
    distinct_keys, i64_number, lemma_lookup_permutation, lemma_lookup_push, lemma_lookup_skip_front, lookup,
    pick_members, DecodeError, JsonNumber, JsonValue,
};
use crate::msg::{
    decode_members, decode_message, decode_response_error, decode_response_error_members,
    message_json, notification_members, or_null,
    request_members, response_error_json, response_members, wire_json, Message, Notification,
    Request, Response, ResponseError,
};
use vstd::prelude::*;

verus! {

proof fn lemma_message_keys_distinct()
    ensures
        "id"@ != "method"@,
        "id"@ != "params"@,
        "id"@ != "result"@,
        "id"@ != "error"@,
        "method"@ != "params"@,
        "method"@ != "result"@,
        "method"@ != "error"@,
        "params"@ != "result"@,
        "params"@ != "error"@,
        "result"@ != "error"@,
        "jsonrpc"@ != "id"@,
        "jsonrpc"@ != "method"@,
        "jsonrpc"@ != "params"@,
        "jsonrpc"@ != "result"@,
        "jsonrpc"@ != "error"@,
{
    reveal_strlit("id");
    reveal_strlit("method");
    reveal_strlit("params");
    reveal_strlit("result");
    reveal_strlit("error");
    reveal_strlit("jsonrpc");
    assert("id"@.len() == 2);
    assert("error"@.len() == 5);
    assert("jsonrpc"@.len() == 7);
    assert("method"@[0] != "params"@[0]);
    assert("method"@[0] != "result"@[0]);
    assert("params"@[0] != "result"@[0]);
}

proof fn lemma_error_keys_distinct()
    ensures
        "code"@ != "message"@,
        "code"@ != "data"@,
        "message"@ != "data"@,
{
    reveal_strlit("code");
    reveal_strlit("message");
    reveal_strlit("data");
    assert("code"@[0] != "data"@[0]);
}

/// Takes the value out of a member that may be missing, `null` where it is.
fn value_or_null(v: Option<JsonValue>) -> (r: JsonValue)
    ensures
        r == or_null(v),
{
    match v {
        Some(x) => x,
        None => JsonValue::Null,
    }
}

impl ResponseError {
    /// The object that writes this error.
    pub fn into_json(self) -> (v: JsonValue)
        ensures
            response_error_json(self, v),
    {
        let ResponseError { code, message, data } = self;
        let mut es: Vec<(String, JsonValue)> = Vec::new();
        es.push(("code".to_string(), JsonValue::Number(JsonNumber::from_i64(code as i64))));
        es.push(("message".to_string(), JsonValue::String(message)));
        match data {
            Some(d) => es.push(("data".to_string(), d)),
            None => {},
        }
        JsonValue::Object(es)
    }

    /// The response error that `v` stands for.
    pub fn from_json(v: JsonValue) -> (r: Result<ResponseError, DecodeError>)
        ensures
            r == decode_response_error(v),
    {
        let entries = match v {
            JsonValue::Object(es) => es,
            other => {
                return Err(DecodeError::NotAnObject(other));
            },
        };
        let keys: Vec<&str> = vec!["code", "message", "data"];
        proof {
            lemma_error_keys_distinct();
        }
        let mut picked = pick_members(entries, keys.as_slice());
        let data = picked.pop().unwrap();
        let message = picked.pop().unwrap();
        let code = picked.pop().unwrap();
        let code = match code {
            None => {
                return Err(DecodeError::MissingCode);
            },
            Some(JsonValue::Number(n)) => match n.as_i64() {
                None => {
                    return Err(DecodeError::CodeNotInteger(n));
                },
                Some(c) => c as i32,
            },
            Some(other) => {
                return Err(DecodeError::CodeNotNumber(other));
            },
        };
        let message = match message {
            None => {
                return Err(DecodeError::MissingMessage);
            },
            Some(JsonValue::String(m)) => m,
            Some(other) => {
                return Err(DecodeError::MessageNotString(other));
            },
        };
        Ok(ResponseError { code, message, data })
    }
}

impl Request {
    /// The object that writes this request.
    pub fn into_json(self) -> (v: JsonValue)
        ensures
            v matches JsonValue::Object(es) && request_members(self, es@),
    {
        let Request { id, method, params } = self;
        let mut es: Vec<(String, JsonValue)> = Vec::new();
        es.push(("id".to_string(), id.into_json()));
        es.push(("method".to_string(), JsonValue::String(method)));
        if !params.is_null() {
            es.push(("params".to_string(), params));
        }
        JsonValue::Object(es)
    }
}

impl Response {
    /// The object that writes this response.
    pub fn into_json(self) -> (v: JsonValue)
        ensures
            v matches JsonValue::Object(es) && response_members(self, es@),
    {
        let Response { id, result, error } = self;
        let mut es: Vec<(String, JsonValue)> = Vec::new();
        es.push(("id".to_string(), id.into_json()));
        match result {
            Some(r) => es.push(("result".to_string(), r)),
            None => {},
        }
        match error {
            Some(e) => es.push(("error".to_string(), e.into_json())),
            None => {},
        }
        JsonValue::Object(es)
    }
}

impl Notification {
    /// The object that writes this notification.
    pub fn into_json(self) -> (v: JsonValue)
        ensures
            v matches JsonValue::Object(es) && notification_members(self, es@),
    {
        let Notification { method, params } = self;
        let mut es: Vec<(String, JsonValue)> = Vec::new();
        es.push(("method".to_string(), JsonValue::String(method)));
        if !params.is_null() {
            es.push(("params".to_string(), params));
        }
        JsonValue::Object(es)
    }
}

impl Message {
    /// The object that writes this message.
    pub fn into_json(self) -> (v: JsonValue)
        ensures
            message_json(self, v),
    {
        match self {
            Message::Request(r) => r.into_json(),
            Message::Response(r) => r.into_json(),
            Message::Notification(n) => n.into_json(),
        }
    }

    /// The object that goes on the wire for this message: `"jsonrpc": "2.0"`,
    /// then the members that write it.
    pub fn into_wire_json(self) -> (v: JsonValue)
        ensures
            wire_json(self, v),
    {
        match self.into_json() {
            JsonValue::Object(es) => {
                let mut es = es;
                let ghost inner = es@;
                es.insert(0, ("jsonrpc".to_string(), JsonValue::String("2.0".to_string())));
                assert(es@.drop_first() =~= inner);
                JsonValue::Object(es)
            },
            other => other,
        }
    }

    /// The message that `v` stands for.
    pub fn from_json(v: JsonValue) -> (r: Result<Message, DecodeError>)
        ensures
            r == decode_message(v),
    {
        let entries = match v {
            JsonValue::Object(es) => es,
            other => {
                return Err(DecodeError::NotAnObject(other));
            },
        };
        let ghost es = entries@;
        let keys: Vec<&str> = vec!["id", "method", "params", "result", "error"];
        proof {
            lemma_message_keys_distinct();
        }
        let mut picked = pick_members(entries, keys.as_slice());
        let error = picked.pop().unwrap();
        let result = picked.pop().unwrap();
        let params = picked.pop().unwrap();
        let method = picked.pop().unwrap();
        let id = picked.pop().unwrap();
        match (id, method) {
            (Some(i), Some(m)) => {
                let id = RequestId::from_json(i)?;
                match m {
                    JsonValue::String(method) => Ok(
                        Message::Request(Request { id, method, params: value_or_null(params) }),
                    ),
                    other => Err(DecodeError::MethodNotString(other)),
                }
            },
            (None, Some(m)) => match m {
                JsonValue::String(method) => Ok(
                    Message::Notification(Notification { method, params: value_or_null(params) }),
                ),
                other => Err(DecodeError::MethodNotString(other)),
            },
            (Some(i), None) => {
                let id = RequestId::from_json(i)?;
                match error {
                    None => Ok(Message::Response(Response { id, result, error: None })),
                    Some(ev) => {
                        let e = ResponseError::from_json(ev)?;
                        Ok(Message::Response(Response { id, result, error: Some(e) }))
                    },
                }
            },
            (None, None) => Err(DecodeError::NeitherIdNorMethod),
        }
    }
}

/// A response error read back from the object that writes it is the same
/// error.
pub proof fn lemma_response_error_roundtrip(e: ResponseError, v: JsonValue)
    requires
        response_error_json(e, v),
    ensures
        decode_response_error(v) == Ok::<ResponseError, DecodeError>(e),
{
    lemma_error_keys_distinct();
    reveal_with_fuel(lookup, 4);
    let es = v->Object_0@;
}

/// A message read back from the object that writes it is the same message.
pub proof fn lemma_message_roundtrip(m: Message, v: JsonValue)
    requires
        message_json(m, v),
    ensures
        decode_message(v) == Ok::<Message, DecodeError>(m),
{
    lemma_message_keys_distinct();
    reveal_with_fuel(lookup, 4);
    let es = v->Object_0@;
    match m {
        Message::Request(r) => {
            r.id.lemma_json_roundtrip();
        },
        Message::Response(r) => {
            r.id.lemma_json_roundtrip();
            if let Some(e) = r.error {
                let k = if r.result is Some {
                    2int
                } else {
                    1int
                };
                lemma_response_error_roundtrip(e, es[k].1);
            }
        },
        Message::Notification(n) => {},
    }
}

/// The `jsonrpc` member that goes first on the wire changes nothing when
/// the message is read back.
pub proof fn lemma_wire_roundtrip(m: Message, v: JsonValue)
    requires
        wire_json(m, v),
    ensures
        decode_message(v) == Ok::<Message, DecodeError>(m),
{
    lemma_message_keys_distinct();
    let es = v->Object_0@;
    let inner = es.drop_first();
    lemma_lookup_skip_front(es, "id"@);
    lemma_lookup_skip_front(es, "method"@);
    lemma_lookup_skip_front(es, "params"@);
    lemma_lookup_skip_front(es, "result"@);
    lemma_lookup_skip_front(es, "error"@);
    reveal_with_fuel(lookup, 4);
    match m {
        Message::Request(r) => {
            r.id.lemma_json_roundtrip();
        },
        Message::Response(r) => {
            r.id.lemma_json_roundtrip();
            if let Some(e) = r.error {
                let k = if r.result is Some {
                    2int
                } else {
                    1int
                };
                lemma_response_error_roundtrip(e, inner[k].1);
            }
        },
        Message::Notification(n) => {},
    }
}

/// Reading does not depend on the order of an object's members: where the
/// members have distinct keys, the same members in any other order are read
/// as the same message (or refused the same way), and likewise as the same
/// response error.
pub proof fn lemma_decode_order_free(a: Seq<(String, JsonValue)>, b: Seq<(String, JsonValue)>)
    requires
        distinct_keys(a),
        distinct_keys(b),
        a.to_multiset() == b.to_multiset(),
    ensures
        decode_members(a) == decode_members(b),
        decode_response_error_members(a) == decode_response_error_members(b),
{
    lemma_lookup_permutation(a, b, "id"@);
    lemma_lookup_permutation(a, b, "method"@);
    lemma_lookup_permutation(a, b, "params"@);
    lemma_lookup_permutation(a, b, "result"@);
    lemma_lookup_permutation(a, b, "error"@);
    lemma_lookup_permutation(a, b, "code"@);
    lemma_lookup_permutation(a, b, "message"@);
    lemma_lookup_permutation(a, b, "data"@);
}

/// What the object written for a response error holds, key by key: `code`
/// with its code, `message` with its message, `data` exactly where there is
/// some, and no other key.
pub proof fn lemma_error_written(e: ResponseError, v: JsonValue)
    requires
        response_error_json(e, v),
    ensures
        v matches JsonValue::Object(es) && {
            &&& lookup(es@, "code"@) == Some(JsonValue::Number(i64_number(e.code as i64)))
            &&& lookup(es@, "message"@) == Some(JsonValue::String(e.message))
            &&& lookup(es@, "data"@) == e.data
            &&& forall|i: int|
                0 <= i < es@.len() ==> #[trigger] es@[i].0@ == "code"@ || es@[i].0@ == "message"@
                    || es@[i].0@ == "data"@
        },
{
    lemma_error_keys_distinct();
    reveal_with_fuel(lookup, 4);
}

/// The members written for a message, key by key.
proof fn lemma_members_written(m: Message, es: Seq<(String, JsonValue)>)
    requires
        crate::msg::message_members(m, es),
    ensures
        match m {
            Message::Request(r) => {
                &&& lookup(es, "id"@) == Some(r.id.json())
                &&& lookup(es, "method"@) == Some(JsonValue::String(r.method))
                &&& lookup(es, "params"@) == (if r.params is Null {
                    None
                } else {
                    Some(r.params)
                })
                &&& forall|i: int|
                    0 <= i < es.len() ==> #[trigger] es[i].0@ == "id"@ || es[i].0@ == "method"@
                        || es[i].0@ == "params"@
            },
            Message::Response(r) => {
                &&& lookup(es, "id"@) == Some(r.id.json())
                &&& lookup(es, "result"@) == r.result
                &&& (lookup(es, "error"@) is Some <==> r.error is Some)
                &&& r.error matches Some(e) ==> response_error_json(e, lookup(es, "error"@)->0)
                &&& forall|i: int|
                    0 <= i < es.len() ==> #[trigger] es[i].0@ == "id"@ || es[i].0@ == "result"@
                        || es[i].0@ == "error"@
            },
            Message::Notification(n) => {
                &&& lookup(es, "method"@) == Some(JsonValue::String(n.method))
                &&& lookup(es, "params"@) == (if n.params is Null {
                    None
                } else {
                    Some(n.params)
                })
                &&& forall|i: int|
                    0 <= i < es.len() ==> #[trigger] es[i].0@ == "method"@ || es[i].0@
                        == "params"@
            },
        },
{
    lemma_message_keys_distinct();
    reveal_with_fuel(lookup, 4);
}

/// What the object written for a message holds, key by key. A request: `id`
/// with its id's JSON, `method` with its method, `params` with its params
/// unless they are `null` (then no `params`). A response: `id`, `result`
/// exactly where there is one, `error` (the object written for the error)
/// exactly where there is one. A notification: `method`, and `params` unless
/// they are `null`. No other key occurs.
pub proof fn lemma_written_members(m: Message, v: JsonValue)
    requires
        message_json(m, v),
    ensures
        v matches JsonValue::Object(es) && match m {
            Message::Request(r) => {
                &&& lookup(es@, "id"@) == Some(r.id.json())
                &&& lookup(es@, "method"@) == Some(JsonValue::String(r.method))
                &&& lookup(es@, "params"@) == (if r.params is Null {
                    None
                } else {
                    Some(r.params)
                })
                &&& forall|i: int|
                    0 <= i < es@.len() ==> #[trigger] es@[i].0@ == "id"@ || es@[i].0@ == "method"@
                        || es@[i].0@ == "params"@
            },
            Message::Response(r) => {
                &&& lookup(es@, "id"@) == Some(r.id.json())
                &&& lookup(es@, "result"@) == r.result
                &&& (lookup(es@, "error"@) is Some <==> r.error is Some)
                &&& r.error matches Some(e) ==> response_error_json(e, lookup(es@, "error"@)->0)
                &&& forall|i: int|
                    0 <= i < es@.len() ==> #[trigger] es@[i].0@ == "id"@ || es@[i].0@ == "result"@
                        || es@[i].0@ == "error"@
            },
            Message::Notification(n) => {
                &&& lookup(es@, "method"@) == Some(JsonValue::String(n.method))
                &&& lookup(es@, "params"@) == (if n.params is Null {
                    None
                } else {
                    Some(n.params)
                })
                &&& forall|i: int|
                    0 <= i < es@.len() ==> #[trigger] es@[i].0@ == "method"@ || es@[i].0@
                        == "params"@
            },
        },
{
    lemma_members_written(m, v->Object_0@);
}

/// On the wire the object holds `jsonrpc` with `"2.0"`, and besides it the
/// members written for the message, key by key.
pub proof fn lemma_wire_members(m: Message, v: JsonValue)
    requires
        wire_json(m, v),
    ensures
        v matches JsonValue::Object(es) && lookup(es@, "jsonrpc"@) matches Some(
            JsonValue::String(t),
        ) && t@ == "2.0"@,
        v matches JsonValue::Object(es) && match m {
            Message::Request(r) => {
                &&& lookup(es@, "id"@) == Some(r.id.json())
                &&& lookup(es@, "method"@) == Some(JsonValue::String(r.method))
                &&& lookup(es@, "params"@) == (if r.params is Null {
                    None
                } else {
                    Some(r.params)
                })
                &&& forall|i: int|
                    0 <= i < es@.len() ==> #[trigger] es@[i].0@ == "id"@ || es@[i].0@ == "method"@
                        || es@[i].0@ == "params"@ || es@[i].0@ == "jsonrpc"@
            },
            Message::Response(r) => {
                &&& lookup(es@, "id"@) == Some(r.id.json())
                &&& lookup(es@, "result"@) == r.result
                &&& (lookup(es@, "error"@) is Some <==> r.error is Some)
                &&& r.error matches Some(e) ==> response_error_json(e, lookup(es@, "error"@)->0)
                &&& forall|i: int|
                    0 <= i < es@.len() ==> #[trigger] es@[i].0@ == "id"@ || es@[i].0@ == "result"@
                        || es@[i].0@ == "error"@ || es@[i].0@ == "jsonrpc"@
            },
            Message::Notification(n) => {
                &&& lookup(es@, "method"@) == Some(JsonValue::String(n.method))
                &&& lookup(es@, "params"@) == (if n.params is Null {
                    None
                } else {
                    Some(n.params)
                })
                &&& forall|i: int|
                    0 <= i < es@.len() ==> #[trigger] es@[i].0@ == "method"@ || es@[i].0@
                        == "params"@ || es@[i].0@ == "jsonrpc"@
            },
        },
{
    lemma_message_keys_distinct();
    let es = v->Object_0@;
    let inner = es.drop_first();
    lemma_members_written(m, inner);
    lemma_lookup_skip_front(es, "id"@);
    lemma_lookup_skip_front(es, "method"@);
    lemma_lookup_skip_front(es, "params"@);
    lemma_lookup_skip_front(es, "result"@);
    lemma_lookup_skip_front(es, "error"@);
    assert(lookup(inner, "jsonrpc"@) is None) by {
        reveal_with_fuel(lookup, 4);
    }
    assert forall|i: int| 0 <= i < es.len() && i > 0 implies es[i] == #[trigger] inner[i - 1] by {}
}

/// A member whose key is none of those a message is read by (`id`,
/// `method`, `params`, `result`, `error`) is ignored: adding it changes
/// nothing that is read. Likewise a member other than `code`, `message` and
/// `data` is ignored when a response error is read.
pub proof fn lemma_decode_ignores_other_keys(es: Seq<(String, JsonValue)>, e: (String, JsonValue))
    ensures
        e.0@ != "id"@ && e.0@ != "method"@ && e.0@ != "params"@ && e.0@ != "result"@ && e.0@
            != "error"@ ==> decode_members(es.push(e)) == decode_members(es),
        e.0@ != "code"@ && e.0@ != "message"@ && e.0@ != "data"@ ==> decode_response_error_members(
            es.push(e),
        ) == decode_response_error_members(es),
{
    lemma_lookup_push(es, e, "id"@);
    lemma_lookup_push(es, e, "method"@);
    lemma_lookup_push(es, e, "params"@);
    lemma_lookup_push(es, e, "result"@);
    lemma_lookup_push(es, e, "error"@);
    lemma_lookup_push(es, e, "code"@);
    lemma_lookup_push(es, e, "message"@);
    lemma_lookup_push(es, e, "data"@);
}

} // verus!
