use lsp_server::{
    DecodeError, ErrorCode, ExtractError, JsonNumber, JsonValue, Message, Notification, Request,
    RequestId, Response, ResponseError,
};

/// A JSON value as the library holds it, from `serde_json`'s form.
fn json(v: serde_json::Value) -> JsonValue {
    match v {
        serde_json::Value::Null => JsonValue::Null,
        serde_json::Value::Bool(b) => JsonValue::Bool(b),
        serde_json::Value::Number(n) => {
            if let Some(u) = n.as_u64() {
                JsonValue::Number(JsonNumber::PosInt(u))
            } else if let Some(i) = n.as_i64() {
                JsonValue::Number(JsonNumber::NegInt(i))
            } else {
                JsonValue::Number(JsonNumber::Float(n.as_f64().unwrap().to_bits()))
            }
        }
        serde_json::Value::String(s) => JsonValue::String(s),
        serde_json::Value::Array(items) => JsonValue::Array(items.into_iter().map(json).collect()),
        serde_json::Value::Object(map) => {
            JsonValue::Object(map.into_iter().map(|(k, v)| (k, json(v))).collect())
        }
    }
}

fn parse(text: &str) -> JsonValue {
    json(serde_json::from_str(text).unwrap())
}

/// The JSON text of a value, members in their order.
fn text(v: &JsonValue) -> String {
    match v {
        JsonValue::Null => "null".to_string(),
        JsonValue::Bool(b) => b.to_string(),
        JsonValue::Number(JsonNumber::PosInt(u)) => u.to_string(),
        JsonValue::Number(JsonNumber::NegInt(i)) => i.to_string(),
        JsonValue::Number(JsonNumber::Float(bits)) => {
            serde_json::to_string(&f64::from_bits(*bits)).unwrap()
        }
        JsonValue::String(s) => serde_json::to_string(s).unwrap(),
        JsonValue::Array(items) => {
            format!("[{}]", items.iter().map(text).collect::<Vec<_>>().join(","))
        }
        JsonValue::Object(es) => format!(
            "{{{}}}",
            es.iter()
                .map(|(k, v)| format!("{}:{}", serde_json::to_string(k).unwrap(), text(v)))
                .collect::<Vec<_>>()
                .join(",")
        ),
    }
}

fn decode(text: &str) -> Result<Message, DecodeError> {
    Message::from_json(parse(text))
}

#[test]
fn shutdown_with_explicit_null() {
    let text = "{\"jsonrpc\": \"2.0\",\"id\": 3,\"method\": \"shutdown\", \"params\": null }";
    let msg: Message = decode(text).unwrap();

    assert!(
        matches!(msg, Message::Request(req) if req.id == 3.into() && req.method == "shutdown")
    );
}

#[test]
fn shutdown_with_no_params() {
    let text = "{\"jsonrpc\": \"2.0\",\"id\": 3,\"method\": \"shutdown\"}";
    let msg: Message = decode(text).unwrap();

    assert!(
        matches!(msg, Message::Request(req) if req.id == 3.into() && req.method == "shutdown")
    );
}

#[test]
fn notification_with_explicit_null() {
    let text = "{\"jsonrpc\": \"2.0\",\"method\": \"exit\", \"params\": null }";
    let msg: Message = decode(text).unwrap();

    assert!(matches!(msg, Message::Notification(not) if not.method == "exit"));
}

#[test]
fn notification_with_no_params() {
    let text = "{\"jsonrpc\": \"2.0\",\"method\": \"exit\"}";
    let msg: Message = decode(text).unwrap();

    assert!(matches!(msg, Message::Notification(not) if not.method == "exit"));
}

#[test]
fn serialize_request_with_null_params() {
    let msg = Message::Request(Request {
        id: RequestId::from(3),
        method: "shutdown".into(),
        params: JsonValue::Null,
    });
    let serialized = text(&msg.into_json());

    assert_eq!("{\"id\":3,\"method\":\"shutdown\"}", serialized);
}

#[test]
fn serialize_notification_with_null_params() {
    let msg = Message::Notification(Notification {
        method: "exit".into(),
        params: JsonValue::Null,
    });
    let serialized = text(&msg.into_json());

    assert_eq!("{\"method\":\"exit\"}", serialized);
}

#[test]
fn request_with_params_is_written_in_order() {
    let msg = Message::Request(Request::new(
        RequestId::from("a-1".to_string()),
        "textDocument/hover".into(),
        parse("{\"line\":4}"),
    ));
    assert_eq!(
        "{\"id\":\"a-1\",\"method\":\"textDocument/hover\",\"params\":{\"line\":4}}",
        text(&msg.into_json())
    );
}

#[test]
fn response_is_written_with_result_then_error() {
    let ok = Message::Response(Response::new_ok(RequestId::from(7), parse("[1,2]")));
    assert_eq!("{\"id\":7,\"result\":[1,2]}", text(&ok.into_json()));

    let err = Message::Response(Response::new_err(
        RequestId::from(-2),
        ErrorCode::MethodNotFound.code(),
        "no such method".into(),
    ));
    assert_eq!(
        "{\"id\":-2,\"error\":{\"code\":-32601,\"message\":\"no such method\"}}",
        text(&err.into_json())
    );

    let bare = Message::Response(Response { id: RequestId::from(1), result: None, error: None });
    assert_eq!("{\"id\":1}", text(&bare.into_json()));
}

#[test]
fn error_with_data_is_written_last() {
    let e = ResponseError { code: 5, message: "m".into(), data: Some(JsonValue::Bool(true)) };
    assert_eq!("{\"code\":5,\"message\":\"m\",\"data\":true}", text(&e.into_json()));
}

#[test]
fn wire_form_starts_with_jsonrpc() {
    let msg = Message::Notification(Notification::new("exit".into(), JsonValue::Null));
    assert_eq!("{\"jsonrpc\":\"2.0\",\"method\":\"exit\"}", text(&msg.into_wire_json()));
    let req = Message::Request(Request::new(RequestId::from(3), "shutdown".into(), JsonValue::Null));
    assert_eq!(
        "{\"jsonrpc\":\"2.0\",\"id\":3,\"method\":\"shutdown\"}",
        text(&req.into_wire_json())
    );
}

/// Law: what `into_json` writes, `from_json` reads back as the same message
/// (see `lemma_message_roundtrip`), on the wire too (`lemma_wire_roundtrip`).
#[test]
fn messages_read_back_as_written() {
    let samples = vec![
        Message::Request(Request::new(RequestId::from(-5), "a".into(), parse("{\"x\":[null]}"))),
        Message::Request(Request::new(RequestId::from("k".to_string()), "b".into(), JsonValue::Null)),
        Message::Notification(Notification::new("c".into(), parse("3.5"))),
        Message::Response(Response {
            id: RequestId::from(9),
            result: Some(JsonValue::Null),
            error: Some(ResponseError {
                code: i32::MIN,
                message: "bad".into(),
                data: Some(parse("{\"why\":\"because\"}")),
            }),
        }),
    ];
    for m in samples {
        let written = text(&m.clone().into_json());
        let read = Message::from_json(m.clone().into_json()).unwrap();
        assert_eq!(written, text(&read.clone().into_json()));
        let wired = Message::from_json(m.clone().into_wire_json()).unwrap();
        assert_eq!(written, text(&wired.into_json()));
    }
}

#[test]
fn response_is_read_with_result_and_error() {
    let msg = decode("{\"id\":\"x\",\"result\":null,\"error\":{\"code\":1,\"message\":\"m\",\"data\":[]}}")
        .unwrap();
    match msg {
        Message::Response(r) => {
            assert!(r.id == RequestId::from("x".to_string()));
            assert_eq!(r.result, Some(JsonValue::Null));
            let e = r.error.unwrap();
            assert_eq!(e.code, 1);
            assert_eq!(e.message, "m");
            assert_eq!(e.data, Some(JsonValue::Array(vec![])));
        }
        _ => panic!("not a response"),
    }
}

#[test]
fn ids_are_cut_to_32_bits() {
    let msg = decode("{\"id\":4294967297,\"method\":\"m\"}").unwrap();
    assert!(matches!(msg, Message::Request(r) if r.id == RequestId::from(1)));
    let msg = decode("{\"id\":-1,\"method\":\"m\"}").unwrap();
    assert!(matches!(msg, Message::Request(r) if r.id == RequestId::from(-1)));
}

#[test]
fn error_codes_are_cut_to_32_bits() {
    let msg = decode("{\"id\":1,\"error\":{\"code\":4294967298,\"message\":\"m\"}}").unwrap();
    assert!(matches!(msg, Message::Response(r) if r.error.as_ref().unwrap().code == 2));
}

#[test]
fn each_decode_error_has_its_input() {
    assert_eq!(decode("[1]").unwrap_err(), DecodeError::NotAnObject(parse("[1]")));
    assert_eq!(decode("{\"id\":1.5,\"method\":\"m\"}").unwrap_err(), DecodeError::InvalidId(parse("1.5")));
    assert_eq!(decode("{\"id\":true}").unwrap_err(), DecodeError::InvalidId(JsonValue::Bool(true)));
    assert_eq!(
        decode("{\"id\":1,\"method\":2}").unwrap_err(),
        DecodeError::MethodNotString(parse("2"))
    );
    assert_eq!(decode("{\"method\":null}").unwrap_err(), DecodeError::MethodNotString(JsonValue::Null));
    assert_eq!(decode("{\"params\":{}}").unwrap_err(), DecodeError::NeitherIdNorMethod);
    assert_eq!(
        decode("{\"id\":1,\"error\":null}").unwrap_err(),
        DecodeError::NotAnObject(JsonValue::Null)
    );
    assert_eq!(decode("{\"id\":1,\"error\":{\"message\":\"m\"}}").unwrap_err(), DecodeError::MissingCode);
    assert_eq!(
        decode("{\"id\":1,\"error\":{\"code\":\"1\",\"message\":\"m\"}}").unwrap_err(),
        DecodeError::CodeNotNumber(parse("\"1\""))
    );
    assert_eq!(
        decode("{\"id\":1,\"error\":{\"code\":1.0,\"message\":\"m\"}}").unwrap_err(),
        DecodeError::CodeNotInteger(JsonNumber::Float(1.0f64.to_bits()))
    );
    assert_eq!(
        decode("{\"id\":1,\"error\":{\"code\":18446744073709551615,\"message\":\"m\"}}").unwrap_err(),
        DecodeError::CodeNotInteger(JsonNumber::PosInt(u64::MAX))
    );
    assert_eq!(decode("{\"id\":1,\"error\":{\"code\":1}}").unwrap_err(), DecodeError::MissingMessage);
    assert_eq!(
        decode("{\"id\":1,\"error\":{\"code\":1,\"message\":[]}}").unwrap_err(),
        DecodeError::MessageNotString(JsonValue::Array(vec![]))
    );
}

#[test]
fn the_last_member_with_a_key_counts() {
    let v = JsonValue::Object(vec![
        ("method".to_string(), JsonValue::String("first".into())),
        ("method".to_string(), JsonValue::String("last".into())),
    ]);
    let msg = Message::from_json(v).unwrap();
    assert!(matches!(msg, Message::Notification(n) if n.method == "last"));
}

#[test]
fn extract_checks_the_method() {
    let req = Request::new(RequestId::from(1), "initialize".into(), JsonValue::Bool(false));
    assert!(req.is_initialize());
    assert!(!req.is_shutdown());
    match req.clone().extract("shutdown") {
        Err(ExtractError::MethodMismatch(r)) => assert_eq!(r.method, "initialize"),
        _ => panic!("expected a mismatch"),
    }
    let (id, params) = req.extract("initialize").unwrap();
    assert!(id == RequestId::from(1));
    assert_eq!(params, JsonValue::Bool(false));

    let not = Notification::new("exit".into(), JsonValue::Null);
    assert!(not.is_exit());
    assert!(!not.is_initialized());
    assert!(matches!(not.clone().extract("initialized"), Err(ExtractError::MethodMismatch(_))));
    assert_eq!(not.extract("exit").unwrap(), JsonValue::Null);
}

#[test]
fn request_ids_show_as_display_does() {
    assert_eq!(RequestId::from(3).to_string(), "3");
    assert_eq!(RequestId::from(-42).to_string(), "-42");
    assert_eq!(RequestId::from(i32::MIN).to_string(), "-2147483648");
    assert_eq!(RequestId::from("abc".to_string()).to_string(), "\"abc\"");
    assert_eq!(RequestId::from("a\"b\n".to_string()).to_string(), "\"a\\\"b\\n\"");
}

#[test]
fn request_ids_compare_by_kind_then_value() {
    assert!(RequestId::from(1) < RequestId::from(2));
    assert!(RequestId::from(2) < RequestId::from("1".to_string()));
    assert!(RequestId::from(1) != RequestId::from("1".to_string()));
}

#[test]
fn error_codes_have_their_numbers() {
    let codes = [
        (ErrorCode::ParseError, -32700),
        (ErrorCode::InvalidRequest, -32600),
        (ErrorCode::MethodNotFound, -32601),
        (ErrorCode::InvalidParams, -32602),
        (ErrorCode::InternalError, -32603),
        (ErrorCode::ServerErrorStart, -32099),
        (ErrorCode::ServerErrorEnd, -32000),
        (ErrorCode::ServerNotInitialized, -32002),
        (ErrorCode::UnknownErrorCode, -32001),
        (ErrorCode::RequestCanceled, -32800),
        (ErrorCode::ContentModified, -32801),
        (ErrorCode::ServerCancelled, -32802),
        (ErrorCode::RequestFailed, -32803),
    ];
    for (i, (c, n)) in codes.iter().enumerate() {
        assert_eq!(c.code(), *n);
        for (d, m) in codes.iter().skip(i + 1) {
            assert_ne!(c.code(), d.code());
            assert_ne!(n, m);
        }
    }
}

#[test]
fn messages_convert_from_their_parts() {
    let m: Message = Notification::new("exit".into(), JsonValue::Null).into();
    assert!(matches!(m, Message::Notification(_)));
    let m: Message = Request::new(RequestId::from(1), "x".into(), JsonValue::Null).into();
    assert!(matches!(m, Message::Request(_)));
    let m: Message = Response::new_ok(RequestId::from(1), JsonValue::Null).into();
    assert!(matches!(m, Message::Response(_)));
}

#[test]
fn json_values_clone_member_by_member() {
    let v = parse("{\"a\":[1,-2,3.25,\"s\",true,null,{\"b\":{}}]}");
    assert_eq!(v.clone(), v);
    assert!(v.clone().is_null() == false);
    assert!(JsonValue::Null.is_null());
    assert_eq!(JsonNumber::PosInt(5).as_i64(), Some(5));
    assert_eq!(JsonNumber::PosInt(u64::MAX).as_i64(), None);
    assert_eq!(JsonNumber::NegInt(-5).as_i64(), Some(-5));
    assert_eq!(JsonNumber::from_i64(-1), JsonNumber::NegInt(-1));
    assert_eq!(JsonNumber::from_i64(0), JsonNumber::PosInt(0));
}

#[test]
fn a_cloned_value_is_the_same_value() {
    let v = JsonValue::Object(vec![
        ("a".to_string(), JsonValue::Array(vec![JsonValue::Null, JsonValue::Bool(true)])),
        ("b".to_string(), JsonValue::Number(JsonNumber::NegInt(-3))),
        ("c".to_string(), JsonValue::String("x".to_string())),
    ]);
    assert_eq!(v.clone(), v);
}
