use crown::ipc::{make_error_response, make_notification, make_request, make_response, JsonRpcMessage, SESSION_NOT_FOUND};
use crown::json::JsonValue;
use crown::mcp::{build_notification, build_request};

fn to_json(v: &serde_json::Value) -> JsonValue {
    match v {
        serde_json::Value::Null => JsonValue::Null,
        serde_json::Value::Bool(b) => JsonValue::Bool(*b),
        serde_json::Value::Number(n) => JsonValue::Number(n.as_i64()),
        serde_json::Value::String(s) => JsonValue::Str(s.clone()),
        serde_json::Value::Array(a) => JsonValue::Array(a.iter().map(to_json).collect()),
        serde_json::Value::Object(m) => JsonValue::Object(m.iter().map(|(k, x)| (k.clone(), to_json(x))).collect()),
    }
}

fn decode(text: &str) -> JsonValue {
    to_json(&serde_json::from_str::<serde_json::Value>(text).unwrap())
}

fn str_at<'a>(v: &'a JsonValue, key: &str) -> Option<&'a str> {
    v.get(key).and_then(|x| x.as_str())
}

fn int_at(v: &JsonValue, key: &str) -> Option<i64> {
    v.get(key).and_then(|x| x.as_i64())
}

fn is_empty_object(v: &JsonValue) -> bool {
    matches!(v, JsonValue::Object(f) if f.is_empty())
}

#[test]
fn test_build_request_with_params() {
    let params = decode(r#"{"key": "value"}"#);
    let v = build_request("test.method", Some(params), 1);
    assert_eq!(str_at(&v, "jsonrpc"), Some("2.0"));
    assert_eq!(str_at(&v, "method"), Some("test.method"));
    assert_eq!(int_at(&v, "id"), Some(1));
    assert_eq!(str_at(v.get("params").unwrap(), "key"), Some("value"));
}

#[test]
fn test_build_request_null_params_omitted() {
    let v = build_request("test.method", None, 1);
    assert_eq!(str_at(&v, "jsonrpc"), Some("2.0"));
    assert_eq!(str_at(&v, "method"), Some("test.method"));
    assert_eq!(int_at(&v, "id"), Some(1));
    assert!(v.get("params").is_none());
}

#[test]
fn test_build_request_null_value_params_omitted() {
    let v = build_request("test.method", Some(JsonValue::Null), 1);
    assert!(v.get("params").is_none());
}

#[test]
fn test_build_request_empty_object_retains_params() {
    let v = build_request("test.method", Some(decode("{}")), 1);
    assert!(is_empty_object(v.get("params").unwrap()));
}

#[test]
fn test_build_request_empty_array_retains_params() {
    let v = build_request("test.method", Some(decode("[]")), 1);
    assert!(v.get("params").unwrap().as_array().unwrap().is_empty());
}

#[test]
fn test_build_request_special_chars_in_method() {
    let v = build_request("mcp.tools/call", None, 42);
    assert_eq!(str_at(&v, "method"), Some("mcp.tools/call"));
    assert_eq!(int_at(&v, "id"), Some(42));
}

#[test]
fn test_build_notification_with_params() {
    let params = decode(r#"{"key": "value"}"#);
    let v = build_notification("test.notify", Some(params));
    assert_eq!(str_at(&v, "jsonrpc"), Some("2.0"));
    assert_eq!(str_at(&v, "method"), Some("test.notify"));
    assert_eq!(str_at(v.get("params").unwrap(), "key"), Some("value"));
    assert!(v.get("id").is_none());
}

#[test]
fn test_build_notification_null_params_omitted() {
    let v = build_notification("test.notify", None);
    assert!(v.get("params").is_none());
    assert!(v.get("id").is_none());
}

#[test]
fn test_build_notification_null_value_params_omitted() {
    let v = build_notification("test.notify", Some(JsonValue::Null));
    assert!(v.get("params").is_none());
}

#[test]
fn test_build_notification_empty_object_retains_params() {
    let v = build_notification("test.notify", Some(decode("{}")));
    assert!(is_empty_object(v.get("params").unwrap()));
}

#[test]
fn request_members_in_order() {
    let v = build_request("m", Some(decode("[1]")), 7);
    let keys: Vec<&str> = match &v {
        JsonValue::Object(f) => f.iter().map(|(k, _)| k.as_str()).collect(),
        _ => vec![],
    };
    assert_eq!(keys, vec!["jsonrpc", "method", "id", "params"]);
}

#[test]
fn test_make_request_fields() {
    let params = decode(r#"{"cwd": "/tmp"}"#);
    let msg = make_request(1, "create_session", params);
    let json = msg.to_json_value();
    assert_eq!(str_at(&json, "jsonrpc"), Some("2.0"));
    assert_eq!(int_at(&json, "id"), Some(1));
    assert_eq!(str_at(&json, "method"), Some("create_session"));
    assert_eq!(str_at(json.get("params").unwrap(), "cwd"), Some("/tmp"));
    assert!(json.get("result").is_none());
    assert!(json.get("error").is_none());
}

#[test]
fn test_make_notification_omits_id() {
    let msg = make_notification("assistant_text", decode(r#"{"delta": "hi"}"#));
    let json = msg.to_json_value();
    assert_eq!(str_at(&json, "jsonrpc"), Some("2.0"));
    assert!(json.get("id").is_none());
    assert_eq!(str_at(&json, "method"), Some("assistant_text"));
}

#[test]
fn test_make_response_fields() {
    let msg = make_response(5, decode(r#"{"ok": true}"#));
    let json = msg.to_json_value();
    assert_eq!(int_at(&json, "id"), Some(5));
    assert_eq!(json.get("result").unwrap().get("ok").unwrap().as_bool(), Some(true));
    assert!(json.get("method").is_none());
    assert!(json.get("error").is_none());
}

#[test]
fn test_make_error_response_fields() {
    let data = decode(r#"{"detail": "not found"}"#);
    let msg = make_error_response(3, SESSION_NOT_FOUND, "session not found", Some(data));
    let json = msg.to_json_value();
    assert_eq!(int_at(&json, "id"), Some(3));
    let error = json.get("error").unwrap();
    assert_eq!(int_at(error, "code"), Some(SESSION_NOT_FOUND as i64));
    assert_eq!(str_at(error, "message"), Some("session not found"));
    assert_eq!(str_at(error.get("data").unwrap(), "detail"), Some("not found"));
    assert!(json.get("result").is_none());
}

#[test]
fn test_is_request_true_false() {
    let req = make_request(1, "ping", decode("{}"));
    assert!(req.is_request());
    assert!(!req.is_notification());
    assert!(!req.is_response());

    let notif = make_notification("ping", decode("{}"));
    assert!(!notif.is_request());
    assert!(notif.is_notification());
    assert!(!notif.is_response());

    let resp = make_response(1, decode("{}"));
    assert!(!resp.is_request());
    assert!(!resp.is_notification());
    assert!(resp.is_response());
}

#[test]
fn test_is_notification_true_false() {
    assert!(!make_request(1, "x", decode("{}")).is_notification());
    assert!(make_notification("x", decode("{}")).is_notification());
    assert!(!make_response(1, decode("{}")).is_notification());
}

#[test]
fn test_is_response_true_false() {
    assert!(!make_request(1, "x", decode("{}")).is_response());
    assert!(!make_notification("x", decode("{}")).is_response());
    assert!(make_response(1, decode("{}")).is_response());
}

#[test]
fn test_error_data_present_and_absent() {
    let with_data = make_error_response(1, -1, "err", Some(decode(r#"{"x": 1}"#)));
    let json_with = with_data.to_json_value();
    assert!(json_with.get("error").unwrap().get("data").is_some());

    let without_data = make_error_response(2, -1, "err", None);
    let json_without = without_data.to_json_value();
    assert!(json_without.get("error").unwrap().get("data").is_none());
}

#[test]
fn large_id_is_not_an_i64() {
    let msg = JsonRpcMessage { jsonrpc: "2.0".to_string(), id: Some(u64::MAX), method: None, params: None, result: None, error: None };
    let json = msg.to_json_value();
    assert!(matches!(json.get("id"), Some(JsonValue::Number(None))));
}
