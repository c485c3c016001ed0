use std::collections::HashMap;

use crown::json::JsonValue;
use crown::mcp_transport::{
    answered_response, failed_response, json_line_payload, read_line_result,
    stream_refusal_message, whole_stream_events, HttpResponse, LineRead, TransportError,
};
use crown::sse::SseParser;

fn to_json(v: &serde_json::Value) -> JsonValue {
    match v {
        serde_json::Value::Null => JsonValue::Null,
        serde_json::Value::Bool(b) => JsonValue::Bool(*b),
        serde_json::Value::Number(n) => JsonValue::Number(n.as_i64()),
        serde_json::Value::String(s) => JsonValue::Str(s.clone()),
        serde_json::Value::Array(a) => JsonValue::Array(a.iter().map(to_json).collect()),
        serde_json::Value::Object(m) => {
            JsonValue::Object(m.iter().map(|(k, x)| (k.clone(), to_json(x))).collect())
        }
    }
}

#[test]
fn test_post_json_sse_response_detection() {
    let mut parser = SseParser::new();
    let events = parser.feed("data: hello\n\n");
    assert_eq!(events.len(), 1);
    assert_eq!(events[0].data, "hello");
}

#[test]
fn test_http_response_struct_fields() {
    let mut headers = HashMap::new();
    headers.insert("content-type".to_string(), "application/json".to_string());
    let resp = HttpResponse {
        status_code: 200,
        headers: headers.clone(),
        body: r#"{"result":"ok"}"#.to_string(),
        error: String::new(),
        events: Vec::new(),
    };
    assert_eq!(resp.status_code, 200);
    assert_eq!(resp.headers["content-type"], "application/json");
    assert_eq!(resp.body, r#"{"result":"ok"}"#);
    assert!(resp.error.is_empty());
    assert!(resp.events.is_empty());
}

#[test]
fn test_read_line_results() {
    let r = read_line_result(LineRead::Text("{\"a\":1}\r\n".to_string()));
    assert_eq!(r.line, "{\"a\":1}");
    assert_eq!(r.error, TransportError::Success);
    let r = read_line_result(LineRead::Text("last".to_string()));
    assert_eq!(r.line, "last");
    let r = read_line_result(LineRead::Text(String::new()));
    assert_eq!(r.error, TransportError::Eof);
    assert_eq!(read_line_result(LineRead::TimedOut).error, TransportError::Timeout);
    assert_eq!(read_line_result(LineRead::Failed).error, TransportError::ReadError);
    assert_eq!(json_line_payload("{}"), "{}\n");
}

#[test]
fn test_answered_response_kinds() {
    let r = answered_response(200, HashMap::new(), "application/json", Ok("{\"x\":1}".to_string()));
    assert_eq!(r.body, "{\"x\":1}");
    assert!(r.events.is_empty());
    let r = answered_response(
        200,
        HashMap::new(),
        "text/event-stream; charset=utf-8",
        Ok("data: one\n\ndata: two".to_string()),
    );
    assert!(r.body.is_empty());
    assert_eq!(r.events.len(), 2);
    assert_eq!(r.events[1].data, "two");
    let r = answered_response(502, HashMap::new(), "text/plain", Err("reset".to_string()));
    assert_eq!(r.status_code, 502);
    assert_eq!(r.error, "read error: reset");
    let f = failed_response("request failed: refused".to_string());
    assert_eq!(f.status_code, 0);
    assert!(!f.error.is_empty());
    assert_eq!(whole_stream_events("data: a\n\n").len(), 1);
}

#[test]
fn test_stream_refusal_messages() {
    let body = r#"{"error":{"message":"invalid api key","type":"auth"}}"#;
    assert_eq!(
        stream_refusal_message("Application/JSON", Ok(body), ""),
        "expected text/event-stream but got: application/json \u{2014} invalid api key"
    );
    let body = r#"{"error":{"code":42}}"#;
    assert_eq!(
        stream_refusal_message("application/json", Ok(body), r#"{"code":42}"#),
        "expected text/event-stream but got: application/json \u{2014} {\"code\":42}"
    );
    assert_eq!(
        stream_refusal_message("text/html", Ok("oops"), ""),
        "expected text/event-stream but got: text/html \u{2014} oops"
    );
    let long = "x".repeat(600);
    let msg = stream_refusal_message("text/plain", Ok(&long), "");
    assert!(msg.ends_with(&format!("{}...(truncated, 600 bytes total)", "x".repeat(500))));
    assert_eq!(
        stream_refusal_message("text/plain", Err("broken pipe"), ""),
        "expected text/event-stream but got: text/plain (body read error: broken pipe)"
    );
}
