use crown::agent::AgentEvent;
use crown::ipc::{
    default_socket_path, event_notification, ok_reply, plan_request, resolve_socket_path,
    session_created_reply, session_destroyed_reply, session_request_reply, IpcRequest,
    IpcTransportError, OwnedSessions, RequestPlan, RpcReply, METHOD_NOT_FOUND, SESSION_NOT_FOUND,
};
use crown::json::JsonValue;

fn to_json(v: &serde_json::Value) -> JsonValue {
    match v {
        serde_json::Value::Null => JsonValue::Null,
        serde_json::Value::Bool(b) => JsonValue::Bool(*b),
        serde_json::Value::Number(n) => JsonValue::Number(n.as_i64()),
        serde_json::Value::String(s) => JsonValue::Str(s.clone()),
        serde_json::Value::Array(a) => JsonValue::Array(a.iter().map(to_json).collect()),
        serde_json::Value::Object(m) => {
            JsonValue::Object(m.iter().map(|(k, x)| (k.clone(), to_json(x))).collect())
        }
    }
}

fn params(text: &str) -> JsonValue {
    to_json(&serde_json::from_str::<serde_json::Value>(text).unwrap())
}

fn failure_of(p: RequestPlan) -> (i32, String) {
    match p {
        RequestPlan::Reply(RpcReply::Failure { code, message }) => (code, message),
        other => panic!("expected a failure, got {:?}", other),
    }
}

#[test]
fn test_default_socket_path_contains_crown_code() {
    let path = default_socket_path(1000);
    assert!(path.contains("crown-code"));
    assert_eq!(path, "/tmp/crown-code-1000.sock");
}

#[test]
fn test_resolve_cli_override() {
    assert_eq!(resolve_socket_path(Some("/cli/path.sock"), Some("/env/x.sock"), 0), "/cli/path.sock");
}

#[test]
fn test_resolve_env_var() {
    assert_eq!(resolve_socket_path(None, Some("/env/path.sock"), 0), "/env/path.sock");
}

#[test]
fn test_resolve_default() {
    let result = resolve_socket_path(None, None, 7);
    assert!(result.contains("crown-code"));
    assert_eq!(resolve_socket_path(None, Some(""), 7), "/tmp/crown-code-7.sock");
}

#[test]
fn test_transport_error_text() {
    assert_eq!(IpcTransportError::BindFailed("busy".to_string()).to_string(), "bind failed: busy");
    assert_eq!(IpcTransportError::ParseError("bad".to_string()).to_string(), "parse error: bad");
}

#[test]
fn test_create_session_default_cwd() {
    let owned = OwnedSessions::new();
    match plan_request("create_session", None, &owned) {
        RequestPlan::Do(IpcRequest::CreateSession { cwd }) => assert_eq!(cwd, "."),
        other => panic!("unexpected {:?}", other),
    }
    match plan_request("create_session", Some(&params(r#"{"cwd": "/tmp"}"#)), &owned) {
        RequestPlan::Do(IpcRequest::CreateSession { cwd }) => assert_eq!(cwd, "/tmp"),
        other => panic!("unexpected {:?}", other),
    }
}

#[test]
fn test_user_message_needs_owned_session() {
    let mut owned = OwnedSessions::new();
    let p = params(r#"{"session_id": "sess_1", "content": "hi"}"#);
    assert_eq!(
        failure_of(plan_request("user_message", Some(&p), &owned)),
        (SESSION_NOT_FOUND, "session not found or not owned".to_string())
    );
    match session_created_reply(&mut owned, "sess_1".to_string()) {
        RpcReply::Result(r) => assert_eq!(r.get("session_id").and_then(|v| v.as_str()), Some("sess_1")),
        other => panic!("unexpected {:?}", other),
    }
    assert!(owned.contains("sess_1"));
    match plan_request("user_message", Some(&p), &owned) {
        RequestPlan::Do(IpcRequest::UserMessage { session_id, content }) => {
            assert_eq!(session_id, "sess_1");
            assert_eq!(content, "hi");
        }
        other => panic!("unexpected {:?}", other),
    }
    session_destroyed_reply(&mut owned, "sess_1", true);
    assert!(!owned.contains("sess_1"));
}

#[test]
fn test_destroy_unknown_session_is_refused() {
    let mut owned = OwnedSessions::new();
    match session_destroyed_reply(&mut owned, "nope", false) {
        RpcReply::Failure { code, message } => {
            assert_eq!(code, SESSION_NOT_FOUND);
            assert_eq!(message, "session not found");
        }
        other => panic!("unexpected {:?}", other),
    }
    match session_request_reply(true) {
        RpcReply::Result(r) => assert_eq!(r.get("ok").and_then(|v| v.as_bool()), Some(true)),
        other => panic!("unexpected {:?}", other),
    }
}

#[test]
fn test_unknown_method_and_agent_mode() {
    let owned = OwnedSessions::new();
    assert_eq!(
        failure_of(plan_request("frobnicate", None, &owned)),
        (METHOD_NOT_FOUND, "unknown method: frobnicate".to_string())
    );
    match plan_request("set_agent_mode", None, &owned) {
        RequestPlan::Reply(RpcReply::Result(r)) => assert_eq!(r.get("ok").and_then(|v| v.as_bool()), Some(true)),
        other => panic!("unexpected {:?}", other),
    }
    match ok_reply() {
        RpcReply::Result(_) => {}
        other => panic!("unexpected {:?}", other),
    }
}

#[test]
fn test_set_config_reads_fields() {
    let owned = OwnedSessions::new();
    let p = params(r#"{"model": "m1", "max_tokens": 2048, "base_url": 3}"#);
    match plan_request("set_config", Some(&p), &owned) {
        RequestPlan::Do(IpcRequest::SetConfig(u)) => {
            assert_eq!(u.model.as_deref(), Some("m1"));
            assert_eq!(u.max_tokens, Some(2048));
            assert_eq!(u.base_url, None);
            assert_eq!(u.api_key, None);
        }
        other => panic!("unexpected {:?}", other),
    }
}

#[test]
fn test_owned_sessions_insert_twice() {
    let mut owned = OwnedSessions::new();
    owned.insert("a".to_string());
    owned.insert("a".to_string());
    owned.insert("b".to_string());
    owned.remove("a");
    assert!(!owned.contains("a"));
    assert!(owned.contains("b"));
}

#[test]
fn test_event_notifications() {
    let (m, p) = event_notification("s1", &AgentEvent::AssistantText("hello".to_string()));
    assert_eq!(m, "assistant_text");
    assert_eq!(p.get("session_id").and_then(|v| v.as_str()), Some("s1"));
    assert_eq!(p.get("delta").and_then(|v| v.as_str()), Some("hello"));
    let (m, p) = event_notification(
        "s1",
        &AgentEvent::ToolResult {
            call_id: "c".to_string(),
            name: "n".to_string(),
            content: "out".to_string(),
            is_error: true,
        },
    );
    assert_eq!(m, "tool_result");
    assert_eq!(p.get("is_error").and_then(|v| v.as_bool()), Some(true));
    let (m, p) = event_notification("s1", &AgentEvent::Error { code: -5, message: "bad".to_string() });
    assert_eq!(m, "error");
    assert_eq!(p.get("code").and_then(|v| v.as_i64()), Some(-5));
    let (m, p) = event_notification(
        "s1",
        &AgentEvent::Usage { input_tokens: 1, output_tokens: 2, cache_read_tokens: 3 },
    );
    assert_eq!(m, "usage");
    assert_eq!(p.get("cache_read_tokens").and_then(|v| v.as_i64()), Some(3));
}
