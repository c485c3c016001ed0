use crown::mcp::{first_reply_step, refreshed_token_step, retried_reply_step, HttpReplyStep};
use crown::json::JsonValue;
use crown::mcp_transport::TransportError;
use crown::mcp::{
    call_tool_params, initialize_params, ping_interval_ms, read_failure_message, McpClientState,
    http_rpc_failure, interpret_rpc_reply, next_reconnect_delay, read_call_tool_result,
    read_tool_list, reconnect_failure_message, McpCallToolResult, McpClientConfig,
    McpConnectionState, McpContent, McpRegistryError, McpRegistryState, McpServerConfig, McpTool,
    McpTransportKind, DEFAULT_CLIENT_NAME, DEFAULT_PROTOCOL_VERSION, DEFAULT_RECONNECT_DELAY,
    DEFAULT_REQUEST_TIMEOUT, MAX_RECONNECT_DELAY,
};

fn to_json(v: &serde_json::Value) -> JsonValue {
    match v {
        serde_json::Value::Null => JsonValue::Null,
        serde_json::Value::Bool(b) => JsonValue::Bool(*b),
        serde_json::Value::Number(n) => JsonValue::Number(n.as_i64()),
        serde_json::Value::String(s) => JsonValue::Str(s.clone()),
        serde_json::Value::Array(a) => JsonValue::Array(a.iter().map(to_json).collect()),
        serde_json::Value::Object(m) => {
            JsonValue::Object(m.iter().map(|(k, x)| (k.clone(), to_json(x))).collect())
        }
    }
}

fn decode(text: &str) -> Option<JsonValue> {
    serde_json::from_str::<serde_json::Value>(text).ok().map(|v| to_json(&v))
}

/// Loads a configuration text.
fn load(reg: &mut McpRegistryState, text: &str) -> McpRegistryError {
    reg.load_json_config(text)
}

fn config_of(reg: &McpRegistryState, name: &str) -> McpServerConfig {
    reg.servers.iter().find(|(n, _)| n == name).unwrap().1.clone()
}

#[test]
fn test_mcp_call_tool_result_defaults() {
    let r = McpCallToolResult::default();
    assert!(r.content.is_empty());
    assert!(!r.is_error);
}

#[test]
fn test_mcp_tool_defaults() {
    let t = McpTool::default();
    assert!(t.name.is_empty());
    assert!(t.description.is_empty());
}

#[test]
fn test_mcp_client_config_defaults() {
    let config = McpClientConfig::default();
    assert_eq!(config.transport, McpTransportKind::Stdio);
    assert!(config.command.is_empty());
    assert_eq!(config.request_timeout_ms, DEFAULT_REQUEST_TIMEOUT);
    assert_eq!(config.protocol_version, DEFAULT_PROTOCOL_VERSION);
    assert_eq!(config.client_name, DEFAULT_CLIENT_NAME);
}

#[test]
fn test_mcp_client_config_debug_redacts_token() {
    let config = McpClientConfig {
        auth_token: "secret".to_string(),
        ..Default::default()
    };
    let debug = config.debug_text();
    assert!(debug.contains("***"));
    assert!(!debug.contains("secret"));
}

#[test]
fn test_mcp_connection_state_variants_distinct() {
    let states = vec![
        McpConnectionState::Disconnected,
        McpConnectionState::Connecting,
        McpConnectionState::Connected,
        McpConnectionState::Reconnecting,
        McpConnectionState::Error,
    ];
    for i in 0..states.len() {
        for j in (i + 1)..states.len() {
            assert_ne!(states[i], states[j], "{:?} == {:?}", states[i], states[j]);
        }
    }
}

#[test]
fn test_mcp_content_fields() {
    let content = McpContent {
        kind: "text".to_string(),
        text: "hello".to_string(),
        data: String::new(),
        mime_type: String::new(),
    };
    assert_eq!(content.kind, "text");
    assert_eq!(content.text, "hello");
}

#[test]
fn test_mcp_call_tool_result_multiple_content() {
    let result = McpCallToolResult {
        content: vec![
            McpContent {
                kind: "text".to_string(),
                text: "first".to_string(),
                ..Default::default()
            },
            McpContent {
                kind: "text".to_string(),
                text: "second".to_string(),
                ..Default::default()
            },
        ],
        is_error: false,
    };
    assert_eq!(result.content.len(), 2);
    assert_eq!(result.content[0].text, "first");
    assert_eq!(result.content[1].text, "second");
}

#[test]
fn test_server_config_default() {
    let cfg = McpServerConfig::default();
    assert_eq!(cfg.transport, McpTransportKind::Stdio);
    assert!(cfg.command.is_empty());
    assert!(cfg.enabled);
}

#[test]
fn test_mcp_registry_error_variants() {
    assert_ne!(McpRegistryError::Success, McpRegistryError::ServerNotFound);
    assert_ne!(McpRegistryError::Success, McpRegistryError::ServerDisabled);
    assert_ne!(McpRegistryError::Success, McpRegistryError::NotConnected);
    assert_ne!(McpRegistryError::Success, McpRegistryError::ConfigError);
    assert_ne!(McpRegistryError::ServerNotFound, McpRegistryError::ServerDisabled);
    assert_ne!(McpRegistryError::ServerNotFound, McpRegistryError::NotConnected);
    assert_ne!(McpRegistryError::ServerNotFound, McpRegistryError::ConfigError);
    assert_ne!(McpRegistryError::ServerDisabled, McpRegistryError::NotConnected);
    assert_ne!(McpRegistryError::ServerDisabled, McpRegistryError::ConfigError);
    assert_ne!(McpRegistryError::NotConnected, McpRegistryError::ConfigError);
}

#[test]
fn test_empty_registry_returns_empty_vec() {
    let reg = McpRegistryState::new();
    assert!(reg.server_names().is_empty());
}

// ---- the registry's configuration, as its callers drive it ----

#[test]
fn test_load_json_config_after_destroy() {
    let mut reg = McpRegistryState::new();
    reg.destroy();
    assert_eq!(
        load(&mut reg, r#"{"servers": {"srv": {"command": "/bin/echo"}}}"#),
        McpRegistryError::ConfigError
    );
}

#[test]
fn test_get_last_error_after_destroy() {
    let mut reg = McpRegistryState::new();
    reg.destroy();
    assert_eq!(reg.last_error(), "null registry");
}

#[test]
fn test_server_names_after_destroy() {
    let mut reg = McpRegistryState::new();
    load(&mut reg, r#"{"servers": {"srv": {"command": "/bin/echo"}}}"#);
    reg.destroy();
    assert!(reg.server_names().is_empty());
}

#[test]
fn test_get_client_after_destroy_idempotent() {
    let mut reg = McpRegistryState::new();
    reg.destroy();
    reg.destroy();
    assert!(reg.lookup("x").is_none());
}

#[test]
fn test_valid_json_with_stdio_server() {
    let mut reg = McpRegistryState::new();
    let json_str = r#"{"servers": {"my-server": {"transport": "stdio", "command": "/path/to/server", "args": ["--flag"]}}}"#;
    assert_eq!(load(&mut reg, json_str), McpRegistryError::Success);
    assert_eq!(reg.server_names(), vec!["my-server"]);
}

#[test]
fn test_valid_json_with_http_server() {
    let mut reg = McpRegistryState::new();
    let json_str = r#"{"servers": {"http-server": {"transport": "http", "url": "https://example.com/mcp", "authToken": "token123"}}}"#;
    assert_eq!(load(&mut reg, json_str), McpRegistryError::Success);
    assert_eq!(reg.server_names(), vec!["http-server"]);
    let cfg = config_of(&reg, "http-server");
    assert_eq!(cfg.transport, McpTransportKind::Http);
    assert_eq!(cfg.server_url, "https://example.com/mcp");
    assert_eq!(cfg.auth_token, "token123");
}

#[test]
fn test_valid_json_with_both() {
    let mut reg = McpRegistryState::new();
    let json_str = r#"{"servers": {"stdio-srv": {"transport": "stdio", "command": "/bin/echo"}, "http-srv": {"transport": "http", "url": "https://example.com/mcp"}}}"#;
    assert_eq!(load(&mut reg, json_str), McpRegistryError::Success);
    let names = reg.server_names();
    assert_eq!(names.len(), 2);
    assert!(names.contains(&"stdio-srv".to_string()));
    assert!(names.contains(&"http-srv".to_string()));
}

#[test]
fn test_invalid_json_string() {
    let mut reg = McpRegistryState::new();
    assert_eq!(load(&mut reg, "{invalid"), McpRegistryError::ConfigError);
    assert!(!reg.last_error().is_empty());
    assert!(reg.last_error().starts_with("invalid JSON: "));
}

#[test]
fn test_missing_servers_field() {
    let mut reg = McpRegistryState::new();
    assert_eq!(load(&mut reg, r#"{"other": {}}"#), McpRegistryError::ConfigError);
    assert!(reg.last_error().contains("servers"));
}

#[test]
fn test_stdio_missing_command() {
    let mut reg = McpRegistryState::new();
    let json_str = r#"{"servers": {"no-cmd": {"transport": "stdio"}}}"#;
    assert_eq!(load(&mut reg, json_str), McpRegistryError::ConfigError);
    assert!(reg.last_error().contains("command"));
}

#[test]
fn test_http_missing_url() {
    let mut reg = McpRegistryState::new();
    let json_str = r#"{"servers": {"no-url": {"transport": "http"}}}"#;
    assert_eq!(load(&mut reg, json_str), McpRegistryError::ConfigError);
    assert!(reg.last_error().contains("url"));
}

#[test]
fn test_unknown_transport_value() {
    let mut reg = McpRegistryState::new();
    let json_str = r#"{"servers": {"bad": {"transport": "ws"}}}"#;
    assert_eq!(load(&mut reg, json_str), McpRegistryError::ConfigError);
    assert!(reg.last_error().contains("transport"));
    assert_eq!(reg.last_error(), "unknown transport 'ws' for server 'bad'");
}

#[test]
fn test_empty_server_name() {
    let mut reg = McpRegistryState::new();
    let json_str = r#"{"servers": {"": {"transport": "stdio", "command": "/bin/echo"}}}"#;
    assert_eq!(load(&mut reg, json_str), McpRegistryError::ConfigError);
    assert!(reg.last_error().contains("empty server"));
}

#[test]
fn test_enabled_false_parsed_correctly() {
    let mut reg = McpRegistryState::new();
    let json_str = r#"{"servers": {"disabled-srv": {"transport": "stdio", "command": "/bin/echo", "enabled": false}}}"#;
    assert_eq!(load(&mut reg, json_str), McpRegistryError::Success);
    assert!(!config_of(&reg, "disabled-srv").enabled);
}

#[test]
fn test_enabled_defaults_to_true() {
    let mut reg = McpRegistryState::new();
    let json_str = r#"{"servers": {"default-srv": {"transport": "stdio", "command": "/bin/echo"}}}"#;
    assert_eq!(load(&mut reg, json_str), McpRegistryError::Success);
    assert!(config_of(&reg, "default-srv").enabled);
}

#[test]
fn test_get_server_names_returns_correct_list() {
    let mut reg = McpRegistryState::new();
    let json_str = r#"{"servers": {"c": {"command": "/bin/c"}, "a": {"command": "/bin/a"}, "b": {"command": "/bin/b"}}}"#;
    assert_eq!(load(&mut reg, json_str), McpRegistryError::Success);
    assert_eq!(reg.server_names(), vec!["a", "b", "c"]);
}

#[test]
fn test_unknown_server_returns_none() {
    let mut reg = McpRegistryState::new();
    let json_str = r#"{"servers": {"known": {"command": "/bin/echo"}}}"#;
    assert_eq!(load(&mut reg, json_str), McpRegistryError::Success);
    assert!(reg.lookup("unknown").is_none());
    assert_eq!(reg.last_error(), "server 'unknown' not found");
}

#[test]
fn test_disabled_server_returns_none() {
    let mut reg = McpRegistryState::new();
    let json_str = r#"{"servers": {"disabled-srv": {"command": "/bin/echo", "enabled": false}}}"#;
    assert_eq!(load(&mut reg, json_str), McpRegistryError::Success);
    assert!(reg.lookup("disabled-srv").is_none());
    assert!(reg.last_error().contains("disabled"));
}

#[test]
fn test_lookup_enabled_server_gives_its_config() {
    let mut reg = McpRegistryState::new();
    let json_str = r#"{"servers": {"srv": {"command": "/bin/echo", "args": ["-n", 3]}}}"#;
    assert_eq!(load(&mut reg, json_str), McpRegistryError::Success);
    let cfg = reg.lookup("srv").unwrap();
    assert_eq!(cfg.command, "/bin/echo");
    assert_eq!(cfg.args, vec!["-n".to_string(), String::new()]);
    assert_eq!(reg.last_error(), "");
}

#[test]
fn test_load_json_config_with_args() {
    let mut reg = McpRegistryState::new();
    let json_str = r#"{"servers": {"srv": {"command": "/bin/echo", "args": ["--flag", "--port", "8080"]}}}"#;
    assert_eq!(load(&mut reg, json_str), McpRegistryError::Success);
    assert_eq!(config_of(&reg, "srv").args, vec!["--flag", "--port", "8080"]);
}

#[test]
fn test_load_json_config_with_auth_token() {
    let mut reg = McpRegistryState::new();
    let json_str = r#"{"servers": {"srv": {"command": "/bin/echo", "authToken": "secret"}}}"#;
    assert_eq!(load(&mut reg, json_str), McpRegistryError::Success);
    assert_eq!(config_of(&reg, "srv").auth_token, "secret");
}

#[test]
fn test_load_json_config_reload() {
    let mut reg = McpRegistryState::new();
    let json_a = r#"{"servers": {"srvA": {"command": "/bin/echo"}}}"#;
    assert_eq!(load(&mut reg, json_a), McpRegistryError::Success);
    let json_b = r#"{"servers": {"srvB": {"command": "/bin/echo"}}}"#;
    assert_eq!(load(&mut reg, json_b), McpRegistryError::Success);
    let names = reg.server_names();
    assert!(names.contains(&"srvA".to_string()));
    assert!(names.contains(&"srvB".to_string()));
}

#[test]
fn test_reload_replaces_an_entry_of_the_same_name() {
    let mut reg = McpRegistryState::new();
    load(&mut reg, r#"{"servers": {"s": {"command": "/bin/a"}}}"#);
    load(&mut reg, r#"{"servers": {"s": {"command": "/bin/b"}}}"#);
    assert_eq!(reg.server_names(), vec!["s"]);
    assert_eq!(config_of(&reg, "s").command, "/bin/b");
}

#[test]
fn test_refused_entry_keeps_the_ones_before_it() {
    let mut reg = McpRegistryState::new();
    // members are read in key order: "a" is kept, "b" is refused
    let json_str = r#"{"servers": {"a": {"command": "/bin/a"}, "b": {"transport": "http"}}}"#;
    assert_eq!(load(&mut reg, json_str), McpRegistryError::ConfigError);
    assert_eq!(reg.server_names(), vec!["a"]);
    assert_eq!(reg.last_error(), "http server 'b' missing 'url'");
}

// ---- client settings and replies ----

#[test]
fn test_normalized_fills_zero_limits() {
    let config = McpClientConfig {
        request_timeout_ms: 0,
        reconnect_delay_ms: 0,
        max_reconnect: 0,
        client_name: String::new(),
        ping_interval_sec: 7,
        ..Default::default()
    };
    let n = config.normalized();
    assert_eq!(n.request_timeout_ms, DEFAULT_REQUEST_TIMEOUT);
    assert_eq!(n.reconnect_delay_ms, DEFAULT_RECONNECT_DELAY);
    assert_eq!(n.max_reconnect, 3);
    assert_eq!(n.client_name, DEFAULT_CLIENT_NAME);
    assert_eq!(n.ping_interval_sec, 7);
}

#[test]
fn test_debug_text_without_token() {
    let config = McpClientConfig::default();
    let text = config.debug_text();
    assert!(text.contains("auth_token: \"\""));
    assert!(text.starts_with("McpClientConfig { transport: Stdio"));
    assert!(text.contains("request_timeout_ms: 30000"));
}

#[test]
fn test_reconnect_delay_doubles_up_to_the_cap() {
    assert_eq!(next_reconnect_delay(1000), 2000);
    assert_eq!(next_reconnect_delay(20000), 40000);
    assert_eq!(next_reconnect_delay(40000), MAX_RECONNECT_DELAY);
    assert_eq!(next_reconnect_delay(0), 0);
}

#[test]
fn test_reconnect_failure_message_text() {
    assert_eq!(reconnect_failure_message(3), "reconnect failed after 3 attempts");
}

#[test]
fn test_rpc_reply_result() {
    let reply = decode(r#"{"jsonrpc":"2.0","result":{"key":"value"},"id":1}"#);
    let r = interpret_rpc_reply(reply.as_ref(), 1).unwrap().unwrap();
    assert_eq!(r.get("key").and_then(|v| v.as_str()), Some("value"));
}

#[test]
fn test_rpc_reply_error_message() {
    let reply = decode(r#"{"jsonrpc":"2.0","error":{"code":-32601,"message":"Method not found"},"id":1}"#);
    assert_eq!(
        interpret_rpc_reply(reply.as_ref(), 1).unwrap_err(),
        "sendJsonRpc: Method not found"
    );
    let reply = decode(r#"{"error":{"code":1},"id":1}"#);
    assert_eq!(
        interpret_rpc_reply(reply.as_ref(), 1).unwrap_err(),
        "sendJsonRpc: unknown error"
    );
}

#[test]
fn test_rpc_reply_id_mismatch_and_invalid() {
    let reply = decode(r#"{"result":1,"id":2}"#);
    assert_eq!(
        interpret_rpc_reply(reply.as_ref(), 1).unwrap_err(),
        "sendJsonRpc: response id mismatch"
    );
    assert_eq!(
        interpret_rpc_reply(None, 1).unwrap_err(),
        "sendJsonRpc: invalid JSON response"
    );
    let reply = decode(r#"{"id":1}"#);
    assert!(interpret_rpc_reply(reply.as_ref(), 1).unwrap().is_none());
}

#[test]
fn test_http_rpc_failure_texts() {
    assert_eq!(http_rpc_failure(200, "timed out"), Some("sendJsonRpc: timed out".to_string()));
    assert_eq!(http_rpc_failure(500, ""), Some("sendJsonRpc: HTTP 500".to_string()));
    assert_eq!(http_rpc_failure(200, ""), None);
}

#[test]
fn test_read_call_tool_result_items() {
    let doc = decode(
        r#"{"content":[{"type":"text","text":"hi"},{"type":"image","data":"iVBORw0KGgo","mimeType":"image/png","text":"x"},{"type":"resource","text":"r"},{"type":"other","text":"y"}],"isError":true}"#,
    )
    .unwrap();
    let r = read_call_tool_result(&doc);
    assert!(r.is_error);
    assert_eq!(r.content.len(), 4);
    assert_eq!(r.content[0].text, "hi");
    assert_eq!(r.content[1].kind, "image");
    assert_eq!(r.content[1].data, "iVBORw0KGgo");
    assert_eq!(r.content[1].mime_type, "image/png");
    assert_eq!(r.content[1].text, "");
    assert_eq!(r.content[2].text, "r");
    assert_eq!(r.content[3].text, "");
    let empty = read_call_tool_result(&decode("{}").unwrap());
    assert!(empty.content.is_empty());
    assert!(!empty.is_error);
}

#[test]
fn test_read_tool_list_items() {
    let doc = decode(r#"{"tools":[{"name":"echo","description":"Echo back"},{"name":"add"}]}"#).unwrap();
    let tools = read_tool_list(&doc);
    assert_eq!(tools.len(), 2);
    assert_eq!(tools[0].name, "echo");
    assert_eq!(tools[0].description, "Echo back");
    assert_eq!(tools[1].name, "add");
    assert_eq!(tools[1].description, "");
}

#[test]
fn client_state_starts_disconnected_with_first_id() {
    let mut c = McpClientState::new();
    assert_eq!(c.state, McpConnectionState::Disconnected);
    assert!(c.last_error.is_empty());
    assert!(!c.initialized);
    assert_eq!(c.take_request_id(), 1);
    assert_eq!(c.take_request_id(), 2);
    assert_eq!(c.next_id, 3);
}

#[test]
fn client_state_request_while_disconnected_is_refused() {
    let mut c = McpClientState::new();
    assert!(!c.check_connected());
    assert_eq!(c.last_error, "client not connected");
    assert_eq!(c.state, McpConnectionState::Disconnected);
}

#[test]
fn client_state_handshake_outcomes() {
    let mut ok = McpClientState::new();
    ok.begin_connect();
    assert_eq!(ok.state, McpConnectionState::Connecting);
    assert!(ok.finish_handshake(true, true));
    assert!(ok.initialized);
    assert_eq!(ok.state, McpConnectionState::Connected);
    assert!(ok.check_connected());

    let mut no_notify = McpClientState::new();
    no_notify.begin_connect();
    assert!(!no_notify.finish_handshake(true, false));
    assert_eq!(no_notify.state, McpConnectionState::Error);
    assert_eq!(no_notify.last_error, "initialize: notification failed");
    assert!(!no_notify.initialized);

    let mut no_reply = McpClientState::new();
    no_reply.begin_connect();
    assert!(!no_reply.finish_handshake(false, true));
    assert_eq!(no_reply.state, McpConnectionState::Error);
    assert!(no_reply.last_error.is_empty());
}

#[test]
fn client_state_transport_failure_and_outcomes() {
    let mut c = McpClientState::new();
    c.transport_failed("spawn failed".to_string());
    assert_eq!(c.state, McpConnectionState::Error);
    assert_eq!(c.last_error, "spawn failed");
    let ok: Option<i32> = c.record_outcome(Ok(5));
    assert_eq!(ok, Some(5));
    assert_eq!(c.last_error, "spawn failed");
    let bad: Option<i32> = c.record_outcome(Err("timeout".to_string()));
    assert_eq!(bad, None);
    assert_eq!(c.last_error, "timeout");
}

#[test]
fn client_state_reconnect_defaults_and_failure() {
    let mut c = McpClientState::new();
    let mut config = McpClientConfig::default();
    config.reconnect_delay_ms = 0;
    config.max_reconnect = 0;
    assert_eq!(c.begin_reconnect(&config), (DEFAULT_RECONNECT_DELAY, 3));
    assert_eq!(c.state, McpConnectionState::Reconnecting);
    config.reconnect_delay_ms = 250;
    config.max_reconnect = 7;
    assert_eq!(c.begin_reconnect(&config), (250, 7));
    c.reconnect_failed(7);
    assert_eq!(c.state, McpConnectionState::Error);
    assert_eq!(c.last_error, "reconnect failed after 7 attempts");
}

#[test]
fn ping_interval_in_milliseconds() {
    let mut config = McpClientConfig::default();
    assert_eq!(ping_interval_ms(&config), 30000);
    config.ping_interval_sec = 0;
    assert_eq!(ping_interval_ms(&config), 30000);
    config.ping_interval_sec = 5;
    assert_eq!(ping_interval_ms(&config), 5000);
}

#[test]
fn read_failure_names_the_error() {
    assert_eq!(read_failure_message(TransportError::Timeout), "sendJsonRpc: read error: Timeout");
    assert_eq!(read_failure_message(TransportError::Eof), "sendJsonRpc: read error: Eof");
}

#[test]
fn handshake_and_call_parameters() {
    let config = McpClientConfig::default();
    let params = initialize_params(&config);
    let expected = JsonValue::Object(vec![
        ("protocolVersion".to_string(), JsonValue::Str("2024-11-05".to_string())),
        (
            "clientInfo".to_string(),
            JsonValue::Object(vec![
                ("name".to_string(), JsonValue::Str("crown-code".to_string())),
                ("version".to_string(), JsonValue::Str("0.1.0".to_string())),
            ]),
        ),
        ("capabilities".to_string(), JsonValue::Object(vec![])),
    ]);
    assert_eq!(format!("{:?}", params), format!("{:?}", expected));
    let call = call_tool_params("echo", JsonValue::Null);
    let expected = JsonValue::Object(vec![
        ("name".to_string(), JsonValue::Str("echo".to_string())),
        ("arguments".to_string(), JsonValue::Object(vec![])),
    ]);
    assert_eq!(format!("{:?}", call), format!("{:?}", expected));
    let call = call_tool_params("echo", decode(r#"{"x":1}"#).unwrap());
    let expected = JsonValue::Object(vec![
        ("name".to_string(), JsonValue::Str("echo".to_string())),
        ("arguments".to_string(), decode(r#"{"x":1}"#).unwrap()),
    ]);
    assert_eq!(format!("{:?}", call), format!("{:?}", expected));
}

#[test]
fn parse_response_decodes_a_reply_line() {
    let r = crown::mcp::parse_response(r#"{"jsonrpc":"2.0","result":{"key":"value"},"id":1}"#).unwrap();
    assert_eq!(r.get("id").and_then(|v| v.as_i64()), Some(1));
    assert!(crown::mcp::parse_response("{not json").is_err());
}

#[test]
fn http_401_asks_for_a_fresh_token_once() {
    assert!(matches!(first_reply_step(401, "", true), HttpReplyStep::RefreshToken));
    match first_reply_step(401, "", false) {
        HttpReplyStep::Fail(m) => assert_eq!(m, "sendJsonRpc: HTTP 401 (token rejected)"),
        other => panic!("unexpected step {:?}", other),
    }
    match first_reply_step(500, "", true) {
        HttpReplyStep::Fail(m) => assert_eq!(m, "sendJsonRpc: HTTP 500"),
        other => panic!("unexpected step {:?}", other),
    }
    assert!(matches!(first_reply_step(200, "", true), HttpReplyStep::ReadBody));
    assert!(matches!(refreshed_token_step(""), HttpReplyStep::Fail(_)));
    assert!(matches!(refreshed_token_step("tok"), HttpReplyStep::RefreshToken));
    assert!(matches!(retried_reply_step(200, ""), HttpReplyStep::ReadBody));
    match retried_reply_step(401, "") {
        HttpReplyStep::Fail(m) => assert_eq!(m, "sendJsonRpc: HTTP 401 (token rejected)"),
        other => panic!("unexpected step {:?}", other),
    }
}

#[test]
fn test_parse_response_valid_result() {
    let json_str = r#"{"jsonrpc":"2.0","result":{"key":"value"},"id":1}"#;
    let v = crown::mcp::parse_response(json_str).unwrap();
    assert_eq!(v.get("result").and_then(|r| r.get("key")).and_then(|k| k.as_str()), Some("value"));
    assert_eq!(v.get("id").and_then(|i| i.as_i64()), Some(1));
}

#[test]
fn test_parse_response_valid_error() {
    let json_str = r#"{"jsonrpc":"2.0","error":{"code":-32601,"message":"Method not found"},"id":1}"#;
    let v = crown::mcp::parse_response(json_str).unwrap();
    assert_eq!(v.get("error").and_then(|e| e.get("code")).and_then(|c| c.as_i64()), Some(-32601));
}

#[test]
fn test_parse_response_empty_object() {
    let v = crown::mcp::parse_response("{}").unwrap();
    assert!(matches!(v, JsonValue::Object(ref m) if m.is_empty()));
}

#[test]
fn test_parse_response_empty_array() {
    let v = crown::mcp::parse_response("[]").unwrap();
    assert!(v.as_array().unwrap().is_empty());
}

#[test]
fn test_parse_response_empty_string_fails() {
    let result = crown::mcp::parse_response("");
    assert!(result.is_err());
}

#[test]
fn test_parse_response_invalid_json_fails() {
    let result = crown::mcp::parse_response("not json");
    assert!(result.is_err());
}
