use crown::api_types::{ApiStreamChunk, Message, MessageRole, ToolCall};
use crown::tools::Tool;
use crown::json::JsonValue;
use crown::openai::{build_chat_request, chat_endpoint, chat_response_from_http, parse_chat_response, parse_stream_event, StreamAccumulator};
use crown::sse::SseParser;

fn to_json(v: &serde_json::Value) -> JsonValue {
    match v {
        serde_json::Value::Null => JsonValue::Null,
        serde_json::Value::Bool(b) => JsonValue::Bool(*b),
        serde_json::Value::Number(n) => JsonValue::Number(n.as_i64()),
        serde_json::Value::String(s) => JsonValue::Str(s.clone()),
        serde_json::Value::Array(a) => JsonValue::Array(a.iter().map(to_json).collect()),
        serde_json::Value::Object(m) => {
            JsonValue::Object(m.iter().map(|(k, x)| (k.clone(), to_json(x))).collect())
        }
    }
}

fn decode(text: &str) -> Option<JsonValue> {
    serde_json::from_str::<serde_json::Value>(text).ok().map(|v| to_json(&v))
}

fn parse_body(body: &str) -> crown::api_types::ApiResponse {
    parse_chat_response(body)
}

fn parse_event(data: &str) -> Vec<ApiStreamChunk> {
    parse_stream_event(data)
}

fn sse_chunk(data: &str) -> String {
    format!("data: {}\n\n", data)
}

/// Feeds streamed text through the parser and the accumulator, as the
/// streaming client does, and returns the assembled tool calls.
fn assemble(sse: &str) -> Vec<ToolCall> {
    let mut parser = SseParser::new();
    let mut acc = StreamAccumulator::new();
    for evt in parser.feed(sse) {
        for chunk in parse_event(&evt.data) {
            let (_, stop) = acc.accept(chunk);
            if stop {
                break;
            }
        }
    }
    acc.finish().tool_calls
}

#[test]
fn test_parse_chat_response_normal() {
    let body = r#"{"id":"chat-1","choices":[{"index":0,"message":{"role":"assistant","content":"Hello!"},"finish_reason":"stop"}],"usage":{"prompt_tokens":10,"completion_tokens":5}}"#;
    let resp = parse_body(body);
    assert_eq!(resp.content, "Hello!");
    assert_eq!(resp.finish_reason, "stop");
    assert_eq!(resp.usage.input_tokens, 10);
    assert_eq!(resp.usage.output_tokens, 5);
    assert_eq!(resp.error.code, 0);
}

#[test]
fn test_parse_chat_response_with_tool_calls() {
    let body = r#"{"id":"chat-2","choices":[{"index":0,"message":{"role":"assistant","content":null,"tool_calls":[{"id":"call_1","type":"function","function":{"name":"read_file","arguments":"{\"path\":\"test.txt\"}"}}]},"finish_reason":"tool_calls"}],"usage":{"prompt_tokens":20,"completion_tokens":10}}"#;
    let resp = parse_body(body);
    assert!(resp.content.is_empty());
    assert_eq!(resp.finish_reason, "tool_calls");
    assert_eq!(resp.tool_calls.len(), 1);
    assert_eq!(resp.tool_calls[0].id, "call_1");
    assert_eq!(resp.tool_calls[0].function_name, "read_file");
    assert_eq!(resp.tool_calls[0].arguments, "{\"path\":\"test.txt\"}");
    assert_eq!(resp.usage.input_tokens, 20);
}

#[test]
fn test_parse_chat_response_error_401() {
    let body = r#"{"error":{"code":401,"message":"Invalid API key"}}"#;
    let resp = parse_body(body);
    assert_eq!(resp.error.code, 401);
    assert_eq!(resp.error.message, "Invalid API key");
}

#[test]
fn test_parse_chat_response_error_400() {
    let body = r#"{"error":{"code":400,"message":"Bad request"}}"#;
    let resp = parse_body(body);
    assert_eq!(resp.error.code, 400);
}

#[test]
fn test_parse_chat_response_error_429() {
    let body = r#"{"error":{"code":429,"message":"Rate limit exceeded"}}"#;
    let resp = parse_body(body);
    assert_eq!(resp.error.code, 429);
}

#[test]
fn test_parse_chat_response_empty_choices() {
    let body = r#"{"id":"chat-3","choices":[],"usage":{"prompt_tokens":5,"completion_tokens":0}}"#;
    let resp = parse_body(body);
    assert_eq!(resp.error.code, 0);
    assert!(resp.content.is_empty());
    assert_eq!(resp.usage.input_tokens, 5);
}

#[test]
fn test_parse_chat_response_invalid_json() {
    let resp = parse_body("not json");
    assert_eq!(resp.error.code, 0);
    assert_eq!(resp.error.message, "invalid JSON response");
}

#[test]
fn test_parse_stream_event_plain_text_delta() {
    let data = r#"{"id":"1","object":"chat.completion.chunk","choices":[{"index":0,"delta":{"content":"Hello"},"finish_reason":null}]}"#;
    let chunks = parse_event(data);
    assert_eq!(chunks.len(), 1);
    assert!(matches!(&chunks[0], ApiStreamChunk::Text(t) if t == "Hello"));
}

#[test]
fn test_parse_stream_event_text_delta_with_null_content() {
    let data = r#"{"id":"1","choices":[{"index":0,"delta":{"content":null},"finish_reason":null}]}"#;
    let chunks = parse_event(data);
    assert_eq!(chunks.len(), 1);
    assert!(matches!(&chunks[0], ApiStreamChunk::Text(t) if t.is_empty()));
}

#[test]
fn test_parse_stream_event_tool_call_delta_with_id_and_name() {
    let data = r#"{"id":"gen-1","choices":[{"index":0,"delta":{"tool_calls":[{"index":0,"id":"call_1","type":"function","function":{"name":"read_file","arguments":""}}]},"finish_reason":null}]}"#;
    let chunks = parse_event(data);
    assert_eq!(chunks.len(), 1);
    assert!(matches!(&chunks[0], ApiStreamChunk::ToolCall(tc) if tc.id == "call_1" && tc.function_name == "read_file"));
}

#[test]
fn test_parse_stream_event_tool_call_delta_with_arguments_only() {
    let data = r#"{"id":"gen-1","choices":[{"index":0,"delta":{"tool_calls":[{"index":0,"function":{"arguments":"{\"path\": \"test.txt\"}"}}]},"finish_reason":null}]}"#;
    let chunks = parse_event(data);
    assert_eq!(chunks.len(), 1);
    assert!(matches!(&chunks[0], ApiStreamChunk::ToolCall(tc) if tc.tc_index == 0 && tc.arguments == "{\"path\": \"test.txt\"}"));
}

#[test]
fn test_parse_stream_event_reasoning_content_delta() {
    let data = r#"{"id":"1","choices":[{"index":0,"delta":{"reasoning_content":"thinking step"},"finish_reason":null}]}"#;
    let chunks = parse_event(data);
    assert_eq!(chunks.len(), 1);
    assert!(matches!(&chunks[0], ApiStreamChunk::Reasoning(r) if r == "thinking step"));
}

#[test]
fn test_parse_stream_event_usage_chunk() {
    let data = r#"{"usage":{"prompt_tokens":10,"completion_tokens":5}}"#;
    let chunks = parse_event(data);
    assert_eq!(chunks.len(), 1);
    assert!(matches!(&chunks[0], ApiStreamChunk::Usage { input_tokens: 10, output_tokens: 5 }));
}

#[test]
fn test_parse_stream_event_usage_chunk_partial() {
    let data = r#"{"usage":{"prompt_tokens":10}}"#;
    let chunks = parse_event(data);
    assert_eq!(chunks.len(), 1);
    assert!(matches!(&chunks[0], ApiStreamChunk::Usage { input_tokens: 10, output_tokens: 0 }));
}

#[test]
fn test_parse_stream_event_done_marker() {
    let chunks = parse_event("[DONE]");
    assert_eq!(chunks.len(), 1);
    assert!(matches!(chunks[0], ApiStreamChunk::Done));
}

#[test]
fn test_parse_stream_event_error_response() {
    let data = r#"{"error":{"code":401,"message":"Invalid API key"}}"#;
    let chunks = parse_event(data);
    assert_eq!(chunks.len(), 1);
    assert!(matches!(&chunks[0], ApiStreamChunk::Text(t) if t.is_empty()));
}

#[test]
fn test_parse_stream_event_empty_delta_with_only_finish_reason() {
    let data = r#"{"id":"1","choices":[{"index":0,"delta":{},"finish_reason":"stop"}]}"#;
    let chunks = parse_event(data);
    assert_eq!(chunks.len(), 1);
    assert!(matches!(&chunks[0], ApiStreamChunk::Text(t) if t.is_empty()));
}

#[test]
fn test_parse_stream_event_multiple_tool_calls() {
    let data = r#"{"id":"1","choices":[{"index":0,"delta":{"tool_calls":[{"index":0,"id":"call_1","function":{"name":"fn1","arguments":""}},{"index":1,"id":"call_2","function":{"name":"fn2","arguments":""}}]},"finish_reason":null}]}"#;
    let chunks = parse_event(data);
    assert_eq!(chunks.len(), 2);
    assert!(matches!(&chunks[0], ApiStreamChunk::ToolCall(tc) if tc.function_name == "fn1"));
    assert!(matches!(&chunks[1], ApiStreamChunk::ToolCall(tc) if tc.function_name == "fn2"));
}

#[test]
fn test_parse_stream_event_json_parse_error_returns_empty_text() {
    let chunks = parse_event("not valid json at all");
    assert_eq!(chunks.len(), 1);
    assert!(matches!(&chunks[0], ApiStreamChunk::Text(t) if t.is_empty()));
}

#[test]
fn test_sse_parser_ignores_comments() {
    let sse_text = ": OPENROUTER PROCESSING\n\ndata: {\"id\":\"1\",\"choices\":[{\"index\":0,\"delta\":{\"content\":\"Hi\"},\"finish_reason\":null}]}\n\n";
    let mut parser = SseParser::new();
    let events = parser.feed(sse_text);
    assert_eq!(events.len(), 1);
    assert_eq!(
        events[0].data,
        r#"{"id":"1","choices":[{"index":0,"delta":{"content":"Hi"},"finish_reason":null}]}"#
    );
}

#[test]
fn test_tool_call_delta_accumulation_single_tool_cross_chunk() {
    let sse = sse_chunk(r#"{"id":"1","choices":[{"index":0,"delta":{"tool_calls":[{"index":0,"id":"call_1","type":"function","function":{"name":"read_file","arguments":""}}]},"finish_reason":null}]}"#) +
              &sse_chunk(r#"{"id":"1","choices":[{"index":0,"delta":{"tool_calls":[{"index":0,"function":{"arguments":"{\"path\": "}}]},"finish_reason":null}]}"#) +
              &sse_chunk(r#"{"id":"1","choices":[{"index":0,"delta":{"tool_calls":[{"index":0,"function":{"arguments":"\"test.txt\"}"}}]},"finish_reason":null}]}"#);
    let tool_calls = assemble(&sse);
    assert_eq!(tool_calls.len(), 1);
    let tc = &tool_calls[0];
    assert_eq!(tc.id, "call_1");
    assert_eq!(tc.function_name, "read_file");
    assert_eq!(tc.arguments, "{\"path\": \"test.txt\"}");
}

#[test]
fn test_tool_call_delta_accumulation_multi_tool_parallel() {
    let sse = sse_chunk(r#"{"id":"1","choices":[{"index":0,"delta":{"tool_calls":[{"index":0,"id":"call_1","type":"function","function":{"name":"fn1","arguments":""}},{"index":1,"id":"call_2","type":"function","function":{"name":"fn2","arguments":""}}]},"finish_reason":null}]}"#) +
              &sse_chunk(r#"{"id":"1","choices":[{"index":0,"delta":{"tool_calls":[{"index":0,"function":{"arguments":"{\"a\":1}"}}]},"finish_reason":null}]}"#) +
              &sse_chunk(r#"{"id":"1","choices":[{"index":0,"delta":{"tool_calls":[{"index":1,"function":{"arguments":"{\"b\":2}"}}]},"finish_reason":null}]}"#);
    let tool_calls = assemble(&sse);
    assert_eq!(tool_calls.len(), 2);
    assert_eq!(tool_calls[0].id, "call_1");
    assert_eq!(tool_calls[0].function_name, "fn1");
    assert_eq!(tool_calls[0].arguments, "{\"a\":1}");
    assert_eq!(tool_calls[1].id, "call_2");
    assert_eq!(tool_calls[1].function_name, "fn2");
    assert_eq!(tool_calls[1].arguments, "{\"b\":2}");
}

#[test]
fn accumulator_orders_calls_by_index_and_drops_negative() {
    let mut acc = StreamAccumulator::new();
    for idx in [3, -1, 1] {
        let tc = ToolCall { id: format!("c{}", idx), function_name: String::new(), arguments: "x".to_string(), tc_index: idx };
        let (emitted, stop) = acc.accept(ApiStreamChunk::ToolCall(tc));
        assert!(!stop);
        assert!(matches!(emitted, ApiStreamChunk::ToolCall(ref t) if t.tc_index == idx));
    }
    let (_, stop) = acc.accept(ApiStreamChunk::Text("hi".to_string()));
    assert!(!stop);
    let (_, stop) = acc.accept(ApiStreamChunk::Usage { input_tokens: 7, output_tokens: 0 });
    assert!(!stop);
    let (_, stop) = acc.accept(ApiStreamChunk::Done);
    assert!(stop);
    let r = acc.finish();
    let ids: Vec<&str> = r.tool_calls.iter().map(|t| t.id.as_str()).collect();
    assert_eq!(ids, vec!["c1", "c3"]);
    assert_eq!(r.content, "hi");
    assert_eq!(r.usage.input_tokens, 7);
    assert_eq!(r.usage.output_tokens, 0);
}

#[test]
fn endpoint_gets_completions_path_once() {
    assert_eq!(chat_endpoint("https://openrouter.ai/api/v1"), "https://openrouter.ai/api/v1/chat/completions");
    assert_eq!(chat_endpoint("http://h/v1/chat/completions"), "http://h/v1/chat/completions");
}

#[test]
fn http_outcome_maps_to_response() {
    let r = chat_response_from_http(0, "connection refused", "");
    assert_eq!(r.error.code, 0);
    assert_eq!(r.error.message, "connection refused");
    let r = chat_response_from_http(500, "", "oops");
    assert_eq!(r.error.code, 500);
    assert_eq!(r.error.message, "oops");
    let body = r#"{"choices":[{"message":{"content":"ok"},"finish_reason":"stop"}]}"#;
    let r = chat_response_from_http(200, "", body);
    assert_eq!(r.content, "ok");
    assert_eq!(r.finish_reason, "stop");
}

#[test]
fn no_choices_without_usage_is_an_error() {
    let r = parse_body(r#"{"choices":[]}"#);
    assert_eq!(r.error.message, "no choices in response");
    let r = parse_body(r#"{"usage":{"prompt_tokens":3}}"#);
    assert_eq!(r.error.message, "");
    assert_eq!(r.usage.input_tokens, 3);
}

fn user_msg(content: &str) -> Message {
    Message { role: MessageRole::User, content: content.to_string(), tool_calls: Vec::new(), tool_call_id: String::new(), name: String::new() }
}

fn field<'a>(v: &'a JsonValue, key: &str) -> &'a JsonValue {
    v.get(key).unwrap()
}

fn at(v: &JsonValue, i: usize) -> &JsonValue {
    &v.as_array().unwrap()[i]
}

#[test]
fn test_basic_request_structure() {
    let req = build_chat_request("test-model", 0, &vec![user_msg("hi")], vec![]);
    assert_eq!(field(&req, "model").as_str(), Some("test-model"));
    assert!(!field(&req, "stream").as_bool().unwrap());
    assert_eq!(field(&req, "messages").as_array().unwrap().len(), 1);
    assert_eq!(field(at(field(&req, "messages"), 0), "role").as_str(), Some("user"));
    assert_eq!(field(at(field(&req, "messages"), 0), "content").as_str(), Some("hi"));
}

#[test]
fn test_multiple_messages() {
    let msgs = vec![
        Message { role: MessageRole::System, content: "you are a bot".to_string(), tool_calls: Vec::new(), tool_call_id: String::new(), name: String::new() },
        user_msg("hello"),
    ];
    let req = build_chat_request("test-model", 0, &msgs, vec![]);
    assert_eq!(field(&req, "messages").as_array().unwrap().len(), 2);
    assert_eq!(field(at(field(&req, "messages"), 0), "role").as_str(), Some("system"));
    assert_eq!(field(at(field(&req, "messages"), 1), "role").as_str(), Some("user"));
}

#[test]
fn test_temperature_and_max_tokens_when_set() {
    let req = build_chat_request("m", 2048, &vec![user_msg("hi")], vec![]);
    assert_eq!(field(&req, "max_tokens").as_i64().unwrap(), 2048);
}

#[test]
fn test_no_temperature_when_zero() {
    let req = build_chat_request("m", 0, &vec![user_msg("hi")], vec![]);
    assert!(req.get("temperature").is_none());
    assert!(req.get("max_tokens").is_none());
}

#[test]
fn test_tools_included_when_non_empty() {
    let tools = vec![Tool { name: "fn1".to_string(), description: "desc".to_string(), parameters: decode(r#"{"type": "object"}"#).unwrap() }];
    let req = build_chat_request("m", 0, &vec![user_msg("hi")], tools);
    assert!(req.get("tools").is_some());
    assert_eq!(field(&req, "tools").as_array().unwrap().len(), 1);
    let t = at(field(&req, "tools"), 0);
    assert_eq!(field(t, "type").as_str(), Some("function"));
    assert_eq!(field(field(t, "function"), "name").as_str(), Some("fn1"));
    assert_eq!(field(field(t, "function"), "description").as_str(), Some("desc"));
    assert_eq!(field(field(field(t, "function"), "parameters"), "type").as_str(), Some("object"));
}

#[test]
fn test_no_tools_field_when_empty() {
    let req = build_chat_request("m", 0, &vec![user_msg("hi")], vec![]);
    assert!(req.get("tools").is_none());
}

#[test]
fn test_assistant_with_tool_calls_has_null_content() {
    let tc = ToolCall { id: "call_1".to_string(), function_name: "read_file".to_string(), arguments: "{}".to_string(), tc_index: 0 };
    let msgs = vec![Message { role: MessageRole::Assistant, content: String::new(), tool_calls: vec![tc], tool_call_id: String::new(), name: String::new() }];
    let req = build_chat_request("m", 0, &msgs, vec![]);
    let msg = at(field(&req, "messages"), 0);
    assert_eq!(field(msg, "role").as_str(), Some("assistant"));
    assert!(field(msg, "content").is_null());
    assert_eq!(field(msg, "tool_calls").as_array().unwrap().len(), 1);
    let call = at(field(msg, "tool_calls"), 0);
    assert_eq!(field(call, "id").as_str(), Some("call_1"));
    assert_eq!(field(call, "type").as_str(), Some("function"));
    assert_eq!(field(field(call, "function"), "name").as_str(), Some("read_file"));
    assert_eq!(field(field(call, "function"), "arguments").as_str(), Some("{}"));
}

#[test]
fn test_tool_message_includes_tool_call_id() {
    let msgs = vec![Message { role: MessageRole::Tool, content: "result".to_string(), tool_calls: Vec::new(), tool_call_id: "call_1".to_string(), name: "read_file".to_string() }];
    let req = build_chat_request("m", 0, &msgs, vec![]);
    let msg = at(field(&req, "messages"), 0);
    assert_eq!(field(msg, "role").as_str(), Some("tool"));
    assert_eq!(field(msg, "content").as_str(), Some("result"));
    assert_eq!(field(msg, "tool_call_id").as_str(), Some("call_1"));
    assert_eq!(field(msg, "name").as_str(), Some("read_file"));
}

#[test]
fn tool_message_without_name_has_no_name_member() {
    let msgs = vec![Message { role: MessageRole::Tool, content: "r".to_string(), tool_calls: Vec::new(), tool_call_id: "c".to_string(), name: String::new() }];
    let req = build_chat_request("m", 0, &msgs, vec![]);
    let msg = at(field(&req, "messages"), 0);
    assert!(msg.get("name").is_none());
    assert_eq!(field(msg, "tool_call_id").as_str(), Some("c"));
}

#[test]
fn test_basic_tool_with_parameters() {
    let params = decode(r#"{"type": "object", "properties": {"path": {"type": "string"}}, "required": ["path"]}"#).unwrap();
    let tool = Tool { name: "read_file".to_string(), description: "Read a file".to_string(), parameters: params };
    assert_eq!(tool.name, "read_file");
    assert_eq!(tool.description, "Read a file");
    assert_eq!(field(&tool.parameters, "type").as_str(), Some("object"));
    assert_eq!(at(field(&tool.parameters, "required"), 0).as_str(), Some("path"));
}

#[test]
fn test_tool_without_description() {
    let tool = Tool { name: "echo".to_string(), description: String::new(), parameters: decode(r#"{"type": "object"}"#).unwrap() };
    assert_eq!(tool.name, "echo");
    assert!(tool.description.is_empty());
}
