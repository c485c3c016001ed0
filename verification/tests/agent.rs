use crown::agent::{
    cancelled_event, invalid_arguments_reply, tool_arguments, stream_event, tool_call_started, AgentEvent,
    AgentEventHandler, AgentSession, ResponseStep,
};
use crown::api_types::{ApiError, ApiResponse, ApiStreamChunk, ApiUsage, MessageRole, ToolCall};

struct Recorder {
    texts: Vec<String>,
    errors: Vec<(i32, String)>,
    results: Vec<(String, String, bool)>,
}

impl AgentEventHandler for Recorder {
    fn on_assistant_text(&mut self, delta: &str) {
        self.texts.push(delta.to_string());
    }
    fn on_reasoning(&mut self, _delta: &str) {}
    fn on_tool_call_start(&mut self, _call_id: &str, _name: &str, _arguments: &str) {}
    fn on_tool_result(&mut self, call_id: &str, _name: &str, content: &str, is_error: bool) {
        self.results.push((call_id.to_string(), content.to_string(), is_error));
    }
    fn on_usage(&mut self, _i: i32, _o: i32, _c: i32) {}
    fn on_error(&mut self, code: i32, message: &str) {
        self.errors.push((code, message.to_string()));
    }
}

fn call(id: &str, name: &str, args: &str) -> ToolCall {
    ToolCall { id: id.to_string(), function_name: name.to_string(), arguments: args.to_string(), tc_index: 0 }
}

fn response(calls: Vec<ToolCall>, code: i32, message: &str) -> ApiResponse {
    ApiResponse {
        content: String::new(),
        tool_calls: calls,
        usage: ApiUsage::default(),
        error: ApiError { code, message: message.to_string() },
        finish_reason: String::new(),
    }
}

#[test]
fn test_agent_session_new_has_system_prompt() {
    let session = AgentSession::new("/tmp".to_string(), "You are Crown Code".to_string());
    assert_eq!(session.history_len(), 1);
    assert_eq!(session.history[0].role, MessageRole::System);
}

#[test]
fn test_agent_session_reset() {
    let mut session = AgentSession::new("/tmp".to_string(), "sys".to_string());
    session.begin_turn("hello");
    assert_eq!(session.history_len(), 2);
    session.reset("sys again".to_string());
    assert_eq!(session.history_len(), 1);
    assert_eq!(session.history[0].role, MessageRole::System);
    assert_eq!(session.history[0].content, "sys again");
}

#[test]
fn test_handle_user_message_pushes_to_history() {
    let mut session = AgentSession::new("/tmp".to_string(), "sys".to_string());
    session.begin_turn("test");
    assert_eq!(session.history_len(), 2);
    assert_eq!(session.history[1].role, MessageRole::User);
    assert_eq!(session.history[1].content, "test");
}

#[test]
fn test_handle_user_message_api_error_recorded() {
    let mut session = AgentSession::new("/tmp".to_string(), "sys".to_string());
    session.begin_turn("hello");
    let step = session.finish_response(&response(vec![], 500, "connection refused"), String::new(), false);
    let mut rec = Recorder { texts: vec![], errors: vec![], results: vec![] };
    match step {
        ResponseStep::Stop(Some(e)) => e.deliver(&mut rec),
        other => panic!("unexpected step {:?}", other),
    }
    assert_eq!(rec.errors, vec![(500, "connection refused".to_string())]);
    assert_eq!(session.history_len(), 2);
}

#[test]
fn test_cancelled_turn_is_not_recorded() {
    let mut session = AgentSession::new("/tmp".to_string(), "sys".to_string());
    session.begin_turn("hello");
    match session.finish_response(&response(vec![], 0, ""), "partial".to_string(), true) {
        ResponseStep::Stop(Some(AgentEvent::Error { code, message })) => {
            assert_eq!(code, 0);
            assert_eq!(message, "task cancelled");
        }
        other => panic!("unexpected step {:?}", other),
    }
    assert_eq!(session.history_len(), 2);
}

#[test]
fn test_answer_without_tools_ends_turn() {
    let mut session = AgentSession::new("/tmp".to_string(), "sys".to_string());
    session.begin_turn("hi");
    match session.finish_response(&response(vec![], 0, ""), "hello there".to_string(), false) {
        ResponseStep::Stop(None) => {}
        other => panic!("unexpected step {:?}", other),
    }
    assert_eq!(session.history_len(), 3);
    assert_eq!(session.history[2].role, MessageRole::Assistant);
    assert_eq!(session.history[2].content, "hello there");
}

#[test]
fn test_tool_calls_run_and_are_answered() {
    let mut session = AgentSession::new("/tmp".to_string(), "sys".to_string());
    session.begin_turn("list");
    let calls = vec![call("c1", "list_files", "{\"path\":\".\"}"), call("c2", "read_file", "{bad")];
    let step = session.finish_response(&response(calls, 0, ""), String::new(), false);
    let to_run = match step {
        ResponseStep::RunTools(v) => v,
        other => panic!("unexpected step {:?}", other),
    };
    assert_eq!(to_run.len(), 2);
    assert_eq!(session.history[2].tool_calls.len(), 2);
    match tool_call_started(&to_run[0]) {
        AgentEvent::ToolCallStart { call_id, name, arguments } => {
            assert_eq!(call_id, "c1");
            assert_eq!(name, "list_files");
            assert_eq!(arguments, "{\"path\":\".\"}");
        }
        other => panic!("unexpected event {:?}", other),
    }
    let mut rec = Recorder { texts: vec![], errors: vec![], results: vec![] };
    session.record_tool_result(&to_run[0], "  a.txt\n\n1 entries".to_string()).deliver(&mut rec);
    let bad = invalid_arguments_reply(&to_run[1]);
    assert_eq!(bad, "Error: tool call arguments are invalid JSON (truncated response?): {bad");
    session.record_tool_result(&to_run[1], bad).deliver(&mut rec);
    assert_eq!(rec.results[0], ("c1".to_string(), "  a.txt\n\n1 entries".to_string(), false));
    assert!(rec.results[1].2);
    assert_eq!(session.history_len(), 5);
    assert_eq!(session.history[3].role, MessageRole::Tool);
    assert_eq!(session.history[3].tool_call_id, "c1");
    assert_eq!(session.history[4].name, "read_file");
}

#[test]
fn test_stream_events() {
    let mut text = String::new();
    match stream_event(&ApiStreamChunk::Text("hel".to_string()), &mut text) {
        Some(AgentEvent::AssistantText(t)) => assert_eq!(t, "hel"),
        other => panic!("unexpected {:?}", other),
    }
    stream_event(&ApiStreamChunk::Text("lo".to_string()), &mut text);
    assert_eq!(text, "hello");
    match stream_event(&ApiStreamChunk::Usage { input_tokens: 3, output_tokens: 4 }, &mut text) {
        Some(AgentEvent::Usage { input_tokens, output_tokens, cache_read_tokens }) => {
            assert_eq!((input_tokens, output_tokens, cache_read_tokens), (3, 4, 0));
        }
        other => panic!("unexpected {:?}", other),
    }
    assert!(stream_event(&ApiStreamChunk::Done, &mut text).is_none());
    assert_eq!(text, "hello");
    match cancelled_event() {
        AgentEvent::Error { code, message } => assert_eq!((code, message.as_str()), (0, "task cancelled")),
        other => panic!("unexpected {:?}", other),
    }
}

#[test]
fn test_agent_session_new_with_custom_cwd() {
    let prompt = crown::prompt::build_system_prompt("/custom/path", "linux", &[]);
    let session = AgentSession::new("/custom/path".to_string(), prompt);
    assert!(session.history[0].content.contains("/custom/path"));
}

#[test]
fn tool_arguments_decode_or_refuse() {
    let good = ToolCall { id: "c1".to_string(), function_name: "read_file".to_string(), arguments: r#"{"path":"a.txt"}"#.to_string(), tc_index: 0 };
    match tool_arguments(&good) {
        Ok(v) => assert_eq!(v.get("path").and_then(|p| p.as_str()), Some("a.txt")),
        Err(e) => panic!("unexpected refusal: {}", e),
    }
    let bad = ToolCall { id: "c2".to_string(), function_name: "read_file".to_string(), arguments: r#"{"path":"#.to_string(), tc_index: 0 };
    match tool_arguments(&bad) {
        Ok(_) => panic!("truncated arguments were accepted"),
        Err(e) => assert_eq!(e, invalid_arguments_reply(&bad)),
    }
}
