use crown::app_state::{
    map_chat_key, map_input_key, AgentMode, AppEvent, AppState, FocusTarget, IpcError, KeyAction,
    KeyCode, KeyInput, KeyOutcome, SessionStatus, CONTROL, NO_MODIFIERS, SHIFT,
};
use crown::chat::HistoryEntry;
use crown::ipc::IpcTransportError;
use crown::json::JsonValue;

fn to_json(v: &serde_json::Value) -> JsonValue {
    match v {
        serde_json::Value::Null => JsonValue::Null,
        serde_json::Value::Bool(b) => JsonValue::Bool(*b),
        serde_json::Value::Number(n) => JsonValue::Number(n.as_i64()),
        serde_json::Value::String(s) => JsonValue::Str(s.clone()),
        serde_json::Value::Array(a) => JsonValue::Array(a.iter().map(to_json).collect()),
        serde_json::Value::Object(m) => {
            JsonValue::Object(m.iter().map(|(k, x)| (k.clone(), to_json(x))).collect())
        }
    }
}

fn make_test_app() -> AppState {
    AppState::new("test_session".into())
}

fn notification(app: &AppState, method: &str, params: &str) -> Option<AppEvent> {
    let p = to_json(&serde_json::from_str::<serde_json::Value>(params).unwrap());
    app.parse_ipc_event(true, Some(method), Some(&p))
}

fn key(modifiers: u8, code: KeyCode) -> KeyInput {
    KeyInput { code, modifiers, press: true }
}

#[test]
fn test_app_new_defaults() {
    let app = make_test_app();
    assert_eq!(app.session_id, Some("test_session".into()));
    assert_eq!(app.status, SessionStatus::Active);
    assert_eq!(app.agent_mode, AgentMode::Code);
    assert!(!app.should_quit);
    assert!(app.needs_redraw);
    assert_eq!(app.focus, FocusTarget::Input);
    assert_eq!(app.model, "");
}

#[test]
fn test_agent_mode_label() {
    assert_eq!(AgentMode::Plan.label(), "[Plan]");
    assert_eq!(AgentMode::Code.label(), "[Code]");
    assert_eq!(AgentMode::Ask.label(), "[Ask]");
}

#[test]
fn test_agent_mode_cycle() {
    assert_eq!(AgentMode::Plan.cycle(), AgentMode::Code);
    assert_eq!(AgentMode::Code.cycle(), AgentMode::Ask);
    assert_eq!(AgentMode::Ask.cycle(), AgentMode::Plan);
}

#[test]
fn test_avg_latency_empty() {
    let app = make_test_app();
    assert_eq!(app.avg_latency(), None);
}

#[test]
fn test_avg_latency_nonempty() {
    let mut app = make_test_app();
    app.api_latencies = vec![100, 200, 300];
    assert_eq!(app.avg_latency(), Some(200));
}

#[test]
fn test_parse_ipc_assistant_text() {
    let app = make_test_app();
    match notification(&app, "assistant_text", r#"{"session_id": "s1", "delta": "hello"}"#).unwrap() {
        AppEvent::AssistantDelta { delta } => assert_eq!(delta, "hello"),
        _ => panic!("wrong event type"),
    }
}

#[test]
fn test_parse_ipc_assistant_reasoning() {
    let app = make_test_app();
    match notification(&app, "assistant_reasoning", r#"{"delta": "thinking..."}"#).unwrap() {
        AppEvent::ReasoningDelta { delta } => assert_eq!(delta, "thinking..."),
        _ => panic!("wrong event type"),
    }
}

#[test]
fn test_parse_ipc_tool_call_start() {
    let app = make_test_app();
    match notification(&app, "tool_call_start", r#"{"call_id": "c1", "name": "read_file", "arguments": "/tmp/x"}"#).unwrap() {
        AppEvent::ToolCallStart { call_id, name, arguments } => {
            assert_eq!(call_id, "c1");
            assert_eq!(name, "read_file");
            assert_eq!(arguments, "/tmp/x");
        }
        _ => panic!("wrong event type"),
    }
}

#[test]
fn test_parse_ipc_tool_result() {
    let app = make_test_app();
    let params = r#"{"call_id": "c1", "name": "read_file", "content": "file data", "is_error": false}"#;
    match notification(&app, "tool_result", params).unwrap() {
        AppEvent::ToolResult { call_id, name, content, is_error } => {
            assert_eq!(call_id, "c1");
            assert_eq!(name, "read_file");
            assert_eq!(content, "file data");
            assert!(!is_error);
        }
        _ => panic!("wrong event type"),
    }
}

#[test]
fn test_parse_ipc_usage() {
    let app = make_test_app();
    match notification(&app, "usage", r#"{"input_tokens": 100, "output_tokens": 50, "cache_read_tokens": 30}"#).unwrap() {
        AppEvent::Usage { input_tokens, output_tokens, cache_read_tokens } => {
            assert_eq!(input_tokens, 100);
            assert_eq!(output_tokens, 50);
            assert_eq!(cache_read_tokens, 30);
        }
        _ => panic!("wrong event type"),
    }
}

#[test]
fn test_parse_ipc_task_done() {
    let app = make_test_app();
    match notification(&app, "task_done", r#"{"summary": "finished"}"#).unwrap() {
        AppEvent::TaskDone { summary } => assert_eq!(summary, "finished"),
        _ => panic!("wrong event type"),
    }
}

#[test]
fn test_parse_ipc_error() {
    let app = make_test_app();
    match notification(&app, "error", r#"{"code": 500, "message": "crash"}"#).unwrap() {
        AppEvent::Error { code, message } => {
            assert_eq!(code, 500);
            assert_eq!(message, "crash");
        }
        _ => panic!("wrong event type"),
    }
}

#[test]
fn test_parse_ipc_session_created() {
    let app = make_test_app();
    match notification(&app, "session_created", r#"{"session_id": "sess_123"}"#).unwrap() {
        AppEvent::SessionCreated { session_id } => assert_eq!(session_id, "sess_123"),
        _ => panic!("wrong event type"),
    }
}

#[test]
fn test_parse_ipc_session_name_update() {
    let app = make_test_app();
    match notification(&app, "session_name_update", r#"{"name": "my project"}"#).unwrap() {
        AppEvent::SessionNameUpdate { name } => assert_eq!(name, "my project"),
        _ => panic!("wrong event type"),
    }
}

#[test]
fn test_parse_ipc_unknown_method_returns_none() {
    let app = make_test_app();
    assert!(notification(&app, "future_event", "{}").is_none());
}

#[test]
fn test_parse_ipc_response_returns_none() {
    let app = make_test_app();
    // a response has an id and no method: it is no notification
    let result = to_json(&serde_json::from_str::<serde_json::Value>(r#"{"ok": true}"#).unwrap());
    assert!(app.parse_ipc_event(false, None, Some(&result)).is_none());
}

#[test]
fn test_handle_assistant_delta_starts_streaming() {
    let mut app = make_test_app();
    app.handle_app_event(AppEvent::AssistantDelta { delta: "hello".into() }, 0);
    assert!(app.chat.active_cell.is_some());
    assert_eq!(app.status, SessionStatus::Active);
    assert!(app.needs_redraw);
}

#[test]
fn test_handle_tool_call_start_interrupts_streaming() {
    let mut app = AppState::new("test".into());
    app.handle_app_event(AppEvent::AssistantDelta { delta: "text".into() }, 0);
    app.handle_app_event(
        AppEvent::ToolCallStart { call_id: "c1".into(), name: "read_file".into(), arguments: "{}".into() },
        0,
    );
    assert!(app.chat.active_cell.is_none());
    assert_eq!(app.chat.cells.len(), 2);
}

#[test]
fn test_handle_usage_accumulates() {
    let mut app = AppState::new("test".into());
    app.handle_app_event(AppEvent::Usage { input_tokens: 100, output_tokens: 50, cache_read_tokens: 30 }, 0);
    app.handle_app_event(AppEvent::Usage { input_tokens: 200, output_tokens: 100, cache_read_tokens: 60 }, 0);
    assert_eq!(app.input_tokens, 300);
    assert_eq!(app.output_tokens, 150);
    assert_eq!(app.cache_read_tokens, 90);
}

#[test]
fn test_handle_task_done_sets_completed() {
    let mut app = AppState::new("test".into());
    app.handle_app_event(AppEvent::AssistantDelta { delta: "done".into() }, 0);
    app.handle_app_event(AppEvent::TaskDone { summary: "finished".into() }, 0);
    assert_eq!(app.status, SessionStatus::Completed);
    assert!(app.chat.active_cell.is_none());
}

#[test]
fn test_handle_error_sets_error_status() {
    let mut app = AppState::new("test".into());
    app.handle_app_event(AppEvent::Error { code: 500, message: "crash".into() }, 0);
    assert_eq!(app.status, SessionStatus::Error);
    assert!(app.chat.cells.iter().any(|c| {
        c.display_lines(80).unwrap().iter().any(|l| {
            let text = format!("{l:?}");
            text.contains("Error") || text.contains("crash")
        })
    }));
}

#[test]
fn test_handle_quit() {
    let mut app = AppState::new("test".into());
    app.handle_app_event(AppEvent::Quit, 0);
    assert!(app.should_quit);
}

#[test]
fn test_full_flow_assistant_text_then_tool_then_done() {
    let mut app = AppState::new("test".into());
    app.handle_app_event(AppEvent::UserMessageSent("hello".into()), 0);
    assert_eq!(app.chat.cells.len(), 1);
    app.handle_app_event(AppEvent::AssistantDelta { delta: "I'll ".into() }, 1);
    app.handle_app_event(AppEvent::AssistantDelta { delta: "read a file".into() }, 2);
    assert!(app.chat.active_cell.is_some());
    app.handle_app_event(
        AppEvent::ToolCallStart { call_id: "c1".into(), name: "read_file".into(), arguments: "{}".into() },
        3,
    );
    assert!(app.chat.active_cell.is_none());
    assert_eq!(app.chat.cells.len(), 3);
    app.handle_app_event(
        AppEvent::ToolResult {
            call_id: "c1".into(),
            name: "read_file".into(),
            content: "file content".into(),
            is_error: false,
        },
        13,
    );
    assert_eq!(app.chat.cells[2].as_tool_call().unwrap().elapsed_ms, Some(10));
    app.handle_app_event(AppEvent::AssistantDelta { delta: "Here's the file.".into() }, 14);
    assert!(app.chat.active_cell.is_some());
    app.handle_app_event(AppEvent::TaskDone { summary: "done".into() }, 15);
    assert!(app.chat.active_cell.is_none());
    assert_eq!(app.status, SessionStatus::Completed);
}

#[test]
fn test_handle_session_name_update() {
    let mut app = AppState::new("test".into());
    app.handle_app_event(AppEvent::SessionNameUpdate { name: "我的项目".into() }, 0);
    assert_eq!(app.session_name, Some("我的项目".into()));
}

#[test]
fn test_handle_session_created_updates_id() {
    let mut app = AppState::new("old_id".into());
    app.handle_app_event(AppEvent::SessionCreated { session_id: "new_id".into() }, 0);
    assert_eq!(app.session_id, Some("new_id".into()));
}

#[test]
fn test_handle_user_message_sent_pushes_cell() {
    let mut app = AppState::new("test".into());
    app.handle_app_event(AppEvent::UserMessageSent("hello world".into()), 0);
    assert_eq!(app.chat.cells.len(), 1);
    let lines = app.chat.cells[0].display_lines(80).unwrap();
    let text = format!("{lines:?}");
    assert!(text.contains("hello world"));
}

#[test]
fn test_handle_assistant_delta_auto_starts_streaming() {
    let mut app = AppState::new("test".into());
    assert!(app.chat.active_cell.is_none());
    app.handle_app_event(AppEvent::AssistantDelta { delta: "hi".into() }, 0);
    assert!(app.chat.active_cell.is_some());
}

#[test]
fn test_handle_error_finishes_active_streaming() {
    let mut app = AppState::new("test".into());
    app.handle_app_event(AppEvent::AssistantDelta { delta: "text".into() }, 0);
    assert!(app.chat.active_cell.is_some());
    app.handle_app_event(AppEvent::Error { code: 500, message: "fail".into() }, 0);
    assert!(app.chat.active_cell.is_none());
}

#[test]
fn test_handle_cancel_requested() {
    let mut app = AppState::new("test".into());
    app.handle_app_event(AppEvent::CancelRequested, 0);
    assert_eq!(app.status, SessionStatus::Completed);
    assert!(app.needs_redraw);
}

#[test]
fn test_handle_redraw_requested() {
    let mut app = AppState::new("test".into());
    app.needs_redraw = false;
    app.handle_app_event(AppEvent::RedrawRequested, 0);
    assert!(app.needs_redraw);
}

#[test]
fn test_handle_key_quit() {
    let mut app = AppState::new("test".into());
    let outcome = app.handle_key(&key(CONTROL, KeyCode::Char('c')));
    assert!(matches!(outcome, KeyOutcome::Send(AppEvent::Quit)));
}

#[test]
fn test_handle_key_cycle_mode() {
    let mut app = AppState::new("test".into());
    assert_eq!(app.agent_mode, AgentMode::Code);
    app.handle_key(&key(CONTROL, KeyCode::Char('p')));
    assert_eq!(app.agent_mode, AgentMode::Ask);
    assert!(app.needs_redraw);
}

#[test]
fn test_handle_key_submit_message() {
    let mut app = AppState::new("test".into());
    let outcome = app.handle_key(&key(NO_MODIFIERS, KeyCode::Enter));
    assert!(matches!(outcome, KeyOutcome::SubmitInput));
    match app.submit_input("hello".to_string()) {
        Some(AppEvent::UserMessageSent(msg)) => assert_eq!(msg, "hello"),
        _ => panic!("expected UserMessageSent"),
    }
    assert!(app.needs_redraw);
    assert!(app.submit_input(" \n\t".to_string()).is_none());
}

#[test]
fn test_handle_key_scroll() {
    let mut app = AppState::new("test".into());
    app.focus = FocusTarget::ChatPanel;
    app.handle_key(&key(NO_MODIFIERS, KeyCode::PageUp));
    assert!(app.chat.scroll_offset > 0);
    assert!(app.needs_redraw);
}

#[test]
fn test_handle_key_toggle_tool() {
    let mut app = AppState::new("test".into());
    app.chat.start_tool_call("c1", "read_file", "{}", 0);
    app.focus = FocusTarget::ChatPanel;
    app.handle_key(&key(NO_MODIFIERS, KeyCode::Enter));
    let tc = app.chat.cells[0].as_tool_call().unwrap();
    assert!(tc.expanded);
    assert!(app.needs_redraw);
}

#[test]
fn test_handle_key_input_passthrough() {
    let mut app = AppState::new("test".into());
    app.focus = FocusTarget::Input;
    let outcome = app.handle_key(&key(NO_MODIFIERS, KeyCode::Char('a')));
    assert!(app.needs_redraw);
    assert!(matches!(outcome, KeyOutcome::ForwardToInput));
}

#[test]
fn test_handle_paste_in_input() {
    let mut app = AppState::new("test".into());
    app.focus = FocusTarget::Input;
    app.needs_redraw = false;
    assert!(app.handle_paste());
    assert!(app.needs_redraw);
}

#[test]
fn test_handle_paste_in_chat_panel() {
    let mut app = AppState::new("test".into());
    app.focus = FocusTarget::ChatPanel;
    app.needs_redraw = false;
    assert!(!app.handle_paste());
    assert!(!app.needs_redraw);
}

#[test]
fn test_handle_ipc_message() {
    let mut app = AppState::new("test".into());
    if let Some(e) = notification(&app, "assistant_text", r#"{"delta": "hello"}"#) {
        app.handle_app_event(e, 0);
    }
    assert!(app.chat.active_cell.is_some());
    assert!(app.needs_redraw);
}

#[test]
fn test_release_event_returns_none() {
    let k = KeyInput { code: KeyCode::Char('c'), modifiers: CONTROL, press: false };
    assert_eq!(map_input_key(k), KeyAction::NoAction);
    assert_eq!(map_chat_key(k), KeyAction::NoAction);
}

#[test]
fn test_input_ctrl_c_quit() {
    assert_eq!(map_input_key(key(CONTROL, KeyCode::Char('c'))), KeyAction::Quit);
}

#[test]
fn test_input_ctrl_d_quit() {
    assert_eq!(map_input_key(key(CONTROL, KeyCode::Char('d'))), KeyAction::Quit);
}

#[test]
fn test_input_ctrl_x_cancel() {
    assert_eq!(map_input_key(key(CONTROL, KeyCode::Char('x'))), KeyAction::Cancel);
}

#[test]
fn test_input_esc_cancel() {
    assert_eq!(map_input_key(key(NO_MODIFIERS, KeyCode::Esc)), KeyAction::Cancel);
}

#[test]
fn test_input_ctrl_p_cycle_mode() {
    assert_eq!(map_input_key(key(CONTROL, KeyCode::Char('p'))), KeyAction::CycleAgentMode);
}

#[test]
fn test_input_enter_submit() {
    assert_eq!(map_input_key(key(NO_MODIFIERS, KeyCode::Enter)), KeyAction::SubmitMessage);
}

#[test]
fn test_input_tab_focus() {
    assert_eq!(map_input_key(key(NO_MODIFIERS, KeyCode::Tab)), KeyAction::FocusNext);
}

#[test]
fn test_input_char_none() {
    assert_eq!(map_input_key(key(NO_MODIFIERS, KeyCode::Char('a'))), KeyAction::NoAction);
}

#[test]
fn test_input_backspace_none() {
    assert_eq!(map_input_key(key(NO_MODIFIERS, KeyCode::Other)), KeyAction::NoAction);
}

#[test]
fn test_chat_page_up() {
    assert_eq!(map_chat_key(key(NO_MODIFIERS, KeyCode::PageUp)), KeyAction::ScrollUp(10));
}

#[test]
fn test_chat_page_down() {
    assert_eq!(map_chat_key(key(NO_MODIFIERS, KeyCode::PageDown)), KeyAction::ScrollDown(10));
}

#[test]
fn test_chat_ctrl_end() {
    assert_eq!(map_chat_key(key(CONTROL, KeyCode::End)), KeyAction::ScrollToBottom);
}

#[test]
fn test_chat_shift_up() {
    assert_eq!(map_chat_key(key(SHIFT, KeyCode::Up)), KeyAction::ScrollUp(1));
}

#[test]
fn test_chat_enter_toggle() {
    assert_eq!(map_chat_key(key(NO_MODIFIERS, KeyCode::Enter)), KeyAction::ToggleToolExpand);
}

#[test]
fn test_chat_space_toggle() {
    assert_eq!(map_chat_key(key(NO_MODIFIERS, KeyCode::Char(' '))), KeyAction::ToggleToolExpand);
}

#[test]
fn test_chat_tab_focus() {
    assert_eq!(map_chat_key(key(NO_MODIFIERS, KeyCode::Tab)), KeyAction::FocusNext);
}

#[test]
fn test_chat_char_none() {
    assert_eq!(map_chat_key(key(NO_MODIFIERS, KeyCode::Char('a'))), KeyAction::NoAction);
}

#[test]
fn test_global_shortcuts_consistent() {
    let global_keys = vec![
        key(CONTROL, KeyCode::Char('c')),
        key(CONTROL, KeyCode::Char('d')),
        key(CONTROL, KeyCode::Char('x')),
        key(NO_MODIFIERS, KeyCode::Esc),
        key(CONTROL, KeyCode::Char('p')),
    ];
    for k in global_keys {
        assert_eq!(map_input_key(k), map_chat_key(k), "global key mismatch: {k:?}");
    }
}

#[test]
fn test_shift_with_control_is_no_shortcut() {
    assert_eq!(map_input_key(key(CONTROL | SHIFT, KeyCode::Char('c'))), KeyAction::NoAction);
}

#[test]
fn test_ipc_error_text() {
    assert_eq!(IpcError::Disconnected.to_string(), "disconnected");
    assert_eq!(IpcError::RequestTimeout.to_string(), "request timeout");
    assert_eq!(IpcError::RpcError { code: -32601, message: "no".into() }.to_string(), "rpc error -32601: no");
    let e: IpcError = IpcTransportError::ConnectFailed("refused".into()).into();
    assert_eq!(e.to_string(), "transport error: connect failed: refused");
}

#[test]
fn test_toggle_picks_newest_tool_call() {
    let mut app = AppState::new("t".into());
    app.chat.start_tool_call("a", "x", "{}", 0);
    app.chat.push_cell(HistoryEntry::User(crown::history_cell::UserMessageCell { content: "u".into() }));
    app.chat.start_tool_call("b", "y", "{}", 0);
    assert_eq!(app.current_tool_index(), Some(2));
}
