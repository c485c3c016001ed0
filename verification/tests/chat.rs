use crown::chat::{summarize_arguments, ChatHistory, HistoryEntry};
use crown::history_cell::{ToolCallStatus, UserMessageCell};

#[test]
fn test_new_chatwidget() {
    let w = ChatHistory::new();
    assert!(w.cells.is_empty());
    assert!(w.active_cell.is_none());
    assert_eq!(w.scroll_offset, 0);
    assert!(w.auto_scroll);
    assert!(w.trackers.is_empty());
}

#[test]
fn test_push_cell_and_auto_scroll() {
    let mut w = ChatHistory::new();
    w.scroll_offset = 5;
    w.push_cell(HistoryEntry::User(UserMessageCell { content: "hi".into() }));
    assert_eq!(w.cells.len(), 1);
    assert_eq!(w.scroll_offset, 0);
}

#[test]
fn test_streaming_lifecycle() {
    let mut w = ChatHistory::new();
    w.start_streaming();
    assert!(w.active_cell.is_some());
    assert!(w.active_cell.as_ref().unwrap().is_stream_continuation());
    w.append_streaming("hello ");
    w.append_streaming("world");
    w.finish_streaming();
    assert!(w.active_cell.is_none());
    assert_eq!(w.cells.len(), 1);
    assert!(!w.cells[0].is_stream_continuation());
    match &w.cells[0] {
        HistoryEntry::Assistant(c) => assert_eq!(c.content, "hello world"),
        other => panic!("unexpected {:?}", other),
    }
}

#[test]
fn test_finish_streaming_noop_when_empty() {
    let mut w = ChatHistory::new();
    w.finish_streaming();
    assert!(w.cells.is_empty());
}

#[test]
fn test_tool_call_lifecycle() {
    let mut w = ChatHistory::new();
    w.start_tool_call("c1", "read_file", "/tmp/test.rs", 1000);
    assert_eq!(w.cells.len(), 1);
    assert!(w.is_tool_call(0));
    assert!(w.is_tracked("c1"));
    w.finish_tool_call("c1", "read_file", "file content", false, 1010);
    let tc = w.cells[0].as_tool_call().unwrap();
    assert_eq!(tc.status, ToolCallStatus::Success);
    assert_eq!(tc.output.as_deref(), Some("file content"));
    assert!(tc.elapsed_ms.is_some());
    assert!(tc.elapsed_ms.unwrap() >= 10);
    assert!(!w.is_tracked("c1"));
}

#[test]
fn test_tool_call_error() {
    let mut w = ChatHistory::new();
    w.start_tool_call("c2", "write_file", "/tmp/x", 0);
    w.finish_tool_call("c2", "write_file", "Error: permission denied", true, 5);
    let tc = w.cells[0].as_tool_call().unwrap();
    assert_eq!(tc.status, ToolCallStatus::Error);
    assert_eq!(tc.elapsed_ms, Some(5));
}

#[test]
fn test_tool_call_finish_nonexistent() {
    let mut w = ChatHistory::new();
    w.finish_tool_call("nonexistent", "x", "y", false, 0);
    assert!(w.cells.is_empty());
}

#[test]
fn test_start_tool_call_interrupts_streaming() {
    let mut w = ChatHistory::new();
    w.start_streaming();
    w.append_streaming("text before tool");
    w.start_tool_call("c1", "read_file", "{}", 0);
    assert_eq!(w.cells.len(), 2);
    assert!(!w.cells[0].is_stream_continuation());
}

#[test]
fn test_scroll_operations() {
    let mut w = ChatHistory::new();
    assert!(w.auto_scroll);
    w.scroll_up(5);
    assert_eq!(w.scroll_offset, 5);
    assert!(!w.auto_scroll);
    w.scroll_up(3);
    assert_eq!(w.scroll_offset, 8);
    w.scroll_down(3);
    assert_eq!(w.scroll_offset, 5);
    assert!(!w.auto_scroll);
    w.scroll_down(5);
    assert_eq!(w.scroll_offset, 0);
    assert!(w.auto_scroll);
    w.scroll_up(10);
    w.scroll_to_bottom();
    assert_eq!(w.scroll_offset, 0);
    assert!(w.auto_scroll);
}

#[test]
fn test_toggle_tool_expanded() {
    let mut w = ChatHistory::new();
    w.start_tool_call("c1", "read_file", "{}", 0);
    assert!(!w.cells[0].as_tool_call().unwrap().expanded);
    w.toggle_tool_expanded(0);
    assert!(w.cells[0].as_tool_call().unwrap().expanded);
    w.toggle_tool_expanded(0);
    assert!(!w.cells[0].as_tool_call().unwrap().expanded);
}

#[test]
fn test_toggle_nonexistent_index() {
    let mut w = ChatHistory::new();
    w.toggle_tool_expanded(99);
    assert!(w.cells.is_empty());
}

#[test]
fn test_is_tool_call() {
    let mut w = ChatHistory::new();
    w.push_cell(HistoryEntry::User(UserMessageCell { content: "hi".into() }));
    w.start_tool_call("c1", "read_file", "{}", 0);
    assert!(!w.is_tool_call(0));
    assert!(w.is_tool_call(1));
    assert!(!w.is_tool_call(2));
}

#[test]
fn test_total_rendered_lines() {
    let mut w = ChatHistory::new();
    assert_eq!(w.total_rendered_lines(80), 0);
    w.push_cell(HistoryEntry::User(UserMessageCell { content: "hello".into() }));
    assert_eq!(w.total_rendered_lines(80), 1);
    w.start_streaming();
    assert_eq!(w.total_rendered_lines(80), 2);
}

#[test]
fn test_summarized_arguments() {
    assert_eq!(summarize_arguments("short"), "short");
    let long = "a".repeat(81);
    assert_eq!(summarize_arguments(&long), format!("{}...", "a".repeat(77)));
    assert_eq!(summarize_arguments(&"b".repeat(80)), "b".repeat(80));
}

#[test]
fn test_restarted_call_is_tracked_once() {
    let mut w = ChatHistory::new();
    w.start_tool_call("c1", "a", "{}", 0);
    w.start_tool_call("c1", "b", "{}", 10);
    assert_eq!(w.trackers.len(), 1);
    w.finish_tool_call("c1", "b", "done", false, 15);
    assert!(w.cells[0].as_tool_call().unwrap().output.is_none());
    assert_eq!(w.cells[1].as_tool_call().unwrap().elapsed_ms, Some(5));
}

#[test]
fn test_entry_display_lines() {
    let e = HistoryEntry::User(UserMessageCell { content: "hi".into() });
    let lines = e.display_lines(80).unwrap();
    assert_eq!(lines[0].text, "[You] hi");
    assert!(HistoryEntry::User(UserMessageCell { content: "日本".into() }).display_lines(1).is_none());
}
