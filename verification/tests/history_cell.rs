use crown::history_cell::{
    tool_call_height, wrap_text_checked, wrap_text_to_lines, AgentMarkdownCell,
    AssistantMessageCell, ErrorCell, LineColor, SystemMessageCell, ToolCallCell, ToolCallStatus,
    UserMessageCell,
};

fn tool(status: ToolCallStatus, output: Option<&str>, expanded: bool, elapsed_ms: Option<u64>) -> ToolCallCell {
    ToolCallCell {
        call_id: "c1".to_string(),
        name: "read_file".to_string(),
        arguments: "{}".to_string(),
        arguments_summary: "{}".to_string(),
        status,
        output: output.map(String::from),
        expanded,
        elapsed_ms,
    }
}

#[test]
fn test_user_message_cell_height() {
    let cell = UserMessageCell { content: "hello".to_string() };
    assert_eq!(cell.desired_height(80), 1);
}

#[test]
fn test_user_message_cell_wrapping() {
    let cell = UserMessageCell { content: "a".repeat(100) };
    let lines = cell.display_lines(40);
    assert!(lines.len() > 1);
}

#[test]
fn test_assistant_streaming_delta() {
    let mut cell = AssistantMessageCell::new_streaming();
    assert!(cell.is_stream_continuation());
    cell.append_delta("hello ");
    cell.append_delta("world");
    let lines = cell.display_lines(80);
    assert!(lines.len() >= 1);
    let text = format!("{lines:?}");
    assert!(text.contains('\u{258C}'));
}

#[test]
fn test_assistant_finish() {
    let mut cell = AssistantMessageCell::new_streaming();
    cell.append_delta("done");
    cell.finish();
    assert!(!cell.is_stream_continuation());
}

#[test]
fn test_tool_call_cell_status_icons() {
    let cell = tool(ToolCallStatus::Running, None, false, None);
    let lines = cell.display_lines(80);
    assert_eq!(lines.len(), 1);
}

#[test]
fn test_tool_call_collapsed_hides_output() {
    let cell = tool(ToolCallStatus::Success, Some("line1\nline2\nline3"), false, Some(100));
    let lines = cell.display_lines(80);
    assert_eq!(lines.len(), 1);
}

#[test]
fn test_tool_call_expanded_shows_output_with_line_numbers() {
    let cell = tool(ToolCallStatus::Success, Some("line1\nline2\nline3"), true, Some(100));
    let lines = cell.display_lines(80);
    assert_eq!(lines.len(), 4);
    let line_text = format!("{:?}", lines[1]);
    assert!(line_text.contains("1 |"));
    let line_text2 = format!("{:?}", lines[2]);
    assert!(line_text2.contains("2 |"));
}

#[test]
fn test_tool_call_elapsed_display() {
    let cell = tool(ToolCallStatus::Success, None, false, Some(100));
    let lines = cell.display_lines(80);
    let line_text = format!("{:?}", lines[0]);
    assert!(line_text.contains("100ms"));
}

#[test]
fn test_tool_call_running_no_elapsed() {
    let cell = tool(ToolCallStatus::Running, None, false, None);
    let lines = cell.display_lines(80);
    let line_text = format!("{:?}", lines[0]);
    assert!(line_text.contains("running"));
}

#[test]
fn test_finish_streaming_trait() {
    let mut cell = AssistantMessageCell::new_streaming();
    assert!(cell.is_stream_continuation());
    cell.finish_streaming();
    assert!(!cell.is_stream_continuation());
}

#[test]
fn test_tool_call_as_tool_call() {
    let mut cell = tool(ToolCallStatus::Running, None, false, None);
    assert!(cell.as_tool_call().is_some());
    assert!(cell.as_tool_call_mut().is_some());
}

#[test]
fn test_user_cell_as_tool_call_none() {
    let mut cell = UserMessageCell { content: "hi".to_string() };
    assert!(cell.as_tool_call().is_none());
    assert!(cell.as_tool_call_mut().is_none());
}

#[test]
fn test_error_cell_format() {
    let cell = ErrorCell { code: 401, message: "unauthorized".to_string() };
    let lines = cell.display_lines(80);
    assert_eq!(lines.len(), 1);
    assert_eq!(lines[0].text, "[Error 401] unauthorized");
    assert_eq!(lines[0].color, Some(LineColor::Red));
}

#[test]
fn test_system_message_cell() {
    let cell = SystemMessageCell { content: "session started".to_string() };
    assert_eq!(cell.desired_height(80), 1);
}

#[test]
fn test_wrap_empty_text() {
    let lines = wrap_text_to_lines("", 80, LineColor::White);
    assert_eq!(lines.len(), 1);
}

#[test]
fn test_wrap_long_line() {
    let text = "word ".repeat(20);
    let lines = wrap_text_to_lines(&text, 40, LineColor::White);
    assert!(lines.len() >= 3);
}

#[test]
fn test_wrap_breaks_after_last_space() {
    let lines = wrap_text_to_lines("hello world foo", 8, LineColor::Cyan);
    let texts: Vec<&str> = lines.iter().map(|l| l.text.as_str()).collect();
    assert_eq!(texts, vec!["hello ", "world ", "foo"]);
    assert!(lines.iter().all(|l| l.color == Some(LineColor::Cyan)));
}

#[test]
fn test_wrap_keeps_empty_lines_unstyled() {
    let lines = wrap_text_to_lines("a\n\nb", 10, LineColor::Gray);
    assert_eq!(lines.len(), 3);
    assert_eq!(lines[1].text, "");
    assert_eq!(lines[1].color, None);
    assert!(wrap_text_to_lines("abc", 0, LineColor::Gray).is_empty());
}

#[test]
fn test_wrap_wide_characters() {
    // two columns each: three fit in six columns
    let lines = wrap_text_to_lines("日本語日本", 6, LineColor::White);
    let texts: Vec<&str> = lines.iter().map(|l| l.text.as_str()).collect();
    assert_eq!(texts, vec!["日本語", "日本"]);
    // one column cannot hold a wide character
    assert!(wrap_text_checked("日本", 1, LineColor::White).is_none());
    assert!(wrap_text_checked("ab", 1, LineColor::White).is_some());
}

#[test]
fn test_heights() {
    let cell = UserMessageCell { content: "x".repeat(74) };
    assert_eq!(cell.desired_height(80), 1);
    let cell = UserMessageCell { content: "x".repeat(75) };
    assert_eq!(cell.desired_height(80), 2);
    let a = AssistantMessageCell { content: "x".repeat(68), is_streaming: true };
    assert_eq!(a.desired_height(80), 2);
    let e = ErrorCell { code: -1, message: "m".to_string() };
    assert_eq!(e.desired_height(0), 12);
}

#[test]
fn test_running_tool_call_height() {
    let cell = tool(ToolCallStatus::Running, None, false, Some(100));
    assert_eq!(tool_call_height(&cell, 80), 1);
}

#[test]
fn test_collapsed_tool_call_single_line() {
    let cell = tool(ToolCallStatus::Success, Some("output"), false, Some(100));
    assert_eq!(cell.display_lines(80).len(), 1);
}

#[test]
fn test_expanded_tool_call_multiple_lines() {
    let cell = tool(ToolCallStatus::Success, Some("line1\nline2\nline3"), true, Some(100));
    assert_eq!(cell.display_lines(80).len(), 4);
    assert_eq!(tool_call_height(&cell, 80), 4);
}

#[test]
fn test_tool_title_padding() {
    let cell = tool(ToolCallStatus::Success, None, false, Some(7));
    let lines = cell.display_lines(40);
    assert_eq!(lines[0].text, format!("  \u{25B6} read_file \"{{}}\"{}[\u{2713} 7ms]", " ".repeat(14)));
    assert_eq!(lines[0].color, Some(LineColor::Green));
}

fn md_text(lines: &[crown::markdown::MdLine]) -> String {
    lines.iter().flat_map(|l| l.spans.iter()).map(|s| s.content.as_str()).collect::<Vec<_>>().join("")
}

#[test]
fn test_agent_markdown_cell_basic() {
    let cell = AgentMarkdownCell { markdown_source: "# Hello".to_string(), is_streaming: false };
    let lines = cell.display_lines(80);
    assert!(!lines.is_empty());
    assert!(md_text(&lines).contains("Hello"));
}

#[test]
fn test_agent_markdown_cell_streaming_lifecycle() {
    let mut cell = AgentMarkdownCell::new_streaming();
    assert!(cell.is_stream_continuation());

    cell.append_delta("hello ");
    cell.append_delta("world");
    assert!(cell.is_stream_continuation());

    let lines = cell.display_lines(80);
    assert!(!lines.is_empty());
    let all_text = md_text(&lines);
    assert!(all_text.contains("hello world"));
    assert!(all_text.contains('\u{258C}'));

    cell.finish_streaming();
    assert!(!cell.is_stream_continuation());

    let lines = cell.display_lines(80);
    let all_text = md_text(&lines);
    assert!(!all_text.contains('\u{258C}'));
}

#[test]
fn test_agent_markdown_cell_resize_rerender() {
    let cell = AgentMarkdownCell {
        markdown_source: "This is a long line that should wrap at different widths".to_string(),
        is_streaming: false,
    };
    let lines_w80 = cell.display_lines(80);
    let lines_w40 = cell.display_lines(40);
    assert!(lines_w40.len() >= lines_w80.len());
}

#[test]
fn test_agent_markdown_cell_desired_height_matches_display() {
    let cell = AgentMarkdownCell { markdown_source: "# Title\n\nSome content here".to_string(), is_streaming: false };
    let display_lines = cell.display_lines(80);
    let desired = cell.desired_height(80);
    assert_eq!(display_lines.len() as u16, desired);
}

#[test]
fn test_agent_markdown_cell_with_markdown() {
    let cell = AgentMarkdownCell { markdown_source: "**bold** and *italic*".to_string(), is_streaming: false };
    let lines = cell.display_lines(80);
    assert!(!lines.is_empty());
    let all_text = md_text(&lines);
    assert!(all_text.contains("bold"));
    assert!(all_text.contains("italic"));
}

#[test]
fn agent_markdown_cell_label_and_width() {
    let cell = AgentMarkdownCell { markdown_source: "one two three".to_string(), is_streaming: false };
    let lines = cell.display_lines(20);
    assert_eq!(lines[0].spans[0].content, "[Assistant] ");
    assert_eq!(lines[0].spans[0].style.fg, Some(crown::markdown::MdColor::Green));
    let rest: Vec<String> = lines[1..].iter().map(|l| l.spans.iter().map(|s| s.content.as_str()).collect()).collect();
    assert_eq!(rest, vec!["one two", "three"]);
}
