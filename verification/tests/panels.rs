use crown::app_state::AgentMode;
use crown::panels::{chat_content_width, chat_window, input_bar_layout, ChatWindow, ScrollbarSpec};

#[test]
fn content_width_leaves_a_column_for_the_scrollbar() {
    assert_eq!(chat_content_width(80), 79);
    assert_eq!(chat_content_width(2), 1);
    assert_eq!(chat_content_width(1), 1);
    assert_eq!(chat_content_width(0), 0);
}

#[test]
fn window_when_everything_fits() {
    assert_eq!(chat_window(10, 4, 0), ChatWindow { start: 0, end: 4, scrollbar: None });
    assert_eq!(chat_window(10, 0, 3), ChatWindow { start: 0, end: 0, scrollbar: None });
}

#[test]
fn window_at_bottom_and_scrolled() {
    assert_eq!(
        chat_window(3, 10, 0),
        ChatWindow { start: 7, end: 10, scrollbar: Some(ScrollbarSpec { content_length: 8, position: 7, viewport: 3 }) }
    );
    assert_eq!(
        chat_window(3, 10, 2),
        ChatWindow { start: 5, end: 8, scrollbar: Some(ScrollbarSpec { content_length: 8, position: 5, viewport: 3 }) }
    );
    assert_eq!(
        chat_window(3, 10, 100),
        ChatWindow { start: 0, end: 3, scrollbar: Some(ScrollbarSpec { content_length: 8, position: 0, viewport: 3 }) }
    );
}

#[test]
fn input_layout_with_model() {
    let l = input_bar_layout("gpt", AgentMode::Plan, "hello", 2, 40, true);
    assert_eq!(l.prefix, "gpt │ [Plan] │ > ");
    assert_eq!(l.prefix_cols, 17);
    assert_eq!(l.text_cols, 23);
    assert_eq!(l.display_text, "hello");
    assert_eq!(l.cursor_offset, Some(2));
    assert_eq!(l.used_cols, 22);
}

#[test]
fn input_layout_without_model_truncates_and_hides_cursor() {
    let l = input_bar_layout("", AgentMode::Plan, "abcdefghij", 10, 15, true);
    assert_eq!(l.prefix, "[Plan] │ > ");
    assert_eq!(l.text_cols, 4);
    assert_eq!(l.display_text, "abcd");
    assert_eq!(l.cursor_offset, None);
    let unfocused = input_bar_layout("", AgentMode::Plan, "ab", 1, 40, false);
    assert_eq!(unfocused.cursor_offset, None);
}

#[test]
fn input_layout_counts_wide_characters() {
    let l = input_bar_layout("", AgentMode::Plan, "中文x", 2, 40, true);
    assert_eq!(l.cursor_offset, Some(4));
    assert_eq!(l.used_cols, 11 + 5);
}
