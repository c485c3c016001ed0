use crown::app_state::SessionStatus;
use crown::status_bar::{status_line, status_line_checked, StatusBarData, StatusColor};

fn data<'a>(name: Option<&'a str>, tokens: (i32, i32, i32), latency: Option<u64>, status: &'a SessionStatus) -> StatusBarData<'a> {
    StatusBarData {
        session_name: name,
        input_tokens: tokens.0,
        output_tokens: tokens.1,
        cache_read_tokens: tokens.2,
        avg_latency_ms: latency,
        status,
    }
}

/// The row as the terminal shows it: the text, then blanks up to the width.
fn row(d: &StatusBarData, width: u16) -> String {
    let l = status_line(d, width);
    let mut s = l.text.clone();
    for _ in l.text_width..width as usize {
        s.push(' ');
    }
    s
}

#[test]
fn test_full_width_shows_all_segments() {
    let d = data(Some("my project"), (1234, 567, 890), Some(230), &SessionStatus::Active);
    let content = row(&d, 80);
    assert!(content.contains("my project"));
    assert!(content.contains("In:1234"));
    assert!(content.contains("Out:567"));
    assert!(content.contains("Cache:890"));
    assert!(content.contains("avg:230ms"));
    assert!(content.contains("\u{25CF}"));
}

#[test]
fn test_segments_flow_left_to_right() {
    let d = data(Some("proj"), (10, 20, 30), Some(50), &SessionStatus::Active);
    let content = row(&d, 80);
    let idx_proj = content.find("proj").unwrap();
    let idx_in = content.find("In:10").unwrap();
    let idx_avg = content.find("avg:50ms").unwrap();
    let idx_icon = content.find("\u{25CF}").unwrap();
    assert!(idx_proj < idx_in);
    assert!(idx_in < idx_avg);
    assert!(idx_avg < idx_icon);
}

#[test]
fn test_narrow_drops_tokens_first() {
    let d = data(Some("my project"), (1234, 567, 890), Some(230), &SessionStatus::Active);
    let content = row(&d, 30);
    assert!(content.contains("my project"));
    assert!(!content.contains("In:1234"));
    assert!(content.contains("avg:230ms"));
    assert!(content.contains("\u{25CF}"));
}

#[test]
fn test_narrower_drops_latency() {
    let d = data(Some("my project"), (1234, 567, 890), Some(230), &SessionStatus::Active);
    let content = row(&d, 20);
    assert!(content.contains("my project"));
    assert!(!content.contains("In:1234"));
    assert!(!content.contains("avg:230ms"));
    assert!(content.contains("\u{25CF}"));
}

#[test]
fn test_very_narrow_truncates() {
    let d = data(Some("a very long session name"), (0, 0, 0), None, &SessionStatus::Active);
    let l = status_line(&d, 5);
    assert_eq!(l.text, "a ver");
    assert!(l.icon.is_none());
}

#[test]
fn test_no_session_name_shows_default() {
    let d = data(None, (0, 0, 0), None, &SessionStatus::Active);
    assert!(row(&d, 80).contains("crown-code"));
}

#[test]
fn test_pipe_separator_style() {
    let d = data(Some("proj"), (10, 20, 30), Some(50), &SessionStatus::Active);
    let content = row(&d, 80);
    assert!(content.contains("proj"));
    assert!(content.contains(" \u{2502} "));
}

#[test]
fn test_status_icon_colors() {
    for (status, expected_color) in [
        (SessionStatus::Active, StatusColor::Green),
        (SessionStatus::Completed, StatusColor::Blue),
        (SessionStatus::Error, StatusColor::Red),
    ] {
        let d = data(None, (0, 0, 0), None, &status);
        let l = status_line(&d, 80);
        let (col, text, color) = l.icon.expect("status icon should be present");
        assert_eq!(text, "\u{25CF}");
        assert_eq!(color, expected_color);
        // "crown-code │ In:0 Out:0 Cache:0 │ " takes 35 columns
        assert_eq!(col, 34);
    }
}

#[test]
fn test_checked_line_agrees() {
    let d = data(Some("p"), (1, 2, 3), Some(4), &SessionStatus::Error);
    let a = status_line(&d, 40);
    let b = status_line_checked(&d, 40).unwrap();
    assert_eq!(a.text, b.text);
    assert_eq!(a.text, "p \u{2502} In:1 Out:2 Cache:3 \u{2502} avg:4ms \u{2502} \u{25CF}");
}
