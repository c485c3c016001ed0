use crown::xdiff::{diff, format_line_diff, text_lines_of, ChangeKind, LineChange, LineOp, OpTag};




#[test]
fn test_empty_inputs() {
    assert_eq!(diff("", "", 3), "");
}


#[test]
fn test_same_content() {
    assert_eq!(diff("hello\nworld\n", "hello\nworld\n", 3), "");
}


#[test]
fn test_single_change() {
    let result = diff("hello\n", "world\n", 3);
    assert!(result.contains("-hello"));
    assert!(result.contains("+world"));
    assert!(result.contains("@@"));
}


#[test]
fn test_addition() {
    let result = diff("", "hello\n", 3);
    assert!(result.contains("+hello"));
    assert!(result.contains("@@ -0,0 +1,1 @@"));
}


#[test]
fn test_deletion() {
    let result = diff("hello\n", "", 3);
    assert!(result.contains("-hello"));
    assert!(result.contains("@@ -1,1 +0,0 @@"));
}


#[test]
fn test_context_window() {
    let a = "a\nb\nc\nd\ne\nf\ng\nh\n";
    let b = "a\nb\nX\nd\ne\nY\ng\nh\n";
    let result = diff(a, b, 2);
    assert!(result.contains("-c"));
    assert!(result.contains("+X"));
    assert!(result.contains("-f"));
    assert!(result.contains("+Y"));
}


#[test]
fn test_no_newline_at_eof() {
    let result = diff("hello", "world", 3);
    assert!(result.contains("\\ No newline at end of file"));
}


#[test]
fn test_header_format() {
    let result = diff("hello\n", "world\n", 3);
    assert!(result.starts_with("@@ -1,1 +1,1 @@"));
}


#[test]
fn test_single_line_added() {
    let result = diff("line1\n", "line1\nline2\n", 3);
    assert!(result.contains("+line2"));
}


#[test]
fn test_single_line_deleted() {
    let result = diff("line1\nline2\n", "line1\n", 3);
    assert!(result.contains("-line2"));
}


#[test]
fn test_ctx_len_zero() {
    let a = "line1\nline2\nline3\nline4\nline5\n";
    let b = "line1\nline2\nCHG3\nline4\nline5\n";
    let result = diff(a, b, 0);
    assert!(!result.contains(" line2"));
    assert!(result.contains("-line3"));
    assert!(result.contains("+CHG3"));
}


#[test]
fn test_ctx_len_one() {
    let a = "line1\nline2\nline3\nline4\nline5\n";
    let b = "line1\nline2\nCHG3\nline4\nline5\n";
    let result = diff(a, b, 1);
    assert!(!result.contains(" line1"));
    assert!(result.contains(" line2"));
    assert!(result.contains(" line4"));
}


#[test]
fn test_merge_adjacent_hunks() {
    let a = "line1\nline2\nline3\nline4\nline5\nline6\nline7\nline8\n";
    let b = "line1\nCHG2\nline3\nCHG4\nline5\nline6\nline7\nline8\n";
    let result = diff(a, b, 1);
    assert!(result.contains("-line2"));
    assert!(result.contains("+CHG2"));
    assert!(result.contains("-line4"));
    assert!(result.contains("+CHG4"));
    assert_eq!(result.find("@@ -"), result.rfind("@@ -"));
}


#[test]
fn test_hunk_header_zero_count_addition() {
    let result = diff("", "line1\nline2\n", 3);
    assert!(result.contains("@@ -0,0 +1,2 @@"));
}


#[test]
fn test_hunk_header_zero_count_deletion() {
    let result = diff("line1\nline2\n", "", 3);
    assert!(result.contains("@@ -1,2 +0,0 @@"));
}


#[test]
fn test_mixed_trailing_newline() {
    let result = diff("hello\n", "hello", 3);
    assert!(!result.is_empty(), "result should not be empty");
    assert!(
        result.contains("-hello"),
        "expected -hello in result: {:?}",
        result
    );
}


#[test]
fn test_multiline_different_lengths() {
    let a = "line1\nline2\nline3\n";
    let b = "line1\nadded1\nadded2\nline2\nline3\n";
    let result = diff(a, b, 3);
    assert!(result.contains("+added1"));
    assert!(result.contains("+added2"));
    assert!(result.contains(" line1"));
}


#[test]
fn test_large_identical_prefix() {
    let mut a = String::new();
    let mut b = String::new();
    for i in 1..=20 {
        a.push_str(&format!("line{i}\n"));
        b.push_str(&format!("line{i}\n"));
    }
    b = b.replace("line10\n", "modified10\n");
    let result = diff(&a, &b, 2);
    assert!(result.contains("-line10"));
    assert!(result.contains("+modified10"));
    assert!(!result.contains(" line6\n"));
    assert!(!result.contains(" line14\n"));
}

#[test]
fn diff_single_change_exact_text() {
    assert_eq!(diff("hello\n", "world\n", 3), "@@ -1,1 +1,1 @@\n-hello\n+world\n");
}

#[test]
fn diff_missing_final_newline_exact_text() {
    assert_eq!(
        diff("hello", "world", 3),
        "@@ -1,1 +1,1 @@\n-hello\n+world\n\\ No newline at end of file\n"
    );
}

#[test]
fn diff_only_final_newline_differs() {
    assert_eq!(diff("hello\n", "hello", 3), "@@ -1,1 +1,1 @@\n-hello\n+hello\n");
}

#[test]
fn diff_addition_to_empty_exact_text() {
    assert_eq!(diff("", "a\r\nb\n", 3), "@@ -0,0 +1,2 @@\n+a\n+b\n");
}

#[test]
fn diff_context_lines_exact_text() {
    let a = "line1\nline2\nline3\nline4\nline5\n";
    let b = "line1\nline2\nCHG3\nline4\nline5\n";
    assert_eq!(
        diff(a, b, 1),
        "@@ -2,3 +2,3 @@\n line2\n-line3\n+CHG3\n line4\n"
    );
}

#[test]
fn format_line_diff_from_given_operations() {
    let ops = vec![LineOp { tag: OpTag::Replace, old_start: 0, old_end: 1, new_start: 0, new_end: 1 }];
    let groups = vec![ops.clone()];
    let changes = vec![
        LineChange { kind: ChangeKind::Delete, old_index: Some(0), new_index: None, value: "x\n".to_string() },
        LineChange { kind: ChangeKind::Insert, old_index: None, new_index: Some(0), value: "y".to_string() },
    ];
    let r = format_line_diff("x", "y", false, true, &ops, &groups, &changes);
    assert_eq!(r, "@@ -1,1 +1,1 @@\n-x\n+y\n\\ No newline at end of file\n");
    let none = format_line_diff("x", "x", false, false, &[], &[], &[]);
    assert_eq!(none, "");
}

#[test]
fn text_lines_follow_str_lines() {
    assert_eq!(text_lines_of("a\r\nb\n\nc\r"), vec!["a".to_string(), "b".to_string(), "".to_string(), "c\r".to_string()]);
    assert!(text_lines_of("").is_empty());
}

#[test]
fn equal_texts_have_no_diff_whatever_the_context() {
    assert_eq!(diff("hello\nworld\n", "hello\nworld\n", usize::MAX), "");
    assert_eq!(diff("", "", usize::MAX), "");
}
