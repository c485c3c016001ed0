use crown::context::Context;
use crown::search::Match;
use crown::search_json::{format_end_json, format_match_json, format_start_json, json_escape};




#[test]
fn test_json_escape_double_quote() {
    assert_eq!(json_escape("\""), "\"\\\"\"");
}


#[test]
fn test_json_escape_backslash() {
    assert_eq!(json_escape("\\"), "\"\\\\\"");
}


#[test]
fn test_json_escape_newline() {
    assert_eq!(json_escape("a\nb"), "\"a\\nb\"");
}


#[test]
fn test_json_escape_tab() {
    assert_eq!(json_escape("a\tb"), "\"a\\tb\"");
}


#[test]
fn test_json_escape_carriage_return() {
    assert_eq!(json_escape("a\rb"), "\"a\\rb\"");
}


#[test]
fn test_json_escape_empty() {
    assert_eq!(json_escape(""), "\"\"");
}


#[test]
fn test_json_escape_no_special() {
    assert_eq!(json_escape("hello"), "\"hello\"");
}


#[test]
fn test_json_escape_mixed_special_chars() {
    assert_eq!(
        json_escape("say \"hello\"\n\tbye"),
        "\"say \\\"hello\\\"\\n\\tbye\""
    );
}


#[test]
fn test_json_escape_unicode() {
    assert_eq!(json_escape("中文"), "\"中文\"");
}


#[test]
fn test_format_start_json_normal() {
    let result = format_start_json("/path/to/file.txt");
    assert_eq!(
        result,
        "{\"type\":\"start\",\"path\":\"/path/to/file.txt\"}\n"
    );
}


#[test]
fn test_format_start_json_special_chars() {
    let result = format_start_json("path\"with\"quotes");
    assert_eq!(
        result,
        "{\"type\":\"start\",\"path\":\"path\\\"with\\\"quotes\"}\n"
    );
}


#[test]
fn test_format_start_json_empty_path() {
    assert_eq!(
        format_start_json(""),
        "{\"type\":\"start\",\"path\":\"\"}\n"
    );
}


#[test]
fn test_format_end_json() {
    assert_eq!(format_end_json(), "{\"type\":\"end\"}\n");
}


#[test]
fn test_format_match_json_full() {
    let m = Match {
        line_number: 5,
        column_start: 10,
        column_end: 15,
        line: "hello world".to_string(),
        path: "test.txt".to_string(),
    };
    let result = format_match_json(&m, None);
    assert_eq!(
        result,
        "{\"type\":\"match\",\"path\":\"test.txt\",\"line_number\":5,\"columns\":{\"start\":10,\"end\":15},\"line\":\"hello world\"}\n"
    );
}


#[test]
fn test_format_match_json_with_context_after() {
    let m = Match {
        line_number: 1,
        column_start: 0,
        column_end: 1,
        line: "a".to_string(),
        path: "a.txt".to_string(),
    };
    let mut ctx = Context::new(0, 2);
    ctx.add_line("after1");
    ctx.add_line("after2");
    let result = format_match_json(&m, Some(&ctx));
    assert!(!result.contains("context_before"));
    assert!(result.contains("\"context_after\":[\"after1\",\"after2\"]"));
}


#[test]
fn test_format_match_json_with_context_after_special_chars() {
    let m = Match {
        line_number: 5,
        column_start: 5,
        column_end: 8,
        line: "hello world".to_string(),
        path: "/path/to/file.txt".to_string(),
    };
    let mut ctx = Context::new(0, 1);
    ctx.add_line("line with \"quotes\"");
    let result = format_match_json(&m, Some(&ctx));
    assert_eq!(
        result,
        "{\"type\":\"match\",\"path\":\"/path/to/file.txt\",\"line_number\":5,\"columns\":{\"start\":5,\"end\":8},\"line\":\"hello world\",\"context_after\":[\"line with \\\"quotes\\\"\"]}\n"
    );
}


#[test]
fn test_format_match_json_line_with_special_chars() {
    let m = Match {
        line_number: 5,
        column_start: 0,
        column_end: 4,
        line: "a\tb".to_string(),
        path: "/path.txt".to_string(),
    };
    let result = format_match_json(&m, None);
    assert_eq!(
        result,
        "{\"type\":\"match\",\"path\":\"/path.txt\",\"line_number\":5,\"columns\":{\"start\":0,\"end\":4},\"line\":\"a\\tb\"}\n"
    );
}
