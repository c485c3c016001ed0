use crown::file_edit::{FileEditError, FileEditResult};
use crown::file_reader::{FileReaderError, FileReaderResult, LineRange};
use crown::file_writer::{FileWriterError, FileWriterResult};
use crown::json::JsonValue;
use crown::list_files::{ListFilesError, ListFilesResult};
use crown::search_files::{SearchFilesError, SearchFilesResult};
use crown::tools::{
    execute_command_reply, get_tool_definitions, list_files_reply, plan_tool, read_file_reply,
    replace_in_file_reply, reply_is_error, search_files_reply, write_file_reply, ToolPlan,
    ToolRequest,
};

fn to_json(v: &serde_json::Value) -> JsonValue {
    match v {
        serde_json::Value::Null => JsonValue::Null,
        serde_json::Value::Bool(b) => JsonValue::Bool(*b),
        serde_json::Value::Number(n) => JsonValue::Number(n.as_i64()),
        serde_json::Value::String(s) => JsonValue::Str(s.clone()),
        serde_json::Value::Array(a) => JsonValue::Array(a.iter().map(to_json).collect()),
        serde_json::Value::Object(m) => {
            JsonValue::Object(m.iter().map(|(k, x)| (k.clone(), to_json(x))).collect())
        }
    }
}

fn args(text: &str) -> JsonValue {
    to_json(&serde_json::from_str::<serde_json::Value>(text).unwrap())
}

fn reply(name: &str, a: &str) -> String {
    match plan_tool(name, &args(a)) {
        ToolPlan::Reply(t) => t,
        ToolPlan::Run(r) => panic!("expected a reply, got {:?}", r),
    }
}

fn required_of(tool_name: &str) -> Vec<String> {
    let tools = get_tool_definitions();
    let tool = tools.iter().find(|t| t.name == tool_name).unwrap();
    tool.parameters
        .get("required")
        .unwrap()
        .as_array()
        .unwrap()
        .iter()
        .map(|r| r.as_str().unwrap().to_string())
        .collect()
}

#[test]
fn test_get_tool_definitions_returns_seven() {
    let tools = get_tool_definitions();
    assert_eq!(tools.len(), 7);
}

#[test]
fn test_tool_names() {
    let tools = get_tool_definitions();
    let names: Vec<&str> = tools.iter().map(|t| t.name.as_str()).collect();
    assert!(names.contains(&"read_file"));
    assert!(names.contains(&"write_to_file"));
    assert!(names.contains(&"replace_in_file"));
    assert!(names.contains(&"execute_command"));
    assert!(names.contains(&"search_files"));
    assert!(names.contains(&"list_files"));
    assert!(names.contains(&"attempt_completion"));
}

#[test]
fn test_all_tools_have_descriptions() {
    let tools = get_tool_definitions();
    for tool in &tools {
        assert!(!tool.description.is_empty(), "Tool {} has no description", tool.name);
    }
}

#[test]
fn test_all_tools_have_parameters() {
    let tools = get_tool_definitions();
    for tool in &tools {
        assert_eq!(tool.parameters.get("type").and_then(|t| t.as_str()), Some("object"));
    }
}

#[test]
fn test_tool_parameter_structure() {
    let tools = get_tool_definitions();
    for tool in &tools {
        let props = tool.parameters.get("properties");
        assert!(props.is_some(), "Tool {} has no properties", tool.name);
        let required = tool.parameters.get("required");
        assert!(required.is_some(), "Tool {} has no required", tool.name);
    }
}

#[test]
fn test_read_file_requires_path() {
    assert!(required_of("read_file").iter().any(|r| r == "path"));
}

#[test]
fn test_write_to_file_requires_path_and_content() {
    let required = required_of("write_to_file");
    assert!(required.iter().any(|r| r == "path"));
    assert!(required.iter().any(|r| r == "content"));
}

#[test]
fn test_replace_in_file_requires_path_old_string_new_string() {
    let required = required_of("replace_in_file");
    assert!(required.iter().any(|r| r == "path"));
    assert!(required.iter().any(|r| r == "old_string"));
    assert!(required.iter().any(|r| r == "new_string"));
}

#[test]
fn test_execute_command_requires_command() {
    assert!(required_of("execute_command").iter().any(|r| r == "command"));
}

#[test]
fn test_search_files_requires_directory_regex() {
    let required = required_of("search_files");
    assert!(required.iter().any(|r| r == "directory"));
    assert!(required.iter().any(|r| r == "regex"));
}

#[test]
fn test_list_files_requires_path() {
    assert!(required_of("list_files").iter().any(|r| r == "path"));
}

#[test]
fn test_attempt_completion_requires_result() {
    assert!(required_of("attempt_completion").iter().any(|r| r == "result"));
}

#[test]
fn test_read_file_has_start_end_line_properties() {
    let tools = get_tool_definitions();
    let tool = tools.iter().find(|t| t.name == "read_file").unwrap();
    let props = tool.parameters.get("properties").unwrap();
    assert!(props.get("start_line").is_some());
    assert!(props.get("end_line").is_some());
    assert!(props.get("path").is_some());
}

#[test]
fn test_unknown_tool() {
    assert_eq!(reply("nonexistent_tool", "{}"), "Error: Unknown tool: nonexistent_tool");
}

#[test]
fn test_read_file_empty_path() {
    assert_eq!(reply("read_file", r#"{"path": ""}"#), "Error: path parameter is required");
}

#[test]
fn test_write_to_file_empty_path() {
    assert_eq!(
        reply("write_to_file", r#"{"path": "", "content": "test"}"#),
        "Error: path parameter is required"
    );
}

#[test]
fn test_replace_in_file_empty_path() {
    assert_eq!(
        reply("replace_in_file", r#"{"path": "", "old_string": "a", "new_string": "b"}"#),
        "Error: path parameter is required"
    );
}

#[test]
fn test_replace_in_file_empty_old_string() {
    assert_eq!(
        reply("replace_in_file", r#"{"path": "/tmp/test.txt", "old_string": "", "new_string": "b"}"#),
        "Error: old_string parameter is required"
    );
}

#[test]
fn test_execute_command_empty_command() {
    assert_eq!(reply("execute_command", r#"{"command": ""}"#), "Error: command parameter is required");
}

#[test]
fn test_search_files_empty_directory() {
    assert_eq!(
        reply("search_files", r#"{"directory": "", "regex": "pattern"}"#),
        "Error: directory parameter is required"
    );
}

#[test]
fn test_search_files_empty_regex() {
    assert_eq!(
        reply("search_files", r#"{"directory": "/tmp", "regex": ""}"#),
        "Error: regex parameter is required"
    );
}

#[test]
fn test_list_files_empty_path() {
    assert_eq!(reply("list_files", r#"{"path": ""}"#), "Error: path parameter is required");
}

#[test]
fn test_attempt_completion_mark() {
    assert_eq!(reply("attempt_completion", r#"{"result": "Task done"}"#), "[COMPLETION]Task done");
}

#[test]
fn test_attempt_completion_empty_result() {
    assert_eq!(reply("attempt_completion", r#"{"result": ""}"#), "[COMPLETION]");
}

#[test]
fn test_plan_read_file_with_lines() {
    match plan_tool("read_file", &args(r#"{"path": "a.rs", "start_line": 3, "end_line": 4294967301}"#)) {
        ToolPlan::Run(ToolRequest::ReadFile { path, start_line, end_line }) => {
            assert_eq!(path, "a.rs");
            assert_eq!(start_line, 3);
            // the value is cut to 32 bits
            assert_eq!(end_line, 5);
        }
        other => panic!("unexpected plan {:?}", other),
    }
}

#[test]
fn test_plan_search_default_pattern_and_write_default_content() {
    match plan_tool("search_files", &args(r#"{"directory": "src", "regex": "fn"}"#)) {
        ToolPlan::Run(ToolRequest::SearchFiles { directory, regex, file_pattern }) => {
            assert_eq!(directory, "src");
            assert_eq!(regex, "fn");
            assert_eq!(file_pattern, "*");
        }
        other => panic!("unexpected plan {:?}", other),
    }
    match plan_tool("write_to_file", &args(r#"{"path": "x"}"#)) {
        ToolPlan::Run(ToolRequest::WriteFile { path, content }) => {
            assert_eq!(path, "x");
            assert_eq!(content, "");
        }
        other => panic!("unexpected plan {:?}", other),
    }
}

#[test]
fn test_command_reply_text() {
    assert_eq!(
        execute_command_reply("hello", "", 0, false, Some("0.12")),
        "STDOUT:\nhello\nExit code: 0\nExecution time: 0.12s"
    );
    assert_eq!(
        execute_command_reply("", "oops", 1, true, None),
        "STDERR:\noops\nExit code: 1 (abnormal exit)"
    );
}

#[test]
fn test_file_replies() {
    let ok_read = FileReaderResult {
        content: "1 | a".to_string(),
        range: LineRange { start_line: 1, end_line: 1, total_lines: 1, truncated: 0 },
        error: FileReaderError::Success,
        error_message: String::new(),
    };
    assert_eq!(read_file_reply(&ok_read), "1 | a");
    let bad_read = FileReaderResult {
        content: String::new(),
        range: LineRange { start_line: 0, end_line: 0, total_lines: 0, truncated: 0 },
        error: FileReaderError::FileNotFound,
        error_message: "no such file".to_string(),
    };
    assert_eq!(read_file_reply(&bad_read), "Error: no such file");
    let w = FileWriterResult { error: FileWriterError::Success, error_message: String::new() };
    assert_eq!(write_file_reply(&w), "File written successfully.");
    let e = FileEditResult { error: FileEditError::Success, error_message: String::new(), match_count: 2 };
    assert_eq!(replace_in_file_reply(&e), "File updated. 2 match(es) replaced.");
}

#[test]
fn test_search_and_list_replies() {
    let none = SearchFilesResult {
        results: String::new(),
        match_count: 0,
        error: SearchFilesError::Success,
        error_message: String::new(),
    };
    assert_eq!(search_files_reply(&none), "No matches found.");
    let some = SearchFilesResult {
        results: "a.rs:1: x".to_string(),
        match_count: 1,
        error: SearchFilesError::Success,
        error_message: String::new(),
    };
    assert_eq!(search_files_reply(&some), "a.rs:1: x\n(1 matches found)");
    let listing = ListFilesResult {
        entries: vec!["a.txt".to_string(), "b.txt".to_string()],
        count: 2,
        did_hit_limit: false,
        error: ListFilesError::Success,
        error_message: String::new(),
    };
    assert_eq!(list_files_reply(&listing), "  a.txt\n  b.txt\n\n2 entries");
    let full = ListFilesResult {
        entries: vec!["a".to_string()],
        count: 1,
        did_hit_limit: true,
        error: ListFilesError::Success,
        error_message: String::new(),
    };
    assert_eq!(list_files_reply(&full), "  a\n\n1 entries (list truncated at 200)");
    let empty = ListFilesResult {
        entries: vec![],
        count: 0,
        did_hit_limit: false,
        error: ListFilesError::Success,
        error_message: String::new(),
    };
    assert_eq!(list_files_reply(&empty), "(empty directory)");
}

#[test]
fn test_reply_is_error() {
    assert!(reply_is_error("Error: x"));
    assert!(!reply_is_error("Err"));
    assert!(!reply_is_error("File written successfully."));
}
