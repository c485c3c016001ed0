use crown::api_types::{ApiError, ApiResponse, ApiStreamChunk, ApiUsage, Message, MessageRole, ToolCall};




#[test]
fn test_message_role_display() {
    assert_eq!(MessageRole::System.to_string(), "system");
    assert_eq!(MessageRole::User.to_string(), "user");
    assert_eq!(MessageRole::Assistant.to_string(), "assistant");
    assert_eq!(MessageRole::Tool.to_string(), "tool");
    assert_eq!(MessageRole::Developer.to_string(), "developer");
}


#[test]
fn test_message_role_from_str() {
    assert_eq!(
        "system".parse::<MessageRole>().unwrap(),
        MessageRole::System
    );
    assert_eq!("user".parse::<MessageRole>().unwrap(), MessageRole::User);
    assert_eq!(
        "assistant".parse::<MessageRole>().unwrap(),
        MessageRole::Assistant
    );
    assert_eq!("tool".parse::<MessageRole>().unwrap(), MessageRole::Tool);
    assert_eq!(
        "developer".parse::<MessageRole>().unwrap(),
        MessageRole::Developer
    );
    assert!("invalid".parse::<MessageRole>().is_err());
}


#[test]
fn test_simple_user_message() {
    let msg = Message {
        role: MessageRole::User,
        content: "Hello".to_string(),
        tool_calls: Vec::new(),
        tool_call_id: String::new(),
        name: String::new(),
    };
    assert_eq!(msg.role, MessageRole::User);
    assert_eq!(msg.content, "Hello");
    assert!(msg.tool_calls.is_empty());
    assert!(msg.tool_call_id.is_empty());
}


#[test]
fn test_assistant_message_with_tool_calls() {
    let tc = ToolCall {
        id: "call_123".to_string(),
        function_name: "read_file".to_string(),
        arguments: "{}".to_string(),
        tc_index: 0,
    };
    let msg = Message {
        role: MessageRole::Assistant,
        content: String::new(),
        tool_calls: vec![tc],
        tool_call_id: String::new(),
        name: String::new(),
    };
    assert_eq!(msg.role, MessageRole::Assistant);
    assert_eq!(msg.tool_calls.len(), 1);
    assert_eq!(msg.tool_calls[0].id, "call_123");
    assert_eq!(msg.tool_calls[0].function_name, "read_file");
}


#[test]
fn test_tool_result_message() {
    let msg = Message {
        role: MessageRole::Tool,
        content: "file contents".to_string(),
        tool_calls: Vec::new(),
        tool_call_id: "call_123".to_string(),
        name: "read_file".to_string(),
    };
    assert_eq!(msg.role, MessageRole::Tool);
    assert_eq!(msg.tool_call_id, "call_123");
    assert_eq!(msg.name, "read_file");
}


#[test]
fn test_developer_message() {
    let msg = Message {
        role: MessageRole::Developer,
        content: "reasoning instructions".to_string(),
        tool_calls: Vec::new(),
        tool_call_id: String::new(),
        name: String::new(),
    };
    assert_eq!(msg.role, MessageRole::Developer);
    assert_eq!(msg.content, "reasoning instructions");
}


#[test]
fn test_complete_tool_call() {
    let tc = ToolCall {
        id: "call_456".to_string(),
        function_name: "write_file".to_string(),
        arguments: "{\"path\":\"test.txt\"}".to_string(),
        tc_index: 0,
    };
    assert_eq!(tc.id, "call_456");
    assert_eq!(tc.function_name, "write_file");
    assert_eq!(tc.arguments, "{\"path\":\"test.txt\"}");
}


#[test]
fn test_partial_tool_call() {
    let tc = ToolCall {
        id: String::new(),
        function_name: String::new(),
        arguments: String::new(),
        tc_index: 0,
    };
    assert!(tc.id.is_empty());
    assert!(tc.function_name.is_empty());
    assert!(tc.arguments.is_empty());
}


#[test]
fn test_api_stream_chunk_text() {
    let c = ApiStreamChunk::Text("Hello World".to_string());
    if let ApiStreamChunk::Text(t) = &c {
        assert_eq!(t, "Hello World");
    } else {
        panic!("expected Text");
    }
}


#[test]
fn test_api_stream_chunk_reasoning() {
    let c = ApiStreamChunk::Reasoning("thinking step".to_string());
    if let ApiStreamChunk::Reasoning(r) = &c {
        assert_eq!(r, "thinking step");
    } else {
        panic!("expected Reasoning");
    }
}


#[test]
fn test_api_stream_chunk_usage() {
    let c = ApiStreamChunk::Usage {
        input_tokens: 10,
        output_tokens: 5,
    };
    if let ApiStreamChunk::Usage {
        input_tokens,
        output_tokens,
    } = &c
    {
        assert_eq!(*input_tokens, 10);
        assert_eq!(*output_tokens, 5);
    } else {
        panic!("expected Usage");
    }
}


#[test]
fn test_api_stream_chunk_tool_call() {
    let tc = ToolCall {
        id: "call_1".to_string(),
        function_name: "read_file".to_string(),
        arguments: "{}".to_string(),
        tc_index: 0,
    };
    let c = ApiStreamChunk::ToolCall(tc);
    if let ApiStreamChunk::ToolCall(t) = &c {
        assert_eq!(t.id, "call_1");
        assert_eq!(t.function_name, "read_file");
    } else {
        panic!("expected ToolCall");
    }
}


#[test]
fn test_api_stream_chunk_done() {
    let c = ApiStreamChunk::Done;
    assert!(matches!(c, ApiStreamChunk::Done));
}


#[test]
fn test_api_response_defaults() {
    let resp = ApiResponse::default();
    assert!(resp.content.is_empty());
    assert!(resp.tool_calls.is_empty());
    assert!(resp.finish_reason.is_empty());
    assert_eq!(resp.error.code, 0);
}


#[test]
fn test_api_response_with_content_and_usage() {
    let usage = ApiUsage {
        input_tokens: 10,
        output_tokens: 5,
        ..Default::default()
    };
    let resp = ApiResponse {
        content: "Hello".to_string(),
        usage,
        finish_reason: "stop".to_string(),
        ..Default::default()
    };
    assert_eq!(resp.content, "Hello");
    assert_eq!(resp.usage.input_tokens, 10);
    assert_eq!(resp.usage.output_tokens, 5);
    assert_eq!(resp.finish_reason, "stop");
}


#[test]
fn test_api_response_with_error() {
    let err = ApiError {
        code: 401,
        message: "invalid API key".to_string(),
    };
    let resp = ApiResponse {
        error: err,
        ..Default::default()
    };
    assert_eq!(resp.error.code, 401);
    assert_eq!(resp.error.message, "invalid API key");
}


#[test]
fn message_role_names_and_parse_errors() {
    assert_eq!(MessageRole::Developer.as_str(), "developer");
    assert_eq!(crown::api_types::parse_message_role("bogus"), Err("invalid message role: bogus".to_string()));
    for r in [MessageRole::System, MessageRole::User, MessageRole::Assistant, MessageRole::Tool, MessageRole::Developer] {
        assert_eq!(r.as_str().parse::<MessageRole>().unwrap(), r);
    }
}
