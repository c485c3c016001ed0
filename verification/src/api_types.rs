//! The chat-completion data model: roles, messages, tool calls, streamed
//! chunks and responses.
use vstd::prelude::*;
use crate::text::{push_str, string_of};
use crate::json::{as_str_spec, JsonValue};

verus! {

/// Who a message comes from.
#[derive(Debug, Clone, Copy, PartialEq, Eq, Structural)]
pub enum MessageRole {
    System,
    User,
    Assistant,
    Tool,
    Developer,
}

/// The wire name of a role.
pub open spec fn role_name(r: MessageRole) -> Seq<char> {
    match r {
        MessageRole::System => "system"@,
        MessageRole::User => "user"@,
        MessageRole::Assistant => "assistant"@,
        MessageRole::Tool => "tool"@,
        MessageRole::Developer => "developer"@,
    }
}

impl MessageRole {
    /// The wire name of the role (`"system"`, `"user"`, ...).
    pub fn as_str(&self) -> (r: &'static str)
        ensures
            r@ == role_name(*self),
    {
        match self {
            MessageRole::System => "system",
            MessageRole::User => "user",
            MessageRole::Assistant => "assistant",
            MessageRole::Tool => "tool",
            MessageRole::Developer => "developer",
        }
    }

    /// The wire name of the role as an owned string.
    pub fn to_string(&self) -> (r: String)
        ensures
            r@ == role_name(*self),
    {
        string_of(self.as_str())
    }
}

/// The role with wire name `s`, if any.
pub open spec fn role_from_name(s: Seq<char>) -> Option<MessageRole> {
    if s == "system"@ {
        Some(MessageRole::System)
    } else if s == "user"@ {
        Some(MessageRole::User)
    } else if s == "assistant"@ {
        Some(MessageRole::Assistant)
    } else if s == "tool"@ {
        Some(MessageRole::Tool)
    } else if s == "developer"@ {
        Some(MessageRole::Developer)
    } else {
        None
    }
}

fn str_equal(a: &str, b: &str) -> (r: bool)
    ensures
        r == (a@ == b@),
{
    let x = string_of(a);
    let y = string_of(b);
    x == y
}

/// Reads a role from its wire name; anything else is an error naming the
/// input.
pub fn parse_message_role(s: &str) -> (r: Result<MessageRole, String>)
    ensures
        role_from_name(s@) matches Some(role) ==> r == Ok::<MessageRole, String>(role),
        role_from_name(s@) is None ==> (r matches Err(e) && e@ == "invalid message role: "@ + s@),
{
    if str_equal(s, "system") {
        Ok(MessageRole::System)
    } else if str_equal(s, "user") {
        Ok(MessageRole::User)
    } else if str_equal(s, "assistant") {
        Ok(MessageRole::Assistant)
    } else if str_equal(s, "tool") {
        Ok(MessageRole::Tool)
    } else if str_equal(s, "developer") {
        Ok(MessageRole::Developer)
    } else {
        let mut e = string_of("invalid message role: ");
        push_str(&mut e, s);
        Err(e)
    }
}

impl std::str::FromStr for MessageRole {
    type Err = String;

    fn from_str(s: &str) -> (r: Result<Self, Self::Err>)
        ensures
            role_from_name(s@) matches Some(role) ==> r == Ok::<MessageRole, String>(role),
            role_from_name(s@) is None ==> (r matches Err(e) && e@ == "invalid message role: "@ + s@),
    {
        parse_message_role(s)
    }
}

/// A tool invocation requested by the model (possibly still being
/// streamed, with parts empty).
#[derive(Debug, Clone, PartialEq)]
pub struct ToolCall {
    pub id: String,
    pub function_name: String,
    pub arguments: String,
    pub tc_index: i32,
}

/// One message of a conversation.
#[derive(Debug, Clone, PartialEq)]
pub struct Message {
    pub role: MessageRole,
    pub content: String,
    pub tool_calls: Vec<ToolCall>,
    pub tool_call_id: String,
    pub name: String,
}

/// One piece of a streamed response.
#[derive(Debug, Clone, PartialEq)]
pub enum ApiStreamChunk {
    Text(String),
    Reasoning(String),
    Usage { input_tokens: i32, output_tokens: i32 },
    ToolCall(ToolCall),
    Done,
}

/// An error reported by the API (code 0 means none).
#[derive(Debug, Clone, PartialEq)]
pub struct ApiError {
    pub code: i32,
    pub message: String,
}

/// Token counts of one request.
#[derive(Debug, Clone, PartialEq, Default)]
pub struct ApiUsage {
    pub input_tokens: i32,
    pub output_tokens: i32,
    pub cache_read_tokens: i32,
}

/// A complete (non-streamed) response.
#[derive(Debug, Clone, PartialEq)]
pub struct ApiResponse {
    pub content: String,
    pub tool_calls: Vec<ToolCall>,
    pub usage: ApiUsage,
    pub error: ApiError,
    pub finish_reason: String,
}

impl Default for ApiResponse {
    /// An empty response without error.
    fn default() -> (r: Self)
        ensures
            r.content@.len() == 0,
            r.tool_calls@.len() == 0,
            r.usage.input_tokens == 0,
            r.usage.output_tokens == 0,
            r.usage.cache_read_tokens == 0,
            r.error.code == 0,
            r.error.message@.len() == 0,
            r.finish_reason@.len() == 0,
    {
        ApiResponse {
            content: String::new(),
            tool_calls: Vec::new(),
            usage: ApiUsage { input_tokens: 0, output_tokens: 0, cache_read_tokens: 0 },
            error: ApiError { code: 0, message: String::new() },
            finish_reason: String::new(),
        }
    }
}

/// Reading a role back from its wire name gives the role.
pub proof fn law_role_name_round_trip(r: MessageRole)
    ensures
        role_from_name(role_name(r)) == Some(r),
{
    reveal_strlit("system");
    reveal_strlit("user");
    reveal_strlit("assistant");
    reveal_strlit("tool");
    reveal_strlit("developer");
    match r {
        MessageRole::System => {},
        MessageRole::User => {
            assert("user"@[0] != "system"@[0]);
        },
        MessageRole::Assistant => {
            assert("assistant"@[0] != "system"@[0]);
            assert("assistant"@[0] != "user"@[0]);
        },
        MessageRole::Tool => {
            assert("tool"@[0] != "system"@[0]);
            assert("tool"@[0] != "user"@[0]);
            assert("tool"@[0] != "assistant"@[0]);
        },
        MessageRole::Developer => {
            assert("developer"@[0] != "system"@[0]);
            assert("developer"@[0] != "user"@[0]);
            assert("developer"@[0] != "assistant"@[0]);
            assert("developer"@[0] != "tool"@[0]);
        },
    }
}

/// A tool call as the chat API takes it back: its id, the type
/// `function`, and the function's name and arguments.
pub open spec fn is_tool_call_json(v: JsonValue, tc: ToolCall) -> bool {
    &&& v matches JsonValue::Object(f)
    &&& f@.len() == 3
    &&& f@[0].0@ == "id"@ && as_str_spec(f@[0].1) == Some(tc.id@)
    &&& f@[1].0@ == "type"@ && as_str_spec(f@[1].1) == Some("function"@)
    &&& f@[2].0@ == "function"@
    &&& f@[2].1 matches JsonValue::Object(g)
    &&& g@.len() == 2
    &&& g@[0].0@ == "name"@ && as_str_spec(g@[0].1) == Some(tc.function_name@)
    &&& g@[1].0@ == "arguments"@ && as_str_spec(g@[1].1) == Some(tc.arguments@)
}

/// A message as the chat API takes it: its role; an assistant message
/// with tool calls has no content and lists them; other messages have
/// their content; a tool message adds the id of the call it answers, and
/// the tool's name when there is one.
pub open spec fn is_message_json(v: JsonValue, m: Message) -> bool {
    &&& v matches JsonValue::Object(f)
    &&& f@.len() >= 2
    &&& f@[0].0@ == "role"@ && as_str_spec(f@[0].1) == Some(role_name(m.role))
    &&& f@[1].0@ == "content"@
    &&& if m.role == MessageRole::Assistant && m.tool_calls@.len() > 0 {
        &&& f@.len() == 3
        &&& f@[1].1 is Null
        &&& f@[2].0@ == "tool_calls"@
        &&& f@[2].1 matches JsonValue::Array(a)
        &&& a@.len() == m.tool_calls@.len()
        &&& forall|i: int| 0 <= i < a@.len() ==> is_tool_call_json(#[trigger] a@[i], m.tool_calls@[i])
    } else if m.role == MessageRole::Tool {
        &&& as_str_spec(f@[1].1) == Some(m.content@)
        &&& f@.len() == if m.name@.len() > 0 { 4int } else { 3int }
        &&& f@[2].0@ == "tool_call_id"@ && as_str_spec(f@[2].1) == Some(m.tool_call_id@)
        &&& m.name@.len() > 0 ==> f@[3].0@ == "name"@ && as_str_spec(f@[3].1) == Some(m.name@)
    } else {
        &&& f@.len() == 2
        &&& as_str_spec(f@[1].1) == Some(m.content@)
    }
}

fn str_entry(key: &str, value: &str) -> (r: (String, JsonValue))
    ensures
        r.0@ == key@,
        as_str_spec(r.1) == Some(value@),
{
    (string_of(key), JsonValue::Str(string_of(value)))
}

/// A tool call as the chat API takes it back (see [`is_tool_call_json`]).
pub fn tool_call_json(tc: &ToolCall) -> (r: JsonValue)
    ensures
        is_tool_call_json(r, *tc),
{
    let function = JsonValue::Object(vec![str_entry("name", tc.function_name.as_str()), str_entry("arguments", tc.arguments.as_str())]);
    JsonValue::Object(vec![str_entry("id", tc.id.as_str()), str_entry("type", "function"), (string_of("function"), function)])
}

impl Message {
    /// The message as the chat API takes it (see [`is_message_json`]).
    pub fn to_json_value(&self) -> (r: JsonValue)
        ensures
            is_message_json(r, *self),
    {
        let mut fields: Vec<(String, JsonValue)> = vec![str_entry("role", self.role.as_str())];
        let is_assistant = match self.role {
            MessageRole::Assistant => true,
            _ => false,
        };
        let is_tool = match self.role {
            MessageRole::Tool => true,
            _ => false,
        };
        if is_assistant && self.tool_calls.len() > 0 {
            fields.push((string_of("content"), JsonValue::Null));
            let mut calls: Vec<JsonValue> = Vec::new();
            let mut i: usize = 0;
            while i < self.tool_calls.len()
                invariant
                    i <= self.tool_calls@.len(),
                    calls@.len() == i,
                    forall|j: int| 0 <= j < i ==> is_tool_call_json(#[trigger] calls@[j], self.tool_calls@[j]),
                decreases self.tool_calls@.len() - i,
            {
                calls.push(tool_call_json(&self.tool_calls[i]));
                i += 1;
            }
            fields.push((string_of("tool_calls"), JsonValue::Array(calls)));
        } else {
            fields.push(str_entry("content", self.content.as_str()));
        }
        if is_tool {
            fields.push(str_entry("tool_call_id", self.tool_call_id.as_str()));
            if self.name.as_str().unicode_len() > 0 {
                fields.push(str_entry("name", self.name.as_str()));
            }
        }
        JsonValue::Object(fields)
    }
}

} // verus!
