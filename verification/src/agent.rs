//! The agent's conversation: the history it keeps and what it decides at
//! each step of a turn.  Calling the model, doing the tools' work and
//! noticing a cancellation are the caller's part; the caller feeds each
//! result to the step that decides what follows.
use vstd::prelude::*;
use crate::api_types::{ApiResponse, ApiStreamChunk, Message, MessageRole, ToolCall};
use crate::openai::{call_view, copy_call};
use crate::json::{decode_json, json_value_of, JsonValue};
use crate::text::{push_str, string_of};
use crate::tools::{is_error_reply, reply_is_error};

verus! {

/// Receives what happens during a turn.
pub trait AgentEventHandler {
    fn on_assistant_text(&mut self, delta: &str);
    fn on_reasoning(&mut self, delta: &str);
    fn on_tool_call_start(&mut self, call_id: &str, name: &str, arguments: &str);
    fn on_tool_result(&mut self, call_id: &str, name: &str, content: &str, is_error: bool);
    fn on_usage(&mut self, input_tokens: i32, output_tokens: i32, cache_read_tokens: i32);
    fn on_error(&mut self, code: i32, message: &str);
}

/// Something a handler is told.
#[derive(Debug)]
pub enum AgentEvent {
    AssistantText(String),
    Reasoning(String),
    ToolCallStart { call_id: String, name: String, arguments: String },
    ToolResult { call_id: String, name: String, content: String, is_error: bool },
    Usage { input_tokens: i32, output_tokens: i32, cache_read_tokens: i32 },
    Error { code: i32, message: String },
}

impl AgentEvent {
    /// Hands the event to the matching method of `handler`.
    pub fn deliver<H: AgentEventHandler>(&self, handler: &mut H) {
        match self {
            AgentEvent::AssistantText(t) => handler.on_assistant_text(t.as_str()),
            AgentEvent::Reasoning(t) => handler.on_reasoning(t.as_str()),
            AgentEvent::ToolCallStart { call_id, name, arguments } => {
                handler.on_tool_call_start(call_id.as_str(), name.as_str(), arguments.as_str())
            },
            AgentEvent::ToolResult { call_id, name, content, is_error } => {
                handler.on_tool_result(call_id.as_str(), name.as_str(), content.as_str(), *is_error)
            },
            AgentEvent::Usage { input_tokens, output_tokens, cache_read_tokens } => {
                handler.on_usage(*input_tokens, *output_tokens, *cache_read_tokens)
            },
            AgentEvent::Error { code, message } => handler.on_error(*code, message.as_str()),
        }
    }
}

/// A message as plain values: role, content, tool calls, the id of the
/// call it answers, the tool's name.
pub type MessageView = (MessageRole, Seq<char>, Seq<(Seq<char>, Seq<char>, Seq<char>, i32)>, Seq<char>, Seq<char>);

/// The plain values of a message.
pub open spec fn message_view(m: Message) -> MessageView {
    (m.role, m.content@, m.tool_calls@.map_values(|t: ToolCall| call_view(t)), m.tool_call_id@, m.name@)
}

/// A message with only a role and a content.
pub open spec fn plain_message(role: MessageRole, content: Seq<char>) -> MessageView {
    (role, content, Seq::empty(), Seq::empty(), Seq::empty())
}

fn make_message(role: MessageRole, content: String) -> (m: Message)
    ensures
        message_view(m) == plain_message(role, content@),
{
    let m = Message {
        role,
        content,
        tool_calls: Vec::new(),
        tool_call_id: String::new(),
        name: String::new(),
    };
    assert(m.tool_calls@.map_values(|t: ToolCall| call_view(t)) =~= Seq::empty());
    m
}

/// The conversation of one agent session, starting with its system
/// prompt, and the directory it works in.
pub struct AgentSession {
    pub history: Vec<Message>,
    pub cwd: String,
}

/// The message that ends the event of a cancelled turn.
pub open spec fn cancelled_message() -> Seq<char> {
    "task cancelled"@
}

/// The reply recorded for a tool call whose arguments are not JSON.
pub open spec fn invalid_arguments_text(arguments: Seq<char>) -> Seq<char> {
    "Error: tool call arguments are invalid JSON (truncated response?): "@ + arguments
}

/// What follows a response of the model.
#[derive(Debug)]
pub enum ResponseStep {
    /// The turn is over, after telling the handler the event, if any.
    Stop(Option<AgentEvent>),
    /// The tool calls to run, in order.
    RunTools(Vec<ToolCall>),
}

impl AgentSession {
    /// The plain values of the history.
    pub open spec fn history_view(&self) -> Seq<MessageView> {
        self.history@.map_values(|m: Message| message_view(m))
    }

    /// A session in `cwd` whose history is the system prompt alone.
    pub fn new(cwd: String, system_prompt: String) -> (r: Self)
        ensures
            r.cwd == cwd,
            r.history_view() == seq![plain_message(MessageRole::System, system_prompt@)],
    {
        let mut history: Vec<Message> = Vec::new();
        history.push(make_message(MessageRole::System, system_prompt));
        let r = AgentSession { history, cwd };
        assert(r.history_view() =~= seq![plain_message(MessageRole::System, system_prompt@)]);
        r
    }

    /// The number of messages in the history.
    pub fn history_len(&self) -> (r: usize)
        ensures
            r == self.history@.len(),
    {
        self.history.len()
    }

    /// Starts over: the history is the system prompt alone.
    pub fn reset(&mut self, system_prompt: String)
        ensures
            final(self).cwd == old(self).cwd,
            final(self).history_view() == seq![plain_message(MessageRole::System, system_prompt@)],
    {
        self.history.clear();
        self.history.push(make_message(MessageRole::System, system_prompt));
        assert(self.history_view() =~= seq![plain_message(MessageRole::System, system_prompt@)]);
    }

    /// Begins a turn: the user's message joins the history.
    pub fn begin_turn(&mut self, content: &str)
        ensures
            final(self).cwd == old(self).cwd,
            final(self).history_view() == old(self).history_view().push(
                plain_message(MessageRole::User, content@),
            ),
    {
        let ghost before = self.history_view();
        self.history.push(make_message(MessageRole::User, string_of(content)));
        assert(self.history_view() =~= before.push(plain_message(MessageRole::User, content@)));
    }

    /// Decides what follows a response of the model, given the text
    /// streamed with it and whether the turn was cancelled meanwhile: an
    /// error ends the turn with it; a cancellation ends it too; otherwise
    /// the answer joins the history and its tool calls are run, or the
    /// turn is over when it has none.
    pub fn finish_response(&mut self, resp: &ApiResponse, assistant_text: String, cancelled: bool) -> (r: ResponseStep)
        ensures
            final(self).cwd == old(self).cwd,
            resp.error.message@.len() != 0 ==> final(self).history_view() == old(self).history_view()
                && (r matches ResponseStep::Stop(Some(AgentEvent::Error { code, message })) && code
                == resp.error.code && message@ == resp.error.message@),
            resp.error.message@.len() == 0 && cancelled ==> final(self).history_view() == old(
                self,
            ).history_view() && (r matches ResponseStep::Stop(Some(AgentEvent::Error { code, message }))
                && code == 0 && message@ == cancelled_message()),
            resp.error.message@.len() == 0 && !cancelled ==> {
                let calls = resp.tool_calls@.map_values(|t: ToolCall| call_view(t));
                &&& final(self).history_view() == old(self).history_view().push(
                    (MessageRole::Assistant, assistant_text@, calls, Seq::empty(), Seq::empty()),
                )
                &&& if calls.len() == 0 {
                    r matches ResponseStep::Stop(None)
                } else {
                    r matches ResponseStep::RunTools(v) && v@.map_values(|t: ToolCall| call_view(t))
                        == calls
                }
            },
    {
        if !resp.error.message.as_str().is_empty() {
            return ResponseStep::Stop(
                Some(
                    AgentEvent::Error {
                        code: resp.error.code,
                        message: string_of(resp.error.message.as_str()),
                    },
                ),
            );
        }
        if cancelled {
            return ResponseStep::Stop(Some(cancelled_event()));
        }
        let ghost calls = resp.tool_calls@.map_values(|t: ToolCall| call_view(t));
        let mut kept: Vec<ToolCall> = Vec::new();
        let mut run: Vec<ToolCall> = Vec::new();
        let mut i: usize = 0;
        while i < resp.tool_calls.len()
            invariant
                i <= resp.tool_calls@.len(),
                calls == resp.tool_calls@.map_values(|t: ToolCall| call_view(t)),
                kept@.map_values(|t: ToolCall| call_view(t)) == calls.take(i as int),
                run@.map_values(|t: ToolCall| call_view(t)) == calls.take(i as int),
            decreases resp.tool_calls@.len() - i,
        {
            let ghost k0 = kept@.map_values(|t: ToolCall| call_view(t));
            let ghost r0 = run@.map_values(|t: ToolCall| call_view(t));
            kept.push(copy_call(&resp.tool_calls[i]));
            run.push(copy_call(&resp.tool_calls[i]));
            assert(kept@.map_values(|t: ToolCall| call_view(t)) =~= k0.push(calls[i as int]));
            assert(run@.map_values(|t: ToolCall| call_view(t)) =~= r0.push(calls[i as int]));
            assert(calls.take(i + 1) =~= calls.take(i as int).push(calls[i as int]));
            i += 1;
        }
        assert(calls.take(calls.len() as int) =~= calls);
        let ghost before = self.history_view();
        let msg = Message {
            role: MessageRole::Assistant,
            content: assistant_text,
            tool_calls: kept,
            tool_call_id: String::new(),
            name: String::new(),
        };
        self.history.push(msg);
        assert(self.history_view() =~= before.push(
            (MessageRole::Assistant, assistant_text@, calls, Seq::empty(), Seq::empty()),
        ));
        if run.len() == 0 {
            ResponseStep::Stop(None)
        } else {
            ResponseStep::RunTools(run)
        }
    }

    /// Records the reply to tool call `tc` and gives the event that
    /// reports it; the reply counts as an error when it starts with
    /// `Error:`.
    pub fn record_tool_result(&mut self, tc: &ToolCall, reply: String) -> (r: AgentEvent)
        ensures
            final(self).cwd == old(self).cwd,
            final(self).history_view() == old(self).history_view().push(
                (MessageRole::Tool, reply@, Seq::empty(), tc.id@, tc.function_name@),
            ),
            r matches AgentEvent::ToolResult { call_id, name, content, is_error } && call_id@
                == tc.id@ && name@ == tc.function_name@ && content@ == reply@ && is_error
                == is_error_reply(reply@),
    {
        let is_error = reply_is_error(reply.as_str());
        let event = AgentEvent::ToolResult {
            call_id: string_of(tc.id.as_str()),
            name: string_of(tc.function_name.as_str()),
            content: string_of(reply.as_str()),
            is_error,
        };
        let ghost before = self.history_view();
        let msg = Message {
            role: MessageRole::Tool,
            content: reply,
            tool_calls: Vec::new(),
            tool_call_id: string_of(tc.id.as_str()),
            name: string_of(tc.function_name.as_str()),
        };
        assert(msg.tool_calls@.map_values(|t: ToolCall| call_view(t)) =~= Seq::empty());
        self.history.push(msg);
        assert(self.history_view() =~= before.push(
            (MessageRole::Tool, reply@, Seq::empty(), tc.id@, tc.function_name@),
        ));
        event
    }
}

/// What a streamed piece of the answer tells the handler: text (also
/// added to `assistant_text`), reasoning, or token counts; nothing for the
/// rest.
pub fn stream_event(chunk: &ApiStreamChunk, assistant_text: &mut String) -> (r: Option<AgentEvent>)
    ensures
        match *chunk {
            ApiStreamChunk::Text(t) => final(assistant_text)@ == old(assistant_text)@ + t@ && (r matches Some(AgentEvent::AssistantText(u)) && u@ == t@),
            ApiStreamChunk::Reasoning(t) => final(assistant_text)@ == old(assistant_text)@ && (r matches Some(AgentEvent::Reasoning(u)) && u@ == t@),
            ApiStreamChunk::Usage { input_tokens, output_tokens } => final(assistant_text)@ == old(assistant_text)@ && (r matches Some(AgentEvent::Usage { input_tokens: a, output_tokens: b, cache_read_tokens: c }) && a == input_tokens && b == output_tokens && c == 0),
            _ => final(assistant_text)@ == old(assistant_text)@ && r is None,
        },
{
    match chunk {
        ApiStreamChunk::Text(t) => {
            push_str(assistant_text, t.as_str());
            Some(AgentEvent::AssistantText(string_of(t.as_str())))
        },
        ApiStreamChunk::Reasoning(t) => Some(AgentEvent::Reasoning(string_of(t.as_str()))),
        ApiStreamChunk::Usage { input_tokens, output_tokens } => Some(
            AgentEvent::Usage {
                input_tokens: *input_tokens,
                output_tokens: *output_tokens,
                cache_read_tokens: 0,
            },
        ),
        _ => None,
    }
}

/// The event that ends a cancelled turn.
pub fn cancelled_event() -> (r: AgentEvent)
    ensures
        r matches AgentEvent::Error { code, message } && code == 0 && message@ == cancelled_message(),
{
    AgentEvent::Error { code: 0, message: string_of("task cancelled") }
}

/// The event that announces tool call `tc`.
pub fn tool_call_started(tc: &ToolCall) -> (r: AgentEvent)
    ensures
        r matches AgentEvent::ToolCallStart { call_id, name, arguments } && call_id@ == tc.id@
            && name@ == tc.function_name@ && arguments@ == tc.arguments@,
{
    AgentEvent::ToolCallStart {
        call_id: string_of(tc.id.as_str()),
        name: string_of(tc.function_name.as_str()),
        arguments: string_of(tc.arguments.as_str()),
    }
}

/// The arguments of tool call `tc` decoded as JSON, or, when they are not
/// JSON, the reply recorded for the call (see [`invalid_arguments_reply`]).
pub fn tool_arguments(tc: &ToolCall) -> (r: Result<JsonValue, String>)
    ensures
        match json_value_of(tc.arguments@) {
            Some(v) => r == Ok::<JsonValue, String>(v),
            None => r matches Err(m) && m@ == invalid_arguments_text(tc.arguments@),
        },
{
    match decode_json(tc.arguments.as_str()) {
        Ok(v) => Ok(v),
        Err(_) => Err(invalid_arguments_reply(tc)),
    }
}

/// The reply recorded for tool call `tc` when its arguments are not JSON.
pub fn invalid_arguments_reply(tc: &ToolCall) -> (r: String)
    ensures
        r@ == invalid_arguments_text(tc.arguments@),
{
    let mut t = string_of("Error: tool call arguments are invalid JSON (truncated response?): ");
    push_str(&mut t, tc.arguments.as_str());
    t
}

} // verus!
