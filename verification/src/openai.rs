//! The OpenAI-compatible chat API: reading responses and streamed events
//! (decoded from JSON by the caller), and assembling a streamed answer.
use vstd::prelude::*;
use crate::api_types::{is_message_json, ApiError, ApiResponse, ApiStreamChunk, ApiUsage, Message, ToolCall};
use crate::tools::Tool;
use crate::json::{
    as_i64_spec, as_str_spec, decode_json, get_i64, get_spec, get_str, i64_member, json_value_of, str_member, str_or,
    str_or_empty, text_or, JsonValue,
};
use crate::text::{chars_of, push_str, string_of};

verus! {

/// A token count as the API's `i64` read into an `i32` (wrapping, as a
/// cast does), or 0 when missing.
pub open spec fn count_of(n: Option<i64>) -> i32 {
    match n {
        Some(v) => v as i32,
        None => 0,
    }
}

fn count_from(n: Option<i64>) -> (r: i32)
    ensures
        r == count_of(n),
{
    match n {
        Some(v) => {
            #[verifier::truncate]
            let c = v as i32;
            c
        },
        None => 0,
    }
}

/// The member `key` of an optional object.
pub open spec fn get_in(v: Option<JsonValue>, key: Seq<char>) -> Option<JsonValue> {
    match v {
        Some(x) => get_spec(x, key),
        None => None,
    }
}

/// A tool call read from a response: its id, function name and arguments
/// (each empty when missing), at index 0.
pub open spec fn is_read_tool_call(t: ToolCall, v: JsonValue) -> bool {
    let f = get_spec(v, "function"@);
    &&& t.id@ == text_or(str_member(v, "id"@), Seq::empty())
    &&& t.function_name@ == text_or(
        match f {
            Some(x) => str_member(x, "name"@),
            None => None,
        },
        Seq::empty(),
    )
    &&& t.arguments@ == text_or(
        match f {
            Some(x) => str_member(x, "arguments"@),
            None => None,
        },
        Seq::empty(),
    )
}

/// Whether a response carries this error and otherwise nothing.
pub open spec fn is_error_response(r: ApiResponse, code: i32, message: Seq<char>, usage: ApiUsage) -> bool {
    &&& r.error.code == code
    &&& r.error.message@ == message
    &&& r.content@.len() == 0
    &&& r.tool_calls@.len() == 0
    &&& r.finish_reason@.len() == 0
    &&& r.usage == usage
}

/// The usage a response reports (zero counts where missing).
pub open spec fn usage_of(root: JsonValue) -> ApiUsage {
    let u = get_spec(root, "usage"@);
    ApiUsage {
        input_tokens: match u {
            Some(x) => match i64_member(x, "prompt_tokens"@) {
                Some(v) => v as i32,
                None => 0,
            },
            None => 0,
        },
        output_tokens: match u {
            Some(x) => match i64_member(x, "completion_tokens"@) {
                Some(v) => v as i32,
                None => 0,
            },
            None => 0,
        },
        cache_read_tokens: match u {
            Some(x) => match i64_member(x, "cache_read_tokens"@) {
                Some(v) => v as i32,
                None => 0,
            },
            None => 0,
        },
    }
}

/// The choices of a response, when it has a non-empty array of them.
pub open spec fn choices_of(root: JsonValue) -> Option<Seq<JsonValue>> {
    match get_spec(root, "choices"@) {
        Some(JsonValue::Array(a)) => if a@.len() > 0 {
            Some(a@)
        } else {
            None
        },
        _ => None,
    }
}

/// The content of a response message: its `content` text, empty when the
/// member is missing, `null` or not a string.
pub open spec fn message_content(msg: Option<JsonValue>) -> Seq<char> {
    match get_in(msg, "content"@) {
        Some(c) => text_or(as_str_spec(c), Seq::empty()),
        None => Seq::empty(),
    }
}

/// The tool calls of a response message.
pub open spec fn message_tool_calls(msg: Option<JsonValue>) -> Seq<JsonValue> {
    match get_in(msg, "tool_calls"@) {
        Some(JsonValue::Array(a)) => a@,
        _ => Seq::empty(),
    }
}

/// What a non-streamed chat response says.  `root` is the decoded body
/// (nothing when the body is not JSON): an error member gives an error
/// response; no choices give the usage alone when it counts tokens, else
/// an error; otherwise the first choice gives the content, tool calls and
/// finish reason.
pub open spec fn chat_response_spec(r: ApiResponse, root: Option<JsonValue>) -> bool {
    match root {
        None => is_error_response(
            r,
            0,
            "invalid JSON response"@,
            ApiUsage { input_tokens: 0, output_tokens: 0, cache_read_tokens: 0 },
        ),
        Some(v) => match get_spec(v, "error"@) {
            Some(e) => is_error_response(
                r,
                count_of(i64_member(e, "code"@)),
                text_or(str_member(e, "message"@), Seq::empty()),
                ApiUsage { input_tokens: 0, output_tokens: 0, cache_read_tokens: 0 },
            ),
            None => {
                let usage = usage_of(v);
                match choices_of(v) {
                    None => if usage.input_tokens > 0 || usage.output_tokens > 0 {
                        is_error_response(r, 0, Seq::empty(), usage)
                    } else {
                        is_error_response(r, 0, "no choices in response"@, usage)
                    },
                    Some(cs) => {
                        let choice = cs[0];
                        let msg = get_spec(choice, "message"@);
                        let tcs = message_tool_calls(msg);
                        &&& r.error.code == 0
                        &&& r.error.message@.len() == 0
                        &&& r.usage == usage
                        &&& r.finish_reason@ == text_or(
                            str_member(choice, "finish_reason"@),
                            Seq::empty(),
                        )
                        &&& r.content@ == message_content(msg)
                        &&& r.tool_calls@.len() == tcs.len()
                        &&& forall|i: int|
                            0 <= i < tcs.len() ==> is_read_tool_call(#[trigger] r.tool_calls@[i], tcs[i])
                                && r.tool_calls@[i].tc_index == 0
                    },
                }
            },
        },
    }
}

fn empty_usage() -> (u: ApiUsage)
    ensures
        u == (ApiUsage { input_tokens: 0, output_tokens: 0, cache_read_tokens: 0 }),
{
    ApiUsage { input_tokens: 0, output_tokens: 0, cache_read_tokens: 0 }
}

fn error_response(code: i32, message: String, usage: ApiUsage) -> (r: ApiResponse)
    ensures
        is_error_response(r, code, message@, usage),
{
    ApiResponse {
        content: String::new(),
        tool_calls: Vec::new(),
        usage,
        error: ApiError { code, message },
        finish_reason: String::new(),
    }
}

fn read_usage(root: &JsonValue) -> (u: ApiUsage)
    ensures
        u == usage_of(*root),
{
    match root.get("usage") {
        Some(u) => ApiUsage {
            input_tokens: count_from(get_i64(u, "prompt_tokens")),
            output_tokens: count_from(get_i64(u, "completion_tokens")),
            cache_read_tokens: count_from(get_i64(u, "cache_read_tokens")),
        },
        None => empty_usage(),
    }
}

fn read_tool_call(v: &JsonValue) -> (t: ToolCall)
    ensures
        is_read_tool_call(t, *v),
        t.tc_index == 0,
{
    let id = str_or_empty(v, "id");
    let (name, args) = match v.get("function") {
        Some(f) => (str_or_empty(f, "name"), str_or_empty(f, "arguments")),
        None => (String::new(), String::new()),
    };
    ToolCall { id, function_name: name, arguments: args, tc_index: 0 }
}

/// Reads a non-streamed chat response from its JSON text: the decoded
/// document read as [`read_chat_response`] reads it.
pub fn parse_chat_response(body: &str) -> (r: ApiResponse)
    ensures
        chat_response_spec(r, json_value_of(body@)),
{
    match decode_json(body) {
        Ok(v) => read_chat_response(Some(&v)),
        Err(_) => read_chat_response(None),
    }
}

/// Reads a decoded non-streamed chat response (see [`chat_response_spec`]);
/// nothing stands for a body that is not JSON.
pub fn read_chat_response(root: Option<&JsonValue>) -> (r: ApiResponse)
    ensures
        chat_response_spec(
            r,
            match root {
                Some(v) => Some(*v),
                None => None,
            },
        ),
{
    let root = match root {
        Some(v) => v,
        None => return error_response(0, string_of("invalid JSON response"), empty_usage()),
    };
    if let Some(err) = root.get("error") {
        let code = count_from(get_i64(err, "code"));
        let msg = str_or_empty(err, "message");
        return error_response(code, msg, empty_usage());
    }
    let usage = read_usage(root);
    let choices = match root.get("choices") {
        Some(c) => match c.as_array() {
            Some(a) => if a.len() > 0 {
                Some(a)
            } else {
                None
            },
            None => None,
        },
        None => None,
    };
    let choices = match choices {
        Some(c) => c,
        None => {
            if usage.input_tokens > 0 || usage.output_tokens > 0 {
                return error_response(0, String::new(), usage);
            }
            return error_response(0, string_of("no choices in response"), usage);
        },
    };
    let choice = &choices[0];
    let finish_reason = str_or_empty(choice, "finish_reason");
    let msg = choice.get("message");
    let ghost msg_spec = match msg {
        Some(m) => Some(*m),
        None => None::<JsonValue>,
    };
    let mut content = String::new();
    let mut tool_calls: Vec<ToolCall> = Vec::new();
    if let Some(m) = msg {
        if let Some(c) = m.get("content") {
            if !c.is_null() {
                content = match c.as_str() {
                    Some(s) => string_of(s),
                    None => String::new(),
                };
            }
        }
        if let Some(tcs_val) = m.get("tool_calls") {
            if let Some(tcs) = tcs_val.as_array() {
                let mut i: usize = 0;
                while i < tcs.len()
                    invariant
                        i <= tcs@.len(),
                        tool_calls@.len() == i,
                        forall|k: int|
                            0 <= k < i ==> is_read_tool_call(#[trigger] tool_calls@[k], tcs@[k])
                                && tool_calls@[k].tc_index == 0,
                    decreases tcs@.len() - i,
                {
                    let t = read_tool_call(&tcs[i]);
                    tool_calls.push(t);
                    i += 1;
                }
            }
        }
    }
    assert(content@ == message_content(msg_spec));
    ApiResponse {
        content,
        tool_calls,
        usage,
        error: ApiError { code: 0, message: String::new() },
        finish_reason,
    }
}


// ---------------------------------------------------------------------
// Streamed events
// ---------------------------------------------------------------------

/// Whether `c` is a text chunk with text `s`.
pub open spec fn is_text_chunk(c: ApiStreamChunk, s: Seq<char>) -> bool {
    match c {
        ApiStreamChunk::Text(t) => t@ == s,
        _ => false,
    }
}

/// Whether `r` is the single chunk of text `s`.
pub open spec fn only_text(r: Seq<ApiStreamChunk>, s: Seq<char>) -> bool {
    r.len() == 1 && is_text_chunk(r[0], s)
}

/// A tool-call fragment read from a streamed delta: its index (0 when
/// missing) and whatever id, name and arguments it carries (empty when
/// missing).
pub open spec fn is_delta_tool_call(c: ApiStreamChunk, v: JsonValue) -> bool {
    match c {
        ApiStreamChunk::ToolCall(t) => t.tc_index == count_of(i64_member(v, "index"@))
            && is_read_tool_call(t, v),
        _ => false,
    }
}

/// The tool calls of a streamed delta.
pub open spec fn delta_tool_calls(d: JsonValue) -> Seq<JsonValue> {
    match get_spec(d, "tool_calls"@) {
        Some(JsonValue::Array(a)) => a@,
        _ => Seq::empty(),
    }
}

/// What one streamed event gives.  `data` is the event's data and `root`
/// its decoding: `[DONE]` ends the stream; an undecodable event, an error,
/// and an event without choices or delta give one empty text; a usage
/// event gives the counts; a delta gives its reasoning, else its tool-call
/// fragments, else its text.
pub open spec fn stream_event_spec(r: Seq<ApiStreamChunk>, data: Seq<char>, root: Option<JsonValue>) -> bool {
    if data == "[DONE]"@ {
        r.len() == 1 && r[0] is Done
    } else {
        match root {
            None => only_text(r, Seq::empty()),
            Some(v) => if get_spec(v, "error"@) is Some {
                only_text(r, Seq::empty())
            } else {
                match get_spec(v, "usage"@) {
                    Some(u) => r.len() == 1 && r[0] == ApiStreamChunk::Usage {
                        input_tokens: count_of(i64_member(u, "prompt_tokens"@)),
                        output_tokens: count_of(i64_member(u, "completion_tokens"@)),
                    },
                    None => match choices_of(v) {
                        None => only_text(r, Seq::empty()),
                        Some(cs) => match get_spec(cs[0], "delta"@) {
                            None => only_text(r, Seq::empty()),
                            Some(d) => match str_member(d, "reasoning_content"@) {
                                Some(rc) => r.len() == 1 && (r[0] matches ApiStreamChunk::Reasoning(
                                    x,
                                ) && x@ == rc),
                                None => {
                                    let tcs = delta_tool_calls(d);
                                    if tcs.len() > 0 {
                                        r.len() == tcs.len() && forall|i: int|
                                            0 <= i < tcs.len() ==> is_delta_tool_call(
                                                #[trigger] r[i],
                                                tcs[i],
                                            )
                                    } else {
                                        only_text(r, text_or(str_member(d, "content"@), Seq::empty()))
                                    }
                                },
                            },
                        },
                    },
                }
            },
        }
    }
}

fn text_chunk(s: String) -> (r: Vec<ApiStreamChunk>)
    ensures
        only_text(r@, s@),
{
    let mut v: Vec<ApiStreamChunk> = Vec::new();
    v.push(ApiStreamChunk::Text(s));
    v
}

fn read_delta_tool_call(v: &JsonValue) -> (c: ApiStreamChunk)
    ensures
        is_delta_tool_call(c, *v),
{
    let t = read_tool_call(v);
    ApiStreamChunk::ToolCall(
        ToolCall {
            id: t.id,
            function_name: t.function_name,
            arguments: t.arguments,
            tc_index: count_from(get_i64(v, "index")),
        },
    )
}

fn read_delta(d: &JsonValue) -> (r: Vec<ApiStreamChunk>)
    ensures
        match str_member(*d, "reasoning_content"@) {
            Some(rc) => r@.len() == 1 && (r@[0] matches ApiStreamChunk::Reasoning(x) && x@ == rc),
            None => {
                let tcs = delta_tool_calls(*d);
                if tcs.len() > 0 {
                    r@.len() == tcs.len() && forall|i: int|
                        0 <= i < tcs.len() ==> is_delta_tool_call(#[trigger] r@[i], tcs[i])
                } else {
                    only_text(r@, text_or(str_member(*d, "content"@), Seq::empty()))
                }
            },
        },
{
    if let Some(s) = get_str(d, "reasoning_content") {
        let mut v: Vec<ApiStreamChunk> = Vec::new();
        v.push(ApiStreamChunk::Reasoning(string_of(s)));
        return v;
    }
    if let Some(tv) = d.get("tool_calls") {
        if let Some(tcs) = tv.as_array() {
            if tcs.len() > 0 {
                let mut out: Vec<ApiStreamChunk> = Vec::new();
                let mut i: usize = 0;
                while i < tcs.len()
                    invariant
                        i <= tcs@.len(),
                        out@.len() == i,
                        forall|k: int| 0 <= k < i ==> is_delta_tool_call(#[trigger] out@[k], tcs@[k]),
                    decreases tcs@.len() - i,
                {
                    out.push(read_delta_tool_call(&tcs[i]));
                    i += 1;
                }
                return out;
            }
        }
    }
    text_chunk(str_or_empty(d, "content"))
}

/// Reads one streamed event from its data text (see [`stream_event_spec`]):
/// the data decoded as JSON, read as [`read_stream_event`] reads it.
pub fn parse_stream_event(data: &str) -> (r: Vec<ApiStreamChunk>)
    ensures
        stream_event_spec(r@, data@, json_value_of(data@)),
{
    match decode_json(data) {
        Ok(v) => read_stream_event(data, Some(&v)),
        Err(_) => read_stream_event(data, None),
    }
}

/// Reads one streamed event (see [`stream_event_spec`]); `root` is the
/// decoding of `data`, when it is JSON.
pub fn read_stream_event(data: &str, root: Option<&JsonValue>) -> (r: Vec<ApiStreamChunk>)
    ensures
        stream_event_spec(
            r@,
            data@,
            match root {
                Some(v) => Some(*v),
                None => None,
            },
        ),
{
    if string_of(data) == string_of("[DONE]") {
        let mut v: Vec<ApiStreamChunk> = Vec::new();
        v.push(ApiStreamChunk::Done);
        return v;
    }
    let root = match root {
        Some(v) => v,
        None => return text_chunk(String::new()),
    };
    if root.get("error").is_some() {
        return text_chunk(String::new());
    }
    if let Some(u) = root.get("usage") {
        let mut v: Vec<ApiStreamChunk> = Vec::new();
        v.push(
            ApiStreamChunk::Usage {
                input_tokens: count_from(get_i64(u, "prompt_tokens")),
                output_tokens: count_from(get_i64(u, "completion_tokens")),
            },
        );
        return v;
    }
    if let Some(c) = root.get("choices") {
        if let Some(cs) = c.as_array() {
            if cs.len() > 0 {
                return match cs[0].get("delta") {
                    None => text_chunk(String::new()),
                    Some(d) => read_delta(d),
                };
            }
        }
    }
    text_chunk(String::new())
}

// ---------------------------------------------------------------------
// Requests and responses
// ---------------------------------------------------------------------

/// The chat-completions path.
pub open spec fn completions_path() -> Seq<char> {
    "/chat/completions"@
}

/// The endpoint for a base URL: the URL itself when it already ends with
/// the chat-completions path, else the URL with that path added.
pub open spec fn endpoint_for(base: Seq<char>) -> Seq<char> {
    let p = completions_path();
    if p.len() <= base.len() && base.skip(base.len() - p.len()) == p {
        base
    } else {
        base + p
    }
}

/// The endpoint requests for `base_url` go to (see [`endpoint_for`]).
pub fn chat_endpoint(base_url: &str) -> (r: String)
    ensures
        r@ == endpoint_for(base_url@),
{
    let b = chars_of(base_url);
    let p = chars_of("/chat/completions");
    if p.len() <= b.len() {
        let off = b.len() - p.len();
        let mut i: usize = 0;
        while i < p.len() && b[off + i] == p[i]
            invariant
                i <= p@.len(),
                off + p@.len() == b@.len(),
                b@.len() == b.len(),
                p@.len() == p.len(),
                forall|j: int| 0 <= j < i ==> b@[off + j] == p@[j],
            decreases p@.len() - i,
        {
            i += 1;
        }
        if i == p.len() {
            assert(b@.skip(off as int) =~= p@);
            return string_of(base_url);
        }
        assert(b@.skip(off as int)[i as int] == b@[off + i]);
    }
    let mut r = string_of(base_url);
    push_str(&mut r, "/chat/completions");
    r
}

/// The response to a non-streamed request, from the HTTP outcome: no
/// status (the request failed) reports the transport's error, a status
/// other than 200 reports the status and the body, and 200 reads the body
/// as JSON (see [`parse_chat_response`]).
pub fn chat_response_from_http(status_code: i32, error_text: &str, body: &str) -> (r: ApiResponse)
    ensures
        status_code == 0 ==> is_error_response(
            r,
            0,
            error_text@,
            ApiUsage { input_tokens: 0, output_tokens: 0, cache_read_tokens: 0 },
        ),
        status_code != 0 && status_code != 200 ==> is_error_response(
            r,
            status_code,
            body@,
            ApiUsage { input_tokens: 0, output_tokens: 0, cache_read_tokens: 0 },
        ),
        status_code == 200 ==> chat_response_spec(r, json_value_of(body@)),
{
    if status_code == 0 {
        return error_response(0, string_of(error_text), empty_usage());
    }
    if status_code != 200 {
        return error_response(status_code, string_of(body), empty_usage());
    }
    parse_chat_response(body)
}


// ---------------------------------------------------------------------
// Assembling a streamed answer
// ---------------------------------------------------------------------

/// A tool call as plain values: id, function name, arguments, index.
pub open spec fn call_view(t: ToolCall) -> (Seq<char>, Seq<char>, Seq<char>, i32) {
    (t.id@, t.function_name@, t.arguments@, t.tc_index)
}

/// A call after a fragment of it arrived: a non-empty id or name replaces
/// the one held, arguments are appended.
pub open spec fn merge_call(
    held: (Seq<char>, Seq<char>, Seq<char>, i32),
    f: (Seq<char>, Seq<char>, Seq<char>, i32),
) -> (Seq<char>, Seq<char>, Seq<char>, i32) {
    (
        if f.0.len() > 0 {
            f.0
        } else {
            held.0
        },
        if f.1.len() > 0 {
            f.1
        } else {
            held.1
        },
        held.2 + f.2,
        held.3,
    )
}

/// The position of the call with index `k`, or the number of calls.
pub open spec fn call_position(calls: Seq<(Seq<char>, Seq<char>, Seq<char>, i32)>, k: i32) -> int
    decreases calls.len(),
{
    if calls.len() == 0 {
        0
    } else if calls[0].3 == k {
        0
    } else {
        1 + call_position(calls.drop_first(), k)
    }
}

/// The calls after a fragment arrived: merged into the call with its
/// index, or added as a new call with that index.
pub open spec fn absorb_call(
    calls: Seq<(Seq<char>, Seq<char>, Seq<char>, i32)>,
    f: (Seq<char>, Seq<char>, Seq<char>, i32),
) -> Seq<(Seq<char>, Seq<char>, Seq<char>, i32)> {
    let i = call_position(calls, f.3);
    if 0 <= i < calls.len() {
        calls.update(i, merge_call(calls[i], f))
    } else {
        calls.push(merge_call((Seq::empty(), Seq::empty(), Seq::empty(), f.3), f))
    }
}

/// Whether no two calls share an index.
pub open spec fn distinct_indices(calls: Seq<(Seq<char>, Seq<char>, Seq<char>, i32)>) -> bool {
    forall|i: int, j: int| 0 <= i < j < calls.len() ==> calls[i].3 != calls[j].3
}

/// Whether `r` lists exactly the calls with a non-negative index, in
/// increasing index order.
pub open spec fn in_index_order(
    r: Seq<(Seq<char>, Seq<char>, Seq<char>, i32)>,
    calls: Seq<(Seq<char>, Seq<char>, Seq<char>, i32)>,
) -> bool {
    &&& forall|i: int, j: int| 0 <= i < j < r.len() ==> r[i].3 < r[j].3
    &&& forall|i: int| 0 <= i < r.len() ==> r[i].3 >= 0 && calls.contains(r[i])
    &&& forall|i: int| 0 <= i < calls.len() && calls[i].3 >= 0 ==> r.contains(calls[i])
}

/// The state of a streamed answer: the text so far, the token usage, and
/// the tool calls assembled from their fragments.
pub struct StreamAccumulator {
    pub content: String,
    pub usage: ApiUsage,
    pub calls: Vec<ToolCall>,
}

proof fn lemma_call_position(calls: Seq<(Seq<char>, Seq<char>, Seq<char>, i32)>, k: i32, p: int)
    requires
        0 <= p <= calls.len(),
        forall|j: int| 0 <= j < p ==> calls[j].3 != k,
        p == calls.len() || calls[p].3 == k,
    ensures
        call_position(calls, k) == p,
    decreases p,
{
    if p > 0 {
        lemma_call_position(calls.drop_first(), k, p - 1);
    }
}

pub(crate) fn copy_call(t: &ToolCall) -> (r: ToolCall)
    ensures
        call_view(r) == call_view(*t),
{
    ToolCall {
        id: string_of(t.id.as_str()),
        function_name: string_of(t.function_name.as_str()),
        arguments: string_of(t.arguments.as_str()),
        tc_index: t.tc_index,
    }
}

impl StreamAccumulator {
    /// The tool calls held, as plain values.
    pub open spec fn calls_view(&self) -> Seq<(Seq<char>, Seq<char>, Seq<char>, i32)> {
        self.calls@.map_values(|t: ToolCall| call_view(t))
    }

    /// Whether the held calls have distinct indices.
    pub open spec fn wf(&self) -> bool {
        distinct_indices(self.calls_view())
    }

    /// What is held, as plain values: the text, the input and output
    /// token counts, and the calls.
    pub open spec fn acc_view(&self) -> AccView {
        (self.content@, self.usage.input_tokens, self.usage.output_tokens, self.calls_view())
    }

    /// Nothing received yet.
    pub fn new() -> (a: Self)
        ensures
            a.wf(),
            a.content@.len() == 0,
            a.usage == (ApiUsage { input_tokens: 0, output_tokens: 0, cache_read_tokens: 0 }),
            a.calls_view().len() == 0,
            a.acc_view() == acc_fold(Seq::<ApiStreamChunk>::empty()),
    {
        let a = StreamAccumulator {
            content: String::new(),
            usage: ApiUsage { input_tokens: 0, output_tokens: 0, cache_read_tokens: 0 },
            calls: Vec::new(),
        };
        assert(a.calls_view() =~= Seq::<(Seq<char>, Seq<char>, Seq<char>, i32)>::empty());
        a
    }

    fn absorb(&mut self, f: &ToolCall) -> (merged: ToolCall)
        requires
            old(self).wf(),
        ensures
            final(self).wf(),
            final(self).calls_view() == absorb_call(old(self).calls_view(), call_view(*f)),
            final(self).content == old(self).content,
            final(self).usage == old(self).usage,
            call_view(merged) == absorb_call(old(self).calls_view(), call_view(*f))[call_position(
                absorb_call(old(self).calls_view(), call_view(*f)),
                f.tc_index,
            )],
    {
        let ghost cv = self.calls_view();
        let ghost fv = call_view(*f);
        let mut i: usize = 0;
        while i < self.calls.len() && self.calls[i].tc_index != f.tc_index
            invariant
                i <= self.calls@.len(),
                cv == self.calls@.map_values(|t: ToolCall| call_view(t)),
                forall|j: int| 0 <= j < i ==> cv[j].3 != f.tc_index,
            decreases self.calls@.len() - i,
        {
            assert(cv[i as int].3 == self.calls@[i as int].tc_index);
            i += 1;
        }
        proof {
            if i < cv.len() {
                assert(cv[i as int].3 == self.calls@[i as int].tc_index);
            }
            lemma_call_position(cv, f.tc_index, i as int);
        }
        let held = if i < self.calls.len() {
            copy_call(&self.calls[i])
        } else {
            ToolCall {
                id: String::new(),
                function_name: String::new(),
                arguments: String::new(),
                tc_index: f.tc_index,
            }
        };
        let id = if f.id.as_str().is_empty() {
            held.id
        } else {
            string_of(f.id.as_str())
        };
        let name = if f.function_name.as_str().is_empty() {
            held.function_name
        } else {
            string_of(f.function_name.as_str())
        };
        let mut args = held.arguments;
        push_str(&mut args, f.arguments.as_str());
        let merged = ToolCall { id, function_name: name, arguments: args, tc_index: held.tc_index };
        let out = copy_call(&merged);
        let ghost nv = absorb_call(cv, fv);
        if i < self.calls.len() {
            self.calls.set(i, merged);
            assert(self.calls_view() =~= nv);
            proof {
                lemma_call_position(nv, f.tc_index, i as int);
            }
        } else {
            self.calls.push(merged);
            assert(self.calls_view() =~= nv);
            proof {
                assert forall|j: int| 0 <= j < i implies nv[j].3 != f.tc_index by {
                    assert(nv[j] == cv[j]);
                }
                lemma_call_position(nv, f.tc_index, i as int);
            }
        }
        assert forall|a: int, b: int| 0 <= a < b < nv.len() implies nv[a].3 != nv[b].3 by {
            if a != i && b != i {
                assert(nv[a] == cv[a] && nv[b] == cv[b]);
            } else if a == i {
                assert(nv[b] == cv[b]);
            } else {
                assert(nv[a] == cv[a]);
            }
        }
        out
    }

    /// Takes one parsed chunk and returns the chunk to hand on, and
    /// whether the stream ends with it.  Text is collected; a positive
    /// token count replaces the one held; a tool-call fragment is merged
    /// into its call, and the whole call so far is handed on; `Done` ends
    /// the stream.
    pub fn accept(&mut self, chunk: ApiStreamChunk) -> (r: (ApiStreamChunk, bool))
        requires
            old(self).wf(),
        ensures
            final(self).wf(),
            final(self).acc_view() == acc_step(old(self).acc_view(), chunk),
            final(self).usage.cache_read_tokens == old(self).usage.cache_read_tokens,
            match chunk {
                ApiStreamChunk::Text(t) => {
                    &&& final(self).content@ == old(self).content@ + t@
                    &&& final(self).usage == old(self).usage
                    &&& final(self).calls_view() == old(self).calls_view()
                    &&& r == (chunk, false)
                },
                ApiStreamChunk::Reasoning(_) => {
                    &&& final(self).content == old(self).content
                    &&& final(self).usage == old(self).usage
                    &&& final(self).calls_view() == old(self).calls_view()
                    &&& r == (chunk, false)
                },
                ApiStreamChunk::Usage { input_tokens, output_tokens } => {
                    &&& final(self).content == old(self).content
                    &&& final(self).usage.input_tokens == if input_tokens > 0 {
                        input_tokens
                    } else {
                        old(self).usage.input_tokens
                    }
                    &&& final(self).usage.output_tokens == if output_tokens > 0 {
                        output_tokens
                    } else {
                        old(self).usage.output_tokens
                    }
                    &&& final(self).usage.cache_read_tokens == old(self).usage.cache_read_tokens
                    &&& final(self).calls_view() == old(self).calls_view()
                    &&& r == (chunk, false)
                },
                ApiStreamChunk::ToolCall(t) => {
                    let nv = absorb_call(old(self).calls_view(), call_view(t));
                    &&& final(self).content == old(self).content
                    &&& final(self).usage == old(self).usage
                    &&& final(self).calls_view() == nv
                    &&& r.0 matches ApiStreamChunk::ToolCall(e)
                    &&& call_view(e) == nv[call_position(nv, t.tc_index)]
                    &&& !r.1
                },
                ApiStreamChunk::Done => {
                    &&& final(self).content == old(self).content
                    &&& final(self).usage == old(self).usage
                    &&& final(self).calls_view() == old(self).calls_view()
                    &&& r == (chunk, true)
                },
            },
    {
        match chunk {
            ApiStreamChunk::Text(t) => {
                push_str(&mut self.content, t.as_str());
                (ApiStreamChunk::Text(t), false)
            },
            ApiStreamChunk::Reasoning(x) => (ApiStreamChunk::Reasoning(x), false),
            ApiStreamChunk::Usage { input_tokens, output_tokens } => {
                if input_tokens > 0 {
                    self.usage.input_tokens = input_tokens;
                }
                if output_tokens > 0 {
                    self.usage.output_tokens = output_tokens;
                }
                (ApiStreamChunk::Usage { input_tokens, output_tokens }, false)
            },
            ApiStreamChunk::ToolCall(t) => {
                let merged = self.absorb(&t);
                (ApiStreamChunk::ToolCall(merged), false)
            },
            ApiStreamChunk::Done => (ApiStreamChunk::Done, true),
        }
    }

    /// The assembled answer: the collected text and usage, and the tool
    /// calls with a non-negative index in increasing index order.
    pub fn finish(self) -> (r: ApiResponse)
        requires
            self.wf(),
        ensures
            r.content == self.content,
            r.usage == self.usage,
            r.error.code == 0,
            r.error.message@.len() == 0,
            r.finish_reason@.len() == 0,
            in_index_order(r.tool_calls@.map_values(|t: ToolCall| call_view(t)), self.calls_view()),
    {
        let ghost cv = self.calls_view();
        let mut out: Vec<ToolCall> = Vec::new();
        let mut last: i64 = -1;
        loop
            invariant
                cv == self.calls@.map_values(|t: ToolCall| call_view(t)),
                distinct_indices(cv),
                -1 <= last <= i32::MAX,
                forall|i: int, j: int|
                    0 <= i < j < out@.len() ==> out@[i].tc_index < out@[j].tc_index,
                forall|i: int|
                    0 <= i < out@.len() ==> out@[i].tc_index >= 0 && out@[i].tc_index <= last
                        && cv.contains(call_view(#[trigger] out@[i])),
                forall|i: int|
                    0 <= i < cv.len() && 0 <= cv[i].3 <= last ==> out@.map_values(
                        |t: ToolCall| call_view(t),
                    ).contains(cv[i]),
            ensures
                cv == self.calls@.map_values(|t: ToolCall| call_view(t)),
                in_index_order(out@.map_values(|t: ToolCall| call_view(t)), cv),
            decreases i32::MAX - last,
        {
            let mut best: usize = self.calls.len();
            let mut k: usize = 0;
            while k < self.calls.len()
                invariant
                    k <= self.calls@.len(),
                    cv == self.calls@.map_values(|t: ToolCall| call_view(t)),
                    best == self.calls@.len() || (best < k && self.calls@[best as int].tc_index
                        > last),
                    forall|j: int|
                        0 <= j < k && self.calls@[j].tc_index > last ==> best < self.calls@.len()
                            && self.calls@[best as int].tc_index <= self.calls@[j].tc_index,
                decreases self.calls@.len() - k,
            {
                let idx = self.calls[k].tc_index;
                if (idx as i64) > last && (best == self.calls.len() || idx
                    < self.calls[best].tc_index) {
                    best = k;
                }
                k += 1;
            }
            if best == self.calls.len() {
                proof {
                    assert forall|i: int| 0 <= i < cv.len() && cv[i].3 >= 0 implies out@.map_values(
                        |t: ToolCall| call_view(t),
                    ).contains(cv[i]) by {
                        assert(cv[i].3 == self.calls@[i].tc_index);
                    }
                    let ov = out@.map_values(|t: ToolCall| call_view(t));
                    assert forall|i: int, j: int| 0 <= i < j < ov.len() implies ov[i].3 < ov[j].3 by {
                        assert(ov[i].3 == out@[i].tc_index && ov[j].3 == out@[j].tc_index);
                    }
                    assert forall|i: int| 0 <= i < ov.len() implies ov[i].3 >= 0 && cv.contains(
                        ov[i],
                    ) by {
                        assert(ov[i] == call_view(out@[i]));
                    }
                }
                break;
            }
            let ghost ov = out@.map_values(|t: ToolCall| call_view(t));
            let ghost pick = cv[best as int];
            assert(pick == call_view(self.calls@[best as int]));
            let c = copy_call(&self.calls[best]);
            out.push(c);
            let ghost nov = out@.map_values(|t: ToolCall| call_view(t));
            assert(nov =~= ov.push(pick));
            let new_last = self.calls[best].tc_index as i64;
            proof {
                assert forall|i: int| 0 <= i < out@.len() implies out@[i].tc_index >= 0
                    && out@[i].tc_index <= new_last && cv.contains(call_view(#[trigger] out@[i])) by {
                    if i < out@.len() - 1 {
                        assert(call_view(out@[i]) == ov[i]);
                    } else {
                        assert(cv[best as int] == call_view(out@[i]));
                    }
                }
                assert forall|i: int| 0 <= i < cv.len() && 0 <= cv[i].3 <= new_last implies nov.contains(
                    cv[i],
                ) by {
                    assert(cv[i].3 == self.calls@[i].tc_index);
                    if cv[i].3 <= last {
                        let w = choose|w: int| 0 <= w < ov.len() && ov[w] == cv[i];
                        assert(nov[w] == ov[w]);
                    } else {
                        assert(cv[i].3 == new_last);
                        assert(i == best as int);
                        assert(nov[ov.len() as int] == pick);
                    }
                }
            }
            last = new_last;
        }
        let tool_calls = out;
        ApiResponse {
            content: self.content,
            tool_calls,
            usage: self.usage,
            error: ApiError { code: 0, message: String::new() },
            finish_reason: String::new(),
        }
    }
}


/// The calls after a series of fragments arrived, in order.
pub open spec fn absorb_all(
    calls: Seq<(Seq<char>, Seq<char>, Seq<char>, i32)>,
    fs: Seq<(Seq<char>, Seq<char>, Seq<char>, i32)>,
) -> Seq<(Seq<char>, Seq<char>, Seq<char>, i32)>
    decreases fs.len(),
{
    if fs.len() == 0 {
        calls
    } else {
        absorb_call(absorb_all(calls, fs.drop_last()), fs.last())
    }
}

/// The arguments of a series of fragments, joined in order.
pub open spec fn joined_arguments(fs: Seq<(Seq<char>, Seq<char>, Seq<char>, i32)>) -> Seq<char>
    decreases fs.len(),
{
    if fs.len() == 0 {
        Seq::empty()
    } else {
        joined_arguments(fs.drop_last()) + fs.last().2
    }
}

/// Fragments that all carry the same index build one call with that
/// index, whose arguments are the fragments' arguments joined in order.
pub proof fn law_fragments_of_one_call_concatenate(fs: Seq<(Seq<char>, Seq<char>, Seq<char>, i32)>, k: i32)
    requires
        fs.len() > 0,
        forall|i: int| 0 <= i < fs.len() ==> (#[trigger] fs[i]).3 == k,
    ensures
        absorb_all(Seq::empty(), fs).len() == 1,
        absorb_all(Seq::empty(), fs)[0].2 == joined_arguments(fs),
        absorb_all(Seq::empty(), fs)[0].3 == k,
    decreases fs.len(),
{
    let empty = Seq::<(Seq<char>, Seq<char>, Seq<char>, i32)>::empty();
    let f = fs.last();
    assert(f.3 == k);
    if fs.len() == 1 {
        assert(fs.drop_last() =~= empty);
        assert(absorb_all(empty, fs.drop_last()) == empty);
        assert(absorb_all(empty, fs) == absorb_call(empty, f));
        assert(call_position(empty, k) == 0);
        assert(joined_arguments(fs.drop_last()) =~= Seq::<char>::empty());
        assert(Seq::<char>::empty() + f.2 =~= f.2);
    } else {
        let d = fs.drop_last();
        assert forall|i: int| 0 <= i < d.len() implies (#[trigger] d[i]).3 == k by {
            assert(d[i] == fs[i]);
        }
        law_fragments_of_one_call_concatenate(d, k);
        let calls = absorb_all(empty, d);
        assert(call_position(calls, k) == 0);
        assert(absorb_all(empty, fs) == absorb_call(calls, f));
    }
}


/// A tool as the chat API takes it: the type `function` and the
/// function's name, description and parameter schema.
pub open spec fn is_tool_json(v: JsonValue, t: Tool) -> bool {
    &&& v matches JsonValue::Object(f)
    &&& f@.len() == 2
    &&& f@[0].0@ == "type"@ && as_str_spec(f@[0].1) == Some("function"@)
    &&& f@[1].0@ == "function"@
    &&& f@[1].1 matches JsonValue::Object(g)
    &&& g@.len() == 3
    &&& g@[0].0@ == "name"@ && as_str_spec(g@[0].1) == Some(t.name@)
    &&& g@[1].0@ == "description"@ && as_str_spec(g@[1].1) == Some(t.description@)
    &&& g@[2].0@ == "parameters"@ && g@[2].1 == t.parameters
}

/// The body of a chat request: the model, every message, no streaming,
/// the token limit when positive, and the tools when there are any.  (The
/// sampling temperature, a float, is added by the caller when positive.)
pub open spec fn is_chat_request(v: JsonValue, model: Seq<char>, max_tokens: i32, messages: Seq<Message>, tools: Seq<Tool>) -> bool {
    &&& v matches JsonValue::Object(f)
    &&& f@.len() == 3 + (if max_tokens > 0 { 1int } else { 0int }) + (if tools.len() > 0 { 1int } else { 0int })
    &&& f@[0].0@ == "model"@ && as_str_spec(f@[0].1) == Some(model)
    &&& f@[1].0@ == "messages"@
    &&& f@[1].1 matches JsonValue::Array(a)
    &&& a@.len() == messages.len()
    &&& forall|i: int| 0 <= i < a@.len() ==> is_message_json(#[trigger] a@[i], messages[i])
    &&& f@[2].0@ == "stream"@ && f@[2].1 == JsonValue::Bool(false)
    &&& max_tokens > 0 ==> f@[3].0@ == "max_tokens"@ && f@[3].1 == JsonValue::Number(Some(max_tokens as i64))
    &&& tools.len() > 0 ==> {
        let t = f@[f@.len() - 1];
        &&& t.0@ == "tools"@
        &&& t.1 matches JsonValue::Array(ts)
        &&& ts@.len() == tools.len()
        &&& forall|i: int| 0 <= i < ts@.len() ==> is_tool_json(#[trigger] ts@[i], tools[i])
    }
}

/// The body of a chat request (see [`is_chat_request`]).  The tools are
/// moved into it.
pub fn build_chat_request(model: &str, max_tokens: i32, messages: &Vec<Message>, tools: Vec<Tool>) -> (r: JsonValue)
    ensures
        is_chat_request(r, model@, max_tokens, messages@, tools@),
{
    let mut msgs: Vec<JsonValue> = Vec::new();
    let mut i: usize = 0;
    while i < messages.len()
        invariant
            i <= messages@.len(),
            msgs@.len() == i,
            forall|j: int| 0 <= j < i ==> is_message_json(#[trigger] msgs@[j], messages@[j]),
        decreases messages@.len() - i,
    {
        msgs.push(messages[i].to_json_value());
        i += 1;
    }
    let mut fields: Vec<(String, JsonValue)> = Vec::new();
    fields.push((string_of("model"), JsonValue::Str(string_of(model))));
    fields.push((string_of("messages"), JsonValue::Array(msgs)));
    fields.push((string_of("stream"), JsonValue::Bool(false)));
    if max_tokens > 0 {
        fields.push((string_of("max_tokens"), JsonValue::Number(Some(max_tokens as i64))));
    }
    let n = tools.len();
    if n > 0 {
        let ghost tv = tools@;
        let mut rest = tools;
        let mut out: Vec<JsonValue> = Vec::new();
        let mut k: usize = 0;
        while rest.len() > 0
            invariant
                k + rest@.len() == tv.len(),
                tv.len() == n,
                rest@ == tv.skip(k as int),
                out@.len() == k,
                forall|j: int| 0 <= j < k ==> is_tool_json(#[trigger] out@[j], tv[j]),
            decreases rest@.len(),
        {
            let t = rest.remove(0);
            assert(t == tv[k as int]);
            let function = JsonValue::Object(
                vec![
                    (string_of("name"), JsonValue::Str(t.name)),
                    (string_of("description"), JsonValue::Str(t.description)),
                    (string_of("parameters"), t.parameters),
                ],
            );
            out.push(JsonValue::Object(vec![(string_of("type"), JsonValue::Str(string_of("function"))), (string_of("function"), function)]));
            k += 1;
            assert(rest@ =~= tv.skip(k as int));
        }
        fields.push((string_of("tools"), JsonValue::Array(out)));
    }
    JsonValue::Object(fields)
}


// ---------------------------------------------------------------------
// A whole stream
// ---------------------------------------------------------------------

/// What an accumulator holds as plain values: text, input and output token
/// counts, calls.
pub type AccView = (Seq<char>, i32, i32, Seq<(Seq<char>, Seq<char>, Seq<char>, i32)>);

/// What accepting one chunk does (see [`StreamAccumulator::accept`]).
pub open spec fn acc_step(st: AccView, c: ApiStreamChunk) -> AccView {
    match c {
        ApiStreamChunk::Text(t) => (st.0 + t@, st.1, st.2, st.3),
        ApiStreamChunk::Usage { input_tokens, output_tokens } => (
            st.0,
            if input_tokens > 0 { input_tokens } else { st.1 },
            if output_tokens > 0 { output_tokens } else { st.2 },
            st.3,
        ),
        ApiStreamChunk::ToolCall(t) => (st.0, st.1, st.2, absorb_call(st.3, call_view(t))),
        _ => st,
    }
}

/// What a new accumulator holds after accepting `cs` in order.
pub open spec fn acc_fold(cs: Seq<ApiStreamChunk>) -> AccView
    decreases cs.len(),
{
    if cs.len() == 0 {
        (Seq::empty(), 0, 0, Seq::empty())
    } else {
        acc_step(acc_fold(cs.drop_last()), cs.last())
    }
}

/// The texts of the text chunks, joined in order.
pub open spec fn stream_text(cs: Seq<ApiStreamChunk>) -> Seq<char>
    decreases cs.len(),
{
    if cs.len() == 0 {
        Seq::empty()
    } else {
        match cs.last() {
            ApiStreamChunk::Text(t) => stream_text(cs.drop_last()) + t@,
            _ => stream_text(cs.drop_last()),
        }
    }
}

/// The last positive input (`input`) or output token count of the usage
/// chunks, or 0.
pub open spec fn last_count(cs: Seq<ApiStreamChunk>, input: bool) -> i32
    decreases cs.len(),
{
    if cs.len() == 0 {
        0
    } else {
        match cs.last() {
            ApiStreamChunk::Usage { input_tokens, output_tokens } => {
                let n = if input { input_tokens } else { output_tokens };
                if n > 0 { n } else { last_count(cs.drop_last(), input) }
            },
            _ => last_count(cs.drop_last(), input),
        }
    }
}

/// Whether some call has index `k`.
pub open spec fn has_call_index(calls: Seq<(Seq<char>, Seq<char>, Seq<char>, i32)>, k: i32) -> bool {
    exists|j: int| 0 <= j < calls.len() && #[trigger] calls[j].3 == k
}

/// Whether some tool-call chunk of `cs` has index `k`.
pub open spec fn stream_names_index(cs: Seq<ApiStreamChunk>, k: i32) -> bool {
    exists|m: int| 0 <= m < cs.len() && (#[trigger] cs[m] matches ApiStreamChunk::ToolCall(t) && t.tc_index == k)
}

proof fn lemma_call_position_found(calls: Seq<(Seq<char>, Seq<char>, Seq<char>, i32)>, k: i32)
    ensures
        0 <= call_position(calls, k) <= calls.len(),
        call_position(calls, k) < calls.len() ==> calls[call_position(calls, k)].3 == k,
        has_call_index(calls, k) <==> call_position(calls, k) < calls.len(),
    decreases calls.len(),
{
    if calls.len() > 0 && calls[0].3 != k {
        lemma_call_position_found(calls.drop_first(), k);
        if has_call_index(calls, k) {
            let j = choose|j: int| 0 <= j < calls.len() && #[trigger] calls[j].3 == k;
            assert(calls.drop_first()[j - 1].3 == k);
        }
        if call_position(calls, k) < calls.len() {
            assert(calls[call_position(calls, k)] == calls.drop_first()[call_position(calls, k) - 1]);
        }
    } else if calls.len() > 0 {
        assert(calls[0].3 == k);
    }
}

proof fn lemma_absorb_indices(calls: Seq<(Seq<char>, Seq<char>, Seq<char>, i32)>, f: (Seq<char>, Seq<char>, Seq<char>, i32), k: i32)
    requires
        distinct_indices(calls),
    ensures
        distinct_indices(absorb_call(calls, f)),
        has_call_index(absorb_call(calls, f), k) <==> has_call_index(calls, k) || k == f.3,
{
    let a = absorb_call(calls, f);
    lemma_call_position_found(calls, f.3);
    let p = call_position(calls, f.3);
    if p < calls.len() {
        assert forall|j: int| 0 <= j < calls.len() implies a[j].3 == calls[j].3 by {}
        if has_call_index(a, k) {
            let j = choose|j: int| 0 <= j < a.len() && #[trigger] a[j].3 == k;
            assert(calls[j].3 == k);
        }
        if has_call_index(calls, k) {
            let j = choose|j: int| 0 <= j < calls.len() && #[trigger] calls[j].3 == k;
            assert(a[j].3 == k);
        }
        if k == f.3 {
            assert(a[p].3 == k);
        }
    } else {
        assert forall|j: int| 0 <= j < calls.len() implies calls[j].3 != f.3 by {
            if calls[j].3 == f.3 {
                assert(has_call_index(calls, f.3));
            }
        }
        assert(a[calls.len() as int].3 == f.3);
        if has_call_index(a, k) {
            let j = choose|j: int| 0 <= j < a.len() && #[trigger] a[j].3 == k;
            if j < calls.len() {
                assert(a[j] == calls[j]);
            }
        }
        if has_call_index(calls, k) {
            let j = choose|j: int| 0 <= j < calls.len() && #[trigger] calls[j].3 == k;
            assert(a[j] == calls[j]);
        }
    }
}

/// Whatever chunks a new accumulator accepts, in order: its text is the
/// text chunks joined, its token counts are the last positive ones
/// received (0 when none), and it holds one call for each index the
/// tool-call chunks named, no index twice.
pub proof fn law_stream_fold(cs: Seq<ApiStreamChunk>)
    ensures
        acc_fold(cs).0 == stream_text(cs),
        acc_fold(cs).1 == last_count(cs, true),
        acc_fold(cs).2 == last_count(cs, false),
        distinct_indices(acc_fold(cs).3),
        forall|k: i32| #[trigger] has_call_index(acc_fold(cs).3, k) <==> stream_names_index(cs, k),
    decreases cs.len(),
{
    if cs.len() > 0 {
        let d = cs.drop_last();
        law_stream_fold(d);
        let prev = acc_fold(d).3;
        match cs.last() {
            ApiStreamChunk::ToolCall(t) => {
                assert forall|k: i32| #[trigger] has_call_index(acc_fold(cs).3, k) <==> stream_names_index(cs, k) by {
                    lemma_absorb_indices(prev, call_view(t), k);
                    if stream_names_index(d, k) {
                        let m = choose|m: int| 0 <= m < d.len() && (#[trigger] d[m] matches ApiStreamChunk::ToolCall(u) && u.tc_index == k);
                        assert(cs[m] == d[m]);
                    }
                    if stream_names_index(cs, k) && k != t.tc_index {
                        let m = choose|m: int| 0 <= m < cs.len() && (#[trigger] cs[m] matches ApiStreamChunk::ToolCall(u) && u.tc_index == k);
                        assert(d[m] == cs[m]);
                    }
                    if k == t.tc_index {
                        assert(cs[cs.len() - 1] == cs.last());
                    }
                }
                lemma_absorb_indices(prev, call_view(t), 0);
            },
            _ => {
                assert forall|k: i32| #[trigger] has_call_index(acc_fold(cs).3, k) <==> stream_names_index(cs, k) by {
                    if stream_names_index(d, k) {
                        let m = choose|m: int| 0 <= m < d.len() && (#[trigger] d[m] matches ApiStreamChunk::ToolCall(u) && u.tc_index == k);
                        assert(cs[m] == d[m]);
                    }
                    if stream_names_index(cs, k) {
                        let m = choose|m: int| 0 <= m < cs.len() && (#[trigger] cs[m] matches ApiStreamChunk::ToolCall(u) && u.tc_index == k);
                        if m < d.len() {
                            assert(d[m] == cs[m]);
                        }
                    }
                }
            },
        }
    }
}

/// Every streamed event gives at least one chunk; it gives the single
/// `Done` chunk exactly for the data `[DONE]`; when it gives more than
/// one, they are all tool-call fragments; data that is not JSON, or has an
/// `error` member, gives one empty text chunk; a `usage` member gives the
/// prompt and completion token counts (0 for a missing one).
pub proof fn law_stream_event_shape(r: Seq<ApiStreamChunk>, data: Seq<char>, root: Option<JsonValue>)
    requires
        stream_event_spec(r, data, root),
    ensures
        r.len() >= 1,
        (r.len() == 1 && r[0] is Done) <==> data == "[DONE]"@,
        r.len() > 1 ==> forall|i: int| 0 <= i < r.len() ==> #[trigger] r[i] is ToolCall,
        (data != "[DONE]"@ && (root is None || get_spec(root.unwrap(), "error"@) is Some)) ==> (r.len() == 1
            && (r[0] matches ApiStreamChunk::Text(t) && t@.len() == 0)),
        (data != "[DONE]"@ && (root is Some) && (get_spec(root.unwrap(), "error"@) is None) && (get_spec(
            root.unwrap(),
            "usage"@,
        ) is Some)) ==> (r.len() == 1 && r[0] == (ApiStreamChunk::Usage {
            input_tokens: count_of(i64_member(get_spec(root.unwrap(), "usage"@).unwrap(), "prompt_tokens"@)),
            output_tokens: count_of(i64_member(get_spec(root.unwrap(), "usage"@).unwrap(), "completion_tokens"@)),
        })),
{
    if data != "[DONE]"@ && r.len() > 0 {
        if r.len() > 1 {
            assert forall|i: int| 0 <= i < r.len() implies #[trigger] r[i] is ToolCall by {
                match root {
                    Some(v) => {
                        let cs = choices_of(v).unwrap();
                        let d = get_spec(cs[0], "delta"@).unwrap();
                        let tcs = delta_tool_calls(d);
                        assert(is_delta_tool_call(r[i], tcs[i]));
                    },
                    None => {},
                }
            }
        }
    }
}

} // verus!
