//! Model Context Protocol clients: their configuration, the reading of
//! server replies, reconnection pacing, and the registry of configured
//! servers.  Transports, processes and timers are the caller's part.
use vstd::prelude::*;
use crate::json::{
    as_str_spec, decode_json, get_i64, get_spec, get_str, i64_member, json_decoded, str_member, str_or_empty, text_or,
    JsonValue,
};
use crate::text::{chars_of, push_decimal, push_str, string_of};

verus! {

pub const DEFAULT_REQUEST_TIMEOUT: u64 = 30000;
pub const DEFAULT_CONNECT_TIMEOUT: u64 = 10000;
pub const DEFAULT_PING_INTERVAL: u64 = 30;
pub const DEFAULT_PONG_TIMEOUT: u64 = 10;
pub const DEFAULT_MAX_RECONNECT: u32 = 3;
pub const DEFAULT_RECONNECT_DELAY: u64 = 1000;
pub const MAX_RECONNECT_DELAY: u64 = 60000;
pub const DEFAULT_PROTOCOL_VERSION: &'static str = "2024-11-05";
pub const DEFAULT_CLIENT_NAME: &'static str = "crown-code";
pub const DEFAULT_CLIENT_VERSION: &'static str = "0.1.0";

/// How a client talks to its server.
#[derive(Debug, Clone, Copy, PartialEq, Eq, Structural)]
pub enum McpTransportKind {
    Stdio,
    Http,
}

/// Where a client's connection stands.
#[derive(Debug, Clone, Copy, PartialEq, Eq, Structural)]
pub enum McpConnectionState {
    Disconnected,
    Connecting,
    Connected,
    Reconnecting,
    Error,
}

/// One item of a tool's output.
#[derive(Debug, Clone)]
pub struct McpContent {
    pub kind: String,
    pub text: String,
    pub data: String,
    pub mime_type: String,
}

/// The output of a tool call.
#[derive(Debug, Clone)]
pub struct McpCallToolResult {
    pub content: Vec<McpContent>,
    pub is_error: bool,
}

/// A tool a server offers.
#[derive(Debug, Clone)]
pub struct McpTool {
    pub name: String,
    pub description: String,
}

impl Default for McpContent {
    /// All fields empty.
    fn default() -> (r: Self)
        ensures
            r.kind@.len() == 0,
            r.text@.len() == 0,
            r.data@.len() == 0,
            r.mime_type@.len() == 0,
    {
        McpContent {
            kind: String::new(),
            text: String::new(),
            data: String::new(),
            mime_type: String::new(),
        }
    }
}

impl Default for McpCallToolResult {
    /// No content, no error.
    fn default() -> (r: Self)
        ensures
            r.content@.len() == 0,
            !r.is_error,
    {
        McpCallToolResult { content: Vec::new(), is_error: false }
    }
}

impl Default for McpTool {
    /// No name, no description.
    fn default() -> (r: Self)
        ensures
            r.name@.len() == 0,
            r.description@.len() == 0,
    {
        McpTool { name: String::new(), description: String::new() }
    }
}

/// The settings of a client (the callbacks a caller may attach are kept
/// by the caller).
pub struct McpClientConfig {
    pub transport: McpTransportKind,
    pub command: String,
    pub args: Vec<String>,
    pub server_url: String,
    pub auth_token: String,
    pub request_timeout_ms: u64,
    pub connect_timeout_ms: u64,
    pub ping_interval_sec: u64,
    pub pong_timeout_sec: u64,
    pub max_reconnect: u32,
    pub reconnect_delay_ms: u64,
    pub protocol_version: String,
    pub client_name: String,
    pub client_version: String,
}

impl Default for McpClientConfig {
    /// A stdio client with no command and the default limits and identity.
    fn default() -> (r: Self)
        ensures
            r.transport == McpTransportKind::Stdio,
            r.command@.len() == 0,
            r.args@.len() == 0,
            r.server_url@.len() == 0,
            r.auth_token@.len() == 0,
            r.request_timeout_ms == DEFAULT_REQUEST_TIMEOUT,
            r.connect_timeout_ms == DEFAULT_CONNECT_TIMEOUT,
            r.ping_interval_sec == DEFAULT_PING_INTERVAL,
            r.pong_timeout_sec == DEFAULT_PONG_TIMEOUT,
            r.max_reconnect == DEFAULT_MAX_RECONNECT,
            r.reconnect_delay_ms == DEFAULT_RECONNECT_DELAY,
            r.protocol_version@ == DEFAULT_PROTOCOL_VERSION@,
            r.client_name@ == DEFAULT_CLIENT_NAME@,
            r.client_version@ == DEFAULT_CLIENT_VERSION@,
    {
        McpClientConfig {
            transport: McpTransportKind::Stdio,
            command: String::new(),
            args: Vec::new(),
            server_url: String::new(),
            auth_token: String::new(),
            request_timeout_ms: DEFAULT_REQUEST_TIMEOUT,
            connect_timeout_ms: DEFAULT_CONNECT_TIMEOUT,
            ping_interval_sec: DEFAULT_PING_INTERVAL,
            pong_timeout_sec: DEFAULT_PONG_TIMEOUT,
            max_reconnect: DEFAULT_MAX_RECONNECT,
            reconnect_delay_ms: DEFAULT_RECONNECT_DELAY,
            protocol_version: string_of(DEFAULT_PROTOCOL_VERSION),
            client_name: string_of(DEFAULT_CLIENT_NAME),
            client_version: string_of(DEFAULT_CLIENT_VERSION),
        }
    }
}

/// `v`, or `d` when `v` is zero.
pub open spec fn or_default_u64(v: u64, d: u64) -> u64 {
    if v == 0 {
        d
    } else {
        v
    }
}

/// `s`, or `d` when `s` is empty.
pub open spec fn or_default_text(s: Seq<char>, d: Seq<char>) -> Seq<char> {
    if s.len() == 0 {
        d
    } else {
        s
    }
}

fn text_or_default(s: String, d: &str) -> (r: String)
    ensures
        r@ == or_default_text(s@, d@),
{
    if s.as_str().is_empty() {
        string_of(d)
    } else {
        s
    }
}

impl McpClientConfig {
    /// The settings a client runs with: every zero limit and every empty
    /// identity field replaced by its default; the rest kept.
    pub fn normalized(self) -> (r: Self)
        ensures
            r.transport == self.transport,
            r.command == self.command,
            r.args == self.args,
            r.server_url == self.server_url,
            r.auth_token == self.auth_token,
            r.request_timeout_ms == or_default_u64(self.request_timeout_ms, DEFAULT_REQUEST_TIMEOUT),
            r.connect_timeout_ms == or_default_u64(self.connect_timeout_ms, DEFAULT_CONNECT_TIMEOUT),
            r.ping_interval_sec == or_default_u64(self.ping_interval_sec, DEFAULT_PING_INTERVAL),
            r.pong_timeout_sec == or_default_u64(self.pong_timeout_sec, DEFAULT_PONG_TIMEOUT),
            r.max_reconnect == (if self.max_reconnect == 0 {
                DEFAULT_MAX_RECONNECT
            } else {
                self.max_reconnect
            }),
            r.reconnect_delay_ms == or_default_u64(self.reconnect_delay_ms, DEFAULT_RECONNECT_DELAY),
            r.protocol_version@ == or_default_text(self.protocol_version@, DEFAULT_PROTOCOL_VERSION@),
            r.client_name@ == or_default_text(self.client_name@, DEFAULT_CLIENT_NAME@),
            r.client_version@ == or_default_text(self.client_version@, DEFAULT_CLIENT_VERSION@),
    {
        McpClientConfig {
            transport: self.transport,
            command: self.command,
            args: self.args,
            server_url: self.server_url,
            auth_token: self.auth_token,
            request_timeout_ms: if self.request_timeout_ms == 0 {
                DEFAULT_REQUEST_TIMEOUT
            } else {
                self.request_timeout_ms
            },
            connect_timeout_ms: if self.connect_timeout_ms == 0 {
                DEFAULT_CONNECT_TIMEOUT
            } else {
                self.connect_timeout_ms
            },
            ping_interval_sec: if self.ping_interval_sec == 0 {
                DEFAULT_PING_INTERVAL
            } else {
                self.ping_interval_sec
            },
            pong_timeout_sec: if self.pong_timeout_sec == 0 {
                DEFAULT_PONG_TIMEOUT
            } else {
                self.pong_timeout_sec
            },
            max_reconnect: if self.max_reconnect == 0 {
                DEFAULT_MAX_RECONNECT
            } else {
                self.max_reconnect
            },
            reconnect_delay_ms: if self.reconnect_delay_ms == 0 {
                DEFAULT_RECONNECT_DELAY
            } else {
                self.reconnect_delay_ms
            },
            protocol_version: text_or_default(self.protocol_version, DEFAULT_PROTOCOL_VERSION),
            client_name: text_or_default(self.client_name, DEFAULT_CLIENT_NAME),
            client_version: text_or_default(self.client_version, DEFAULT_CLIENT_VERSION),
        }
    }

    /// A one-line description of the settings in which a non-empty
    /// authentication token shows as `***`.
    pub fn debug_text(&self) -> (r: String)
        ensures
            self.auth_token@.len() == 0 ==> r@ == config_text(*self, Seq::empty()),
            self.auth_token@.len() != 0 ==> r@ == config_text(*self, "***"@),
    {
        let mut s = string_of("McpClientConfig { transport: ");
        push_str(
            &mut s,
            match self.transport {
                McpTransportKind::Stdio => "Stdio",
                McpTransportKind::Http => "Http",
            },
        );
        push_str(&mut s, ", command: \"");
        push_str(&mut s, self.command.as_str());
        push_str(&mut s, "\", server_url: \"");
        push_str(&mut s, self.server_url.as_str());
        push_str(&mut s, "\", auth_token: \"");
        if !self.auth_token.as_str().is_empty() {
            push_str(&mut s, "***");
        }
        push_str(&mut s, "\", request_timeout_ms: ");
        push_decimal(&mut s, self.request_timeout_ms);
        push_str(&mut s, ", max_reconnect: ");
        push_decimal(&mut s, self.max_reconnect as u64);
        push_str(&mut s, ", reconnect_delay_ms: ");
        push_decimal(&mut s, self.reconnect_delay_ms);
        push_str(&mut s, ", protocol_version: \"");
        push_str(&mut s, self.protocol_version.as_str());
        push_str(&mut s, "\", client_name: \"");
        push_str(&mut s, self.client_name.as_str());
        push_str(&mut s, "\", client_version: \"");
        push_str(&mut s, self.client_version.as_str());
        push_str(&mut s, "\" }");
        proof {
            reveal_strlit("***");
        }
        s
    }
}

/// The description of a configuration with `token` shown for its token.
pub open spec fn config_text(c: McpClientConfig, token: Seq<char>) -> Seq<char> {
    "McpClientConfig { transport: "@ + match c.transport {
        McpTransportKind::Stdio => "Stdio"@,
        McpTransportKind::Http => "Http"@,
    } + ", command: \""@ + c.command@ + "\", server_url: \""@ + c.server_url@
        + "\", auth_token: \""@ + token + "\", request_timeout_ms: "@ + crate::text::decimal(
        c.request_timeout_ms as nat,
    ) + ", max_reconnect: "@ + crate::text::decimal(c.max_reconnect as nat)
        + ", reconnect_delay_ms: "@ + crate::text::decimal(c.reconnect_delay_ms as nat)
        + ", protocol_version: \""@ + c.protocol_version@ + "\", client_name: \""@
        + c.client_name@ + "\", client_version: \""@ + c.client_version@ + "\" }"@
}

// ---------------------------------------------------------------------
// Reconnecting
// ---------------------------------------------------------------------

/// The pause before the next reconnection attempt: twice the last one,
/// at most [`MAX_RECONNECT_DELAY`].
pub fn next_reconnect_delay(current: u64) -> (r: u64)
    requires
        current <= u64::MAX / 2,
    ensures
        r == if current * 2 < MAX_RECONNECT_DELAY {
            current * 2
        } else {
            MAX_RECONNECT_DELAY as int
        },
{
    let doubled = current * 2;
    if doubled < MAX_RECONNECT_DELAY {
        doubled
    } else {
        MAX_RECONNECT_DELAY
    }
}

/// The message after every reconnection attempt failed.
pub fn reconnect_failure_message(attempts: u32) -> (r: String)
    ensures
        r@ == "reconnect failed after "@ + crate::text::decimal(attempts as nat) + " attempts"@,
{
    let mut s = string_of("reconnect failed after ");
    push_decimal(&mut s, attempts as u64);
    push_str(&mut s, " attempts");
    s
}

// ---------------------------------------------------------------------
// JSON-RPC replies
// ---------------------------------------------------------------------

/// What a decoded JSON-RPC reply to request `id` comes to: the message of
/// its error, a mismatched id, or its `result` member (nothing when the
/// reply has none, which stands for `null`).  `None` for the reply means
/// it was not JSON.
pub open spec fn rpc_outcome(reply: Option<JsonValue>, id: i64) -> Result<Option<JsonValue>, Seq<char>> {
    match reply {
        None => Err("sendJsonRpc: invalid JSON response"@),
        Some(r) => match get_spec(r, "error"@) {
            Some(e) => Err("sendJsonRpc: "@ + text_or(str_member(e, "message"@), "unknown error"@)),
            None => match i64_member(r, "id"@) {
                Some(rid) => if rid != id {
                    Err("sendJsonRpc: response id mismatch"@)
                } else {
                    Ok(get_spec(r, "result"@))
                },
                None => Ok(get_spec(r, "result"@)),
            },
        },
    }
}

/// Reads a JSON-RPC reply to request `id` (see [`rpc_outcome`]).
pub fn interpret_rpc_reply(reply: Option<&JsonValue>, id: i64) -> (r: Result<Option<&JsonValue>, String>)
    ensures
        match rpc_outcome(
            match reply {
                Some(v) => Some(*v),
                None => None,
            },
            id,
        ) {
            Err(m) => r matches Err(e) && e@ == m,
            Ok(None) => r matches Ok(None),
            Ok(Some(x)) => r matches Ok(Some(y)) && *y == x,
        },
{
    let r = match reply {
        Some(v) => v,
        None => return Err(string_of("sendJsonRpc: invalid JSON response")),
    };
    if let Some(e) = r.get("error") {
        let mut msg = string_of("sendJsonRpc: ");
        match get_str(e, "message") {
            Some(m) => push_str(&mut msg, m),
            None => push_str(&mut msg, "unknown error"),
        }
        return Err(msg);
    }
    if let Some(rid) = get_i64(r, "id") {
        if rid != id {
            return Err(string_of("sendJsonRpc: response id mismatch"));
        }
    }
    Ok(r.get("result"))
}

/// Why an HTTP reply to a JSON-RPC request is refused, if it is: a
/// transport error gives its text, any status but 200 gives `HTTP <status>`.
pub fn http_rpc_failure(status_code: i32, error: &str) -> (r: Option<String>)
    ensures
        error@.len() != 0 ==> (r matches Some(m) && m@ == "sendJsonRpc: "@ + error@),
        error@.len() == 0 && status_code != 200 ==> (r matches Some(m) && m@ == "sendJsonRpc: HTTP "@
            + crate::text::decimal_int(status_code as int)),
        error@.len() == 0 && status_code == 200 ==> r is None,
{
    if !error.is_empty() {
        let mut m = string_of("sendJsonRpc: ");
        push_str(&mut m, error);
        return Some(m);
    }
    if status_code != 200 {
        let mut m = string_of("sendJsonRpc: HTTP ");
        crate::text::push_decimal_i64(&mut m, status_code as i64);
        return Some(m);
    }
    None
}

/// What to do with an HTTP reply to a JSON-RPC request.
#[derive(Debug)]
pub enum HttpReplyStep {
    /// Read the reply's body.
    ReadBody,
    /// Ask for a fresh token and send the request again with it.
    RefreshToken,
    /// Give up with this message.
    Fail(String),
}

/// The message for a token the server rejected.
pub open spec fn token_rejected_message() -> Seq<char> {
    "sendJsonRpc: HTTP 401 (token rejected)"@
}

/// The step after the first reply: a 401 asks for a fresh token when the
/// client can get one and is a rejected token otherwise; any other reply
/// is read, or refused as [`http_rpc_failure`] says.
pub fn first_reply_step(status_code: i32, error: &str, can_refresh: bool) -> (r: HttpReplyStep)
    ensures
        status_code == 401 && can_refresh ==> r is RefreshToken,
        status_code == 401 && !can_refresh ==> (r matches HttpReplyStep::Fail(m) && m@ == token_rejected_message()),
        status_code != 401 && error@.len() != 0 ==> (r matches HttpReplyStep::Fail(m) && m@ == "sendJsonRpc: "@ + error@),
        status_code != 401 && error@.len() == 0 && status_code != 200 ==> (r matches HttpReplyStep::Fail(m) && m@
            == "sendJsonRpc: HTTP "@ + crate::text::decimal_int(status_code as int)),
        status_code == 200 && error@.len() == 0 ==> r is ReadBody,
{
    if status_code == 401 {
        if can_refresh {
            return HttpReplyStep::RefreshToken;
        }
        return HttpReplyStep::Fail(string_of("sendJsonRpc: HTTP 401 (token rejected)"));
    }
    match http_rpc_failure(status_code, error) {
        Some(m) => HttpReplyStep::Fail(m),
        None => HttpReplyStep::ReadBody,
    }
}

/// The step once a fresh token was asked for: an empty token is a
/// rejected token; otherwise the request is sent again with it (the
/// answer is [`HttpReplyStep::RefreshToken`], meaning "retry").
pub fn refreshed_token_step(token: &str) -> (r: HttpReplyStep)
    ensures
        token@.len() == 0 ==> (r matches HttpReplyStep::Fail(m) && m@ == token_rejected_message()),
        token@.len() != 0 ==> r is RefreshToken,
{
    if token.is_empty() {
        HttpReplyStep::Fail(string_of("sendJsonRpc: HTTP 401 (token rejected)"))
    } else {
        HttpReplyStep::RefreshToken
    }
}

/// The step after the reply to the request sent again with a fresh token:
/// only a clean 200 is read; anything else is a rejected token.
pub fn retried_reply_step(status_code: i32, error: &str) -> (r: HttpReplyStep)
    ensures
        status_code == 200 && error@.len() == 0 ==> r is ReadBody,
        !(status_code == 200 && error@.len() == 0) ==> (r matches HttpReplyStep::Fail(m) && m@
            == token_rejected_message()),
{
    if status_code == 200 && error.is_empty() {
        HttpReplyStep::ReadBody
    } else {
        HttpReplyStep::Fail(string_of("sendJsonRpc: HTTP 401 (token rejected)"))
    }
}

// ---------------------------------------------------------------------
// Tool results
// ---------------------------------------------------------------------

/// Whether `c` is the content item read from `item`: its type; its text
/// for `text` and `resource` items; its data and MIME type for `image`
/// items; everything else empty.
pub open spec fn is_read_content(c: McpContent, item: JsonValue) -> bool {
    let kind = text_or(str_member(item, "type"@), Seq::empty());
    let texty = kind == "text"@ || kind == "resource"@;
    let image = kind == "image"@;
    &&& c.kind@ == kind
    &&& c.text@ == if texty {
        text_or(str_member(item, "text"@), Seq::empty())
    } else {
        Seq::empty()
    }
    &&& c.data@ == if !texty && image {
        text_or(str_member(item, "data"@), Seq::empty())
    } else {
        Seq::empty()
    }
    &&& c.mime_type@ == if !texty && image {
        text_or(str_member(item, "mimeType"@), Seq::empty())
    } else {
        Seq::empty()
    }
}

/// The items of member `key` when it is an array.
pub open spec fn array_member(v: JsonValue, key: Seq<char>) -> Seq<JsonValue> {
    match get_spec(v, key) {
        Some(JsonValue::Array(a)) => a@,
        _ => Seq::empty(),
    }
}

fn array_of<'a>(v: &'a JsonValue, key: &str) -> (r: Option<&'a Vec<JsonValue>>)
    ensures
        match r {
            Some(a) => get_spec(*v, key@) == Some(JsonValue::Array(*a)),
            None => array_member(*v, key@).len() == 0,
        },
{
    match v.get(key) {
        Some(m) => m.as_array(),
        None => None,
    }
}

fn same_str(a: &String, b: &str) -> (r: bool)
    ensures
        r == (a@ == b@),
{
    *a == string_of(b)
}

fn read_content(item: &JsonValue) -> (c: McpContent)
    ensures
        is_read_content(c, *item),
{
    let kind = str_or_empty(item, "type");
    if same_str(&kind, "text") || same_str(&kind, "resource") {
        let text = str_or_empty(item, "text");
        McpContent { kind, text, data: String::new(), mime_type: String::new() }
    } else if same_str(&kind, "image") {
        let data = str_or_empty(item, "data");
        let mime_type = str_or_empty(item, "mimeType");
        McpContent { kind, text: String::new(), data, mime_type }
    } else {
        McpContent { kind, text: String::new(), data: String::new(), mime_type: String::new() }
    }
}

/// Reads the result of a `tools/call` request: every item of its
/// `content` array, and its `isError` flag (false when missing).
pub fn read_call_tool_result(val: &JsonValue) -> (r: McpCallToolResult)
    ensures
        r.content@.len() == array_member(*val, "content"@).len(),
        forall|i: int|
            0 <= i < r.content@.len() ==> is_read_content(
                #[trigger] r.content@[i],
                array_member(*val, "content"@)[i],
            ),
        r.is_error == match get_spec(*val, "isError"@) {
            Some(JsonValue::Bool(b)) => b,
            _ => false,
        },
{
    let mut content: Vec<McpContent> = Vec::new();
    if let Some(items) = array_of(val, "content") {
        let mut i: usize = 0;
        while i < items.len()
            invariant
                i <= items@.len(),
                content@.len() == i,
                forall|k: int| 0 <= k < i ==> is_read_content(#[trigger] content@[k], items@[k]),
            decreases items@.len() - i,
        {
            content.push(read_content(&items[i]));
            i += 1;
        }
    }
    let is_error = match val.get("isError") {
        Some(b) => match b.as_bool() {
            Some(x) => x,
            None => false,
        },
        None => false,
    };
    McpCallToolResult { content, is_error }
}

/// Reads the result of a `tools/list` request: every item of its `tools`
/// array, with its name and description (empty when missing).
pub fn read_tool_list(val: &JsonValue) -> (r: Vec<McpTool>)
    ensures
        r@.len() == array_member(*val, "tools"@).len(),
        forall|i: int|
            0 <= i < r@.len() ==> (#[trigger] r@[i]).name@ == text_or(
                str_member(array_member(*val, "tools"@)[i], "name"@),
                Seq::empty(),
            ) && r@[i].description@ == text_or(
                str_member(array_member(*val, "tools"@)[i], "description"@),
                Seq::empty(),
            ),
{
    let mut tools: Vec<McpTool> = Vec::new();
    if let Some(items) = array_of(val, "tools") {
        let mut i: usize = 0;
        while i < items.len()
            invariant
                i <= items@.len(),
                tools@.len() == i,
                forall|k: int|
                    0 <= k < i ==> (#[trigger] tools@[k]).name@ == text_or(
                        str_member(items@[k], "name"@),
                        Seq::empty(),
                    ) && tools@[k].description@ == text_or(
                        str_member(items@[k], "description"@),
                        Seq::empty(),
                    ),
            decreases items@.len() - i,
        {
            let name = str_or_empty(&items[i], "name");
            let description = str_or_empty(&items[i], "description");
            tools.push(McpTool { name, description });
            i += 1;
        }
    }
    tools
}


// ---------------------------------------------------------------------
// The registry of configured servers
// ---------------------------------------------------------------------

/// How a registry operation ended.
#[derive(Debug, Clone, Copy, PartialEq, Eq, Structural)]
pub enum McpRegistryError {
    Success,
    ServerNotFound,
    ServerDisabled,
    NotConnected,
    ConfigError,
}

/// The configuration of one server.
#[derive(Debug, Clone)]
pub struct McpServerConfig {
    pub transport: McpTransportKind,
    pub command: String,
    pub args: Vec<String>,
    pub server_url: String,
    pub auth_token: String,
    pub enabled: bool,
}

impl Default for McpServerConfig {
    /// An enabled stdio server with nothing else set.
    fn default() -> (r: Self)
        ensures
            r.transport == McpTransportKind::Stdio,
            r.command@.len() == 0,
            r.args@.len() == 0,
            r.server_url@.len() == 0,
            r.auth_token@.len() == 0,
            r.enabled,
    {
        McpServerConfig {
            transport: McpTransportKind::Stdio,
            command: String::new(),
            args: Vec::new(),
            server_url: String::new(),
            auth_token: String::new(),
            enabled: true,
        }
    }
}

/// A server configuration as plain values: transport, command, arguments,
/// URL, token, enabled.
pub type ServerView = (McpTransportKind, Seq<char>, Seq<Seq<char>>, Seq<char>, Seq<char>, bool);

/// The plain values of a server configuration.
pub open spec fn server_view(c: McpServerConfig) -> ServerView {
    (
        c.transport,
        c.command@,
        c.args@.map_values(|a: String| a@),
        c.server_url@,
        c.auth_token@,
        c.enabled,
    )
}

/// The arguments listed in a server entry: each item's text (empty when
/// it is not a string); none when `args` is not an array.
pub open spec fn args_of(sv: JsonValue) -> Seq<Seq<char>> {
    array_member(sv, "args"@).map_values(|a: JsonValue| text_or(as_str_spec(a), Seq::empty()))
}

/// The configuration a server entry describes, or why it is refused.
pub open spec fn server_entry(name: Seq<char>, sv: JsonValue) -> Result<ServerView, Seq<char>> {
    let t = text_or(str_member(sv, "transport"@), "stdio"@);
    let command = text_or(str_member(sv, "command"@), Seq::empty());
    let url = text_or(str_member(sv, "url"@), Seq::empty());
    let enabled = match get_spec(sv, "enabled"@) {
        Some(JsonValue::Bool(b)) => b,
        _ => true,
    };
    if name.len() == 0 {
        Err("empty server name"@)
    } else if t != "stdio"@ && t != "http"@ {
        Err("unknown transport '"@ + t + "' for server '"@ + name + "'"@)
    } else if t == "stdio"@ && command.len() == 0 {
        Err("stdio server '"@ + name + "' missing 'command'"@)
    } else if t == "http"@ && url.len() == 0 {
        Err("http server '"@ + name + "' missing 'url'"@)
    } else {
        Ok(
            (
                if t == "stdio"@ {
                    McpTransportKind::Stdio
                } else {
                    McpTransportKind::Http
                },
                command,
                args_of(sv),
                url,
                text_or(str_member(sv, "authToken"@), Seq::empty()),
                enabled,
            ),
        )
    }
}

/// The position of the server named `name`, or the number of servers.
pub open spec fn server_position(servers: Seq<(Seq<char>, ServerView)>, name: Seq<char>) -> int
    decreases servers.len(),
{
    if servers.len() == 0 {
        0
    } else if servers[0].0 == name {
        0
    } else {
        1 + server_position(servers.drop_first(), name)
    }
}

/// The servers with `name` set to `c` (replacing an earlier entry).
pub open spec fn set_server(servers: Seq<(Seq<char>, ServerView)>, name: Seq<char>, c: ServerView) -> Seq<(Seq<char>, ServerView)> {
    let i = server_position(servers, name);
    if 0 <= i < servers.len() {
        servers.update(i, (name, c))
    } else {
        servers.push((name, c))
    }
}

/// The servers after reading the entries `fields` in order, and the first
/// refusal met (the entries before it are kept).
pub open spec fn load_entries(
    servers: Seq<(Seq<char>, ServerView)>,
    fields: Seq<(String, JsonValue)>,
) -> (Seq<(Seq<char>, ServerView)>, Option<Seq<char>>)
    decreases fields.len(),
{
    if fields.len() == 0 {
        (servers, None)
    } else {
        let (s, e) = load_entries(servers, fields.drop_last());
        if e is Some {
            (s, e)
        } else {
            match server_entry(fields.last().0@, fields.last().1) {
                Ok(c) => (set_server(s, fields.last().0@, c), None),
                Err(m) => (s, Some(m)),
            }
        }
    }
}

/// The configured servers, the last error, and whether the registry was
/// destroyed.
pub struct McpRegistryState {
    pub servers: Vec<(String, McpServerConfig)>,
    pub last_error: String,
    pub destroyed: bool,
}

/// The plain values of the configured servers.
pub open spec fn servers_view(v: Seq<(String, McpServerConfig)>) -> Seq<(Seq<char>, ServerView)> {
    v.map_values(|e: (String, McpServerConfig)| (e.0@, server_view(e.1)))
}

proof fn lemma_server_position(servers: Seq<(Seq<char>, ServerView)>, name: Seq<char>, p: int)
    requires
        0 <= p <= servers.len(),
        forall|j: int| 0 <= j < p ==> servers[j].0 != name,
        p == servers.len() || servers[p].0 == name,
    ensures
        server_position(servers, name) == p,
    decreases p,
{
    if p > 0 {
        lemma_server_position(servers.drop_first(), name, p - 1);
    }
}

fn read_args(sv: &JsonValue) -> (r: Vec<String>)
    ensures
        r@.map_values(|a: String| a@) == args_of(*sv),
{
    let mut out: Vec<String> = Vec::new();
    let ghost items = array_member(*sv, "args"@);
    if let Some(a) = array_of(sv, "args") {
        let mut i: usize = 0;
        while i < a.len()
            invariant
                i <= a@.len(),
                items == a@,
                out@.map_values(|x: String| x@) == items.take(i as int).map_values(
                    |x: JsonValue| text_or(as_str_spec(x), Seq::empty()),
                ),
            decreases a@.len() - i,
        {
            let ghost before = out@.map_values(|x: String| x@);
            let t = match a[i].as_str() {
                Some(x) => string_of(x),
                None => String::new(),
            };
            out.push(t);
            assert(out@.map_values(|x: String| x@) =~= before.push(
                text_or(as_str_spec(items[i as int]), Seq::empty()),
            ));
            assert(items.take(i + 1).map_values(|x: JsonValue| text_or(as_str_spec(x), Seq::empty()))
                =~= items.take(i as int).map_values(
                |x: JsonValue| text_or(as_str_spec(x), Seq::empty()),
            ).push(text_or(as_str_spec(items[i as int]), Seq::empty())));
            i += 1;
        }
        assert(items.take(a@.len() as int) =~= items);
    } else {
        assert(out@.map_values(|x: String| x@) =~= args_of(*sv));
    }
    out
}

fn quoted_message(head: &str, a: &str, mid: &str, b: &str, tail: &str) -> (r: String)
    ensures
        r@ == head@ + a@ + mid@ + b@ + tail@,
{
    let mut m = string_of(head);
    push_str(&mut m, a);
    push_str(&mut m, mid);
    push_str(&mut m, b);
    push_str(&mut m, tail);
    m
}

fn read_server_entry(name: &String, sv: &JsonValue) -> (r: Result<McpServerConfig, String>)
    ensures
        match server_entry(name@, *sv) {
            Ok(c) => r matches Ok(x) && server_view(x) == c,
            Err(m) => r matches Err(e) && e@ == m,
        },
{
    proof {
        reveal_strlit("");
    }
    if name.as_str().is_empty() {
        return Err(string_of("empty server name"));
    }
    let t = match get_str(sv, "transport") {
        Some(x) => string_of(x),
        None => string_of("stdio"),
    };
    let is_stdio = same_str(&t, "stdio");
    let is_http = same_str(&t, "http");
    if !is_stdio && !is_http {
        return Err(quoted_message("unknown transport '", t.as_str(), "' for server '", name.as_str(), "'"));
    }
    let command = str_or_empty(sv, "command");
    let url = str_or_empty(sv, "url");
    if is_stdio && command.as_str().is_empty() {
        return Err(quoted_message("stdio server '", name.as_str(), "", "", "' missing 'command'"));
    }
    if is_http && url.as_str().is_empty() {
        return Err(quoted_message("http server '", name.as_str(), "", "", "' missing 'url'"));
    }
    let enabled = match sv.get("enabled") {
        Some(b) => match b.as_bool() {
            Some(x) => x,
            None => true,
        },
        None => true,
    };
    proof {
        reveal_strlit("");
    }
    Ok(
        McpServerConfig {
            transport: if is_stdio {
                McpTransportKind::Stdio
            } else {
                McpTransportKind::Http
            },
            command,
            args: read_args(sv),
            server_url: url,
            auth_token: str_or_empty(sv, "authToken"),
            enabled,
        },
    )
}

/// What loading a configuration does to a registry (`before` to `after`,
/// answering `r`): every member of the document's `servers` object is a
/// server entry (see [`server_entry`]), read in order; the first refused
/// entry stops the reading, with the entries before it kept.  `root` is the
/// decoded document, or the decoder's message.  A destroyed registry
/// refuses.
pub open spec fn config_loaded(
    before: McpRegistryState,
    after: McpRegistryState,
    r: McpRegistryError,
    root: Result<JsonValue, Seq<char>>,
) -> bool {
    &&& after.destroyed == before.destroyed
    &&& before.destroyed ==> r == McpRegistryError::ConfigError && servers_view(after.servers@) == servers_view(
        before.servers@,
    ) && after.last_error == before.last_error
    &&& !before.destroyed ==> match root {
        Err(e) => {
            &&& r == McpRegistryError::ConfigError
            &&& after.last_error@ == "invalid JSON: "@ + e
            &&& servers_view(after.servers@) == servers_view(before.servers@)
        },
        Ok(v) => match get_spec(v, "servers"@) {
            Some(JsonValue::Object(fields)) => {
                let (s, e) = load_entries(servers_view(before.servers@), fields@);
                &&& servers_view(after.servers@) == s
                &&& match e {
                    Some(m) => r == McpRegistryError::ConfigError && after.last_error@ == m,
                    None => r == McpRegistryError::Success && after.last_error == before.last_error,
                }
            },
            _ => {
                &&& r == McpRegistryError::ConfigError
                &&& after.last_error@ == "missing 'servers' field"@
                &&& servers_view(after.servers@) == servers_view(before.servers@)
            },
        },
    }
}

impl McpRegistryState {
    /// An empty registry.
    pub fn new() -> (r: Self)
        ensures
            r.servers@.len() == 0,
            r.last_error@.len() == 0,
            !r.destroyed,
    {
        McpRegistryState { servers: Vec::new(), last_error: String::new(), destroyed: false }
    }

    fn set_entry(&mut self, name: String, config: McpServerConfig)
        ensures
            servers_view(final(self).servers@) == set_server(
                servers_view(old(self).servers@),
                name@,
                server_view(config),
            ),
            final(self).last_error == old(self).last_error,
            final(self).destroyed == old(self).destroyed,
    {
        let ghost sv = servers_view(self.servers@);
        let ghost cv = server_view(config);
        let mut i: usize = 0;
        while i < self.servers.len() && !same_str(&self.servers[i].0, name.as_str())
            invariant
                i <= self.servers@.len(),
                sv == servers_view(self.servers@),
                forall|j: int| 0 <= j < i ==> sv[j].0 != name@,
            decreases self.servers@.len() - i,
        {
            assert(sv[i as int].0 == self.servers@[i as int].0@);
            i += 1;
        }
        proof {
            if i < self.servers@.len() {
                assert(sv[i as int].0 == self.servers@[i as int].0@);
            }
            lemma_server_position(sv, name@, i as int);
        }
        if i < self.servers.len() {
            self.servers.set(i, (name, config));
            assert(servers_view(self.servers@) =~= sv.update(i as int, (name@, cv)));
        } else {
            self.servers.push((name, config));
            assert(servers_view(self.servers@) =~= sv.push((name@, cv)));
        }
    }

    /// Loads a configuration from its JSON text (see [`config_loaded`]).
    pub fn load_json_config(&mut self, json_str: &str) -> (r: McpRegistryError)
        ensures
            config_loaded(*old(self), *final(self), r, json_decoded(json_str@)),
    {
        match decode_json(json_str) {
            Ok(v) => self.load_json_document(Ok(&v)),
            Err(e) => self.load_json_document(Err(e)),
        }
    }

    /// Loads a decoded configuration document, or reports the decoder's
    /// message (see [`config_loaded`]).
    pub fn load_json_document(&mut self, root: Result<&JsonValue, String>) -> (r: McpRegistryError)
        ensures
            config_loaded(
                *old(self),
                *final(self),
                r,
                match root {
                    Ok(v) => Ok::<JsonValue, Seq<char>>(*v),
                    Err(e) => Err::<JsonValue, Seq<char>>(e@),
                },
            ),
    {
        if self.destroyed {
            return McpRegistryError::ConfigError;
        }
        let v = match root {
            Ok(v) => v,
            Err(e) => {
                let mut m = string_of("invalid JSON: ");
                push_str(&mut m, e.as_str());
                self.last_error = m;
                return McpRegistryError::ConfigError;
            },
        };
        let fields = match v.get("servers") {
            Some(JsonValue::Object(f)) => f,
            _ => {
                self.last_error = string_of("missing 'servers' field");
                return McpRegistryError::ConfigError;
            },
        };
        let ghost start = servers_view(self.servers@);
        let mut i: usize = 0;
        assert(fields@.take(0) =~= Seq::<(String, JsonValue)>::empty());
        while i < fields.len()
            invariant
                i <= fields@.len(),
                start == servers_view(old(self).servers@),
                root == Ok::<&JsonValue, String>(v),
                get_spec(*v, "servers"@) == Some(JsonValue::Object(*fields)),
                !self.destroyed,
                self.destroyed == old(self).destroyed,
                self.last_error == old(self).last_error,
                load_entries(start, fields@.take(i as int)) == (servers_view(self.servers@), None::<Seq<char>>),
            decreases fields@.len() - i,
        {
            let ghost prev = fields@.take(i as int);
            assert(fields@.take(i + 1).drop_last() =~= prev);
            assert(fields@.take(i + 1).last() == fields@[i as int]);
            let name = &fields[i].0;
            match read_server_entry(name, &fields[i].1) {
                Ok(c) => {
                    self.set_entry(string_of(name.as_str()), c);
                },
                Err(m) => {
                    self.last_error = m;
                    proof {
                        lemma_load_stops(start, fields@, i as int);
                    }
                    return McpRegistryError::ConfigError;
                },
            }
            i += 1;
        }
        assert(fields@.take(fields@.len() as int) =~= fields@);
        McpRegistryError::Success
    }

    /// The configured server names, in order.
    pub fn server_names(&self) -> (r: Vec<String>)
        ensures
            self.destroyed ==> r@.len() == 0,
            !self.destroyed ==> r@.map_values(|n: String| n@) == crate::list_files::entry_names(
                crate::list_files::sort_entries(
                    servers_view(self.servers@).map_values(
                        |e: (Seq<char>, ServerView)| (e.0, false),
                    ),
                ),
            ),
    {
        if self.destroyed {
            return Vec::new();
        }
        let ghost full = servers_view(self.servers@).map_values(
            |e: (Seq<char>, ServerView)| (e.0, false),
        );
        let mut pairs: Vec<(String, bool)> = Vec::new();
        let mut i: usize = 0;
        assert(crate::list_files::pairs_view(pairs@) =~= full.take(0));
        while i < self.servers.len()
            invariant
                i <= self.servers@.len(),
                full == servers_view(self.servers@).map_values(
                    |e: (Seq<char>, ServerView)| (e.0, false),
                ),
                crate::list_files::pairs_view(pairs@) == full.take(i as int),
            decreases self.servers@.len() - i,
        {
            let ghost before = crate::list_files::pairs_view(pairs@);
            pairs.push((string_of(self.servers[i].0.as_str()), false));
            assert(full[i as int] == (self.servers@[i as int].0@, false));
            assert(crate::list_files::pairs_view(pairs@) =~= before.push(full[i as int]));
            assert(full.take(i + 1) =~= full.take(i as int).push(full[i as int]));
            i += 1;
        }
        assert(full.take(self.servers@.len() as int) =~= full);
        let sorted = crate::list_files::sort_listing(&pairs);
        let ghost sv = crate::list_files::pairs_view(sorted@);
        let mut names: Vec<String> = Vec::new();
        let mut k: usize = 0;
        while k < sorted.len()
            invariant
                k <= sorted@.len(),
                sv == crate::list_files::pairs_view(sorted@),
                names@.map_values(|n: String| n@) == crate::list_files::entry_names(sv).take(
                    k as int,
                ),
            decreases sorted@.len() - k,
        {
            let ghost before = names@.map_values(|n: String| n@);
            names.push(string_of(sorted[k].0.as_str()));
            assert(crate::list_files::entry_names(sv)[k as int] == sorted@[k as int].0@);
            assert(names@.map_values(|n: String| n@) =~= before.push(sorted@[k as int].0@));
            assert(crate::list_files::entry_names(sv).take(k + 1) =~= crate::list_files::entry_names(
                sv,
            ).take(k as int).push(sorted@[k as int].0@));
            k += 1;
        }
        assert(crate::list_files::entry_names(sv).take(sorted@.len() as int)
            =~= crate::list_files::entry_names(sv));
        names
    }

    /// The last error (`null registry` once destroyed).
    pub fn last_error(&self) -> (r: String)
        ensures
            self.destroyed ==> r@ == "null registry"@,
            !self.destroyed ==> r@ == self.last_error@,
    {
        if self.destroyed {
            string_of("null registry")
        } else {
            string_of(self.last_error.as_str())
        }
    }

    /// The configuration to connect server `name` with: none (and the
    /// reason recorded) when there is no such server or it is disabled.
    pub fn lookup(&mut self, name: &str) -> (r: Option<McpServerConfig>)
        ensures
            final(self).servers == old(self).servers,
            final(self).destroyed == old(self).destroyed,
            old(self).destroyed ==> r is None,
            !old(self).destroyed ==> {
                let sv = servers_view(old(self).servers@);
                let i = server_position(sv, name@);
                if i < sv.len() {
                    if sv[i].1.5 {
                        r matches Some(c) && server_view(c) == sv[i].1
                    } else {
                        r is None && final(self).last_error@ == "server '"@ + name@ + "' is disabled"@
                    }
                } else {
                    r is None && final(self).last_error@ == "server '"@ + name@ + "' not found"@
                }
            },
    {
        if self.destroyed {
            return None;
        }
        let ghost sv = servers_view(self.servers@);
        let mut i: usize = 0;
        while i < self.servers.len() && !same_str(&self.servers[i].0, name)
            invariant
                i <= self.servers@.len(),
                sv == servers_view(self.servers@),
                forall|j: int| 0 <= j < i ==> sv[j].0 != name@,
            decreases self.servers@.len() - i,
        {
            assert(sv[i as int].0 == self.servers@[i as int].0@);
            i += 1;
        }
        proof {
            if i < self.servers@.len() {
                assert(sv[i as int].0 == self.servers@[i as int].0@);
            }
            lemma_server_position(sv, name@, i as int);
        }
        if i == self.servers.len() {
            self.last_error = quoted_message("server '", name, "", "", "' not found");
            proof {
                reveal_strlit("");
            }
            return None;
        }
        if !self.servers[i].1.enabled {
            self.last_error = quoted_message("server '", name, "", "", "' is disabled");
            proof {
                reveal_strlit("");
            }
            return None;
        }
        Some(copy_server(&self.servers[i].1))
    }

    /// Forgets every server; afterwards every operation refuses.
    pub fn destroy(&mut self)
        ensures
            final(self).destroyed,
            final(self).servers@.len() == 0,
            final(self).last_error@.len() == 0,
    {
        self.destroyed = true;
        self.servers.clear();
        self.last_error = String::new();
    }
}

fn copy_server(c: &McpServerConfig) -> (r: McpServerConfig)
    ensures
        server_view(r) == server_view(*c),
{
    let mut args: Vec<String> = Vec::new();
    let mut i: usize = 0;
    while i < c.args.len()
        invariant
            i <= c.args@.len(),
            args@.map_values(|a: String| a@) == c.args@.map_values(|a: String| a@).take(i as int),
        decreases c.args@.len() - i,
    {
        let ghost before = args@.map_values(|a: String| a@);
        args.push(string_of(c.args[i].as_str()));
        assert(args@.map_values(|a: String| a@) =~= before.push(c.args@[i as int]@));
        assert(c.args@.map_values(|a: String| a@).take(i + 1) =~= c.args@.map_values(
            |a: String| a@,
        ).take(i as int).push(c.args@[i as int]@));
        i += 1;
    }
    assert(c.args@.map_values(|a: String| a@).take(c.args@.len() as int) =~= c.args@.map_values(
        |a: String| a@,
    ));
    McpServerConfig {
        transport: c.transport,
        command: string_of(c.command.as_str()),
        args,
        server_url: string_of(c.server_url.as_str()),
        auth_token: string_of(c.auth_token.as_str()),
        enabled: c.enabled,
    }
}

proof fn lemma_load_stops(start: Seq<(Seq<char>, ServerView)>, fields: Seq<(String, JsonValue)>, i: int)
    requires
        0 <= i < fields.len(),
        load_entries(start, fields.take(i)).1 is None,
        server_entry(fields[i].0@, fields[i].1) is Err,
    ensures
        load_entries(start, fields) == (
            load_entries(start, fields.take(i)).0,
            Some(server_entry(fields[i].0@, fields[i].1)->Err_0),
        ),
    decreases fields.len() - i,
{
    assert(fields.take(i + 1).drop_last() =~= fields.take(i));
    if i + 1 < fields.len() {
        lemma_load_stops_prefix(start, fields, i + 1);
    } else {
        assert(fields.take(i + 1) =~= fields);
    }
}

proof fn lemma_load_stops_prefix(start: Seq<(Seq<char>, ServerView)>, fields: Seq<(String, JsonValue)>, k: int)
    requires
        0 < k <= fields.len(),
        load_entries(start, fields.take(k)).1 is Some,
    ensures
        load_entries(start, fields) == load_entries(start, fields.take(k)),
    decreases fields.len() - k,
{
    if k < fields.len() {
        assert(fields.take(k + 1).drop_last() =~= fields.take(k));
        lemma_load_stops_prefix(start, fields, k + 1);
    } else {
        assert(fields.take(k) =~= fields);
    }
}


/// Whether a server named `name` is configured.
pub open spec fn has_server(servers: Seq<(Seq<char>, ServerView)>, name: Seq<char>) -> bool {
    exists|j: int| 0 <= j < servers.len() && #[trigger] servers[j].0 == name
}

/// The configuration of server `name` (meaningful when it is configured).
pub open spec fn server_config(servers: Seq<(Seq<char>, ServerView)>, name: Seq<char>) -> ServerView {
    servers[server_position(servers, name)].1
}

/// Whether some entry of `fields` names `name`.
pub open spec fn entry_names(fields: Seq<(String, JsonValue)>, name: Seq<char>) -> bool {
    exists|k: int| 0 <= k < fields.len() && #[trigger] fields[k].0@ == name
}

proof fn lemma_position_found(s: Seq<(Seq<char>, ServerView)>, n: Seq<char>)
    ensures
        0 <= server_position(s, n) <= s.len(),
        server_position(s, n) < s.len() ==> s[server_position(s, n)].0 == n,
        forall|j: int| 0 <= j < server_position(s, n) ==> s[j].0 != n,
        has_server(s, n) <==> server_position(s, n) < s.len(),
    decreases s.len(),
{
    if s.len() > 0 && s[0].0 != n {
        lemma_position_found(s.drop_first(), n);
        assert forall|j: int| 0 <= j < server_position(s, n) implies s[j].0 != n by {
            if j > 0 {
                assert(s[j] == s.drop_first()[j - 1]);
            }
        }
        if has_server(s, n) {
            let j = choose|j: int| 0 <= j < s.len() && #[trigger] s[j].0 == n;
            assert(s.drop_first()[j - 1].0 == n);
        }
        if server_position(s, n) < s.len() {
            assert(s[server_position(s, n)] == s.drop_first()[server_position(s, n) - 1]);
        }
    } else if s.len() > 0 {
        assert(s[0].0 == n);
    }
}

proof fn lemma_set_server(s: Seq<(Seq<char>, ServerView)>, n: Seq<char>, c: ServerView, m: Seq<char>)
    ensures
        has_server(set_server(s, n, c), m) <==> has_server(s, m) || m == n,
        server_config(set_server(s, n, c), n) == c,
        m != n && has_server(s, m) ==> server_config(set_server(s, n, c), m) == server_config(s, m),
{
    let t = set_server(s, n, c);
    lemma_position_found(s, n);
    lemma_position_found(s, m);
    let pn = server_position(s, n);
    if pn < s.len() {
        assert forall|j: int| 0 <= j < s.len() implies t[j].0 == s[j].0 by {}
        lemma_server_position(t, n, pn);
        lemma_position_found(t, m);
        lemma_server_position(t, m, server_position(s, m));
        if has_server(t, m) {
            let j = choose|j: int| 0 <= j < t.len() && #[trigger] t[j].0 == m;
            assert(s[j].0 == m);
        }
        if m == n {
            assert(t[pn].0 == n);
        }
    } else {
        assert(t == s.push((n, c)));
        lemma_server_position(t, n, pn);
        assert(t[pn].0 == n);
        if server_position(s, m) < s.len() {
            lemma_server_position(t, m, server_position(s, m));
            assert(t[server_position(s, m)] == s[server_position(s, m)]);
        } else if m != n {
            assert forall|j: int| 0 <= j < t.len() implies t[j].0 != m by {
                if j < s.len() {
                    assert(t[j] == s[j]);
                }
            }
        }
        if has_server(s, m) {
            let j = choose|j: int| 0 <= j < s.len() && #[trigger] s[j].0 == m;
            assert(t[j].0 == m);
        }
    }
}

/// Reading configuration entries that are all valid refuses none of them;
/// afterwards a server is configured exactly when it was before or an
/// entry names it, a server no entry names keeps its configuration, and a
/// named server has the configuration of the last entry naming it.
pub proof fn law_entries_add_and_overwrite(servers: Seq<(Seq<char>, ServerView)>, fields: Seq<(String, JsonValue)>)
    requires
        forall|k: int| 0 <= k < fields.len() ==> (#[trigger] server_entry(fields[k].0@, fields[k].1)) is Ok,
    ensures
        load_entries(servers, fields).1 is None,
        forall|m: Seq<char>|
            #[trigger] has_server(load_entries(servers, fields).0, m) <==> has_server(servers, m) || entry_names(fields, m),
        forall|m: Seq<char>|
            has_server(servers, m) && !entry_names(fields, m) ==> #[trigger] server_config(load_entries(servers, fields).0, m)
                == server_config(servers, m),
        forall|k: int|
            0 <= k < fields.len() && (forall|k2: int| k < k2 < fields.len() ==> fields[k2].0@ != fields[k].0@)
                ==> server_config(load_entries(servers, fields).0, #[trigger] fields[k].0@) == server_entry(
                fields[k].0@,
                fields[k].1,
            )->Ok_0,
    decreases fields.len(),
{
    if fields.len() > 0 {
        let f0 = fields.drop_last();
        let x = fields.last();
        assert forall|k: int| 0 <= k < f0.len() implies (#[trigger] server_entry(f0[k].0@, f0[k].1)) is Ok by {
            assert(f0[k] == fields[k]);
            assert(server_entry(fields[k].0@, fields[k].1) is Ok);
        }
        law_entries_add_and_overwrite(servers, f0);
        assert(server_entry(fields[fields.len() - 1].0@, fields[fields.len() - 1].1) is Ok);
        let s0 = load_entries(servers, f0).0;
        let c = server_entry(x.0@, x.1)->Ok_0;
        assert(load_entries(servers, fields).0 == set_server(s0, x.0@, c));
        assert forall|m: Seq<char>|
            #[trigger] has_server(load_entries(servers, fields).0, m) <==> has_server(servers, m) || entry_names(fields, m) by {
            lemma_set_server(s0, x.0@, c, m);
            if entry_names(f0, m) {
                let k = choose|k: int| 0 <= k < f0.len() && #[trigger] f0[k].0@ == m;
                assert(fields[k].0@ == m);
            }
            if entry_names(fields, m) && m != x.0@ {
                let k = choose|k: int| 0 <= k < fields.len() && #[trigger] fields[k].0@ == m;
                assert(f0[k].0@ == m);
            }
            if m == x.0@ {
                assert(fields[fields.len() - 1].0@ == m);
            }
        }
        assert forall|m: Seq<char>|
            has_server(servers, m) && !entry_names(fields, m) implies #[trigger] server_config(
                load_entries(servers, fields).0,
                m,
            ) == server_config(servers, m) by {
            lemma_set_server(s0, x.0@, c, m);
            assert(fields[fields.len() - 1].0@ == x.0@);
            if entry_names(f0, m) {
                let k = choose|k: int| 0 <= k < f0.len() && #[trigger] f0[k].0@ == m;
                assert(fields[k].0@ == m);
            }
        }
        assert forall|k: int|
            0 <= k < fields.len() && (forall|k2: int| k < k2 < fields.len() ==> fields[k2].0@ != fields[k].0@)
                implies server_config(load_entries(servers, fields).0, #[trigger] fields[k].0@) == server_entry(
                fields[k].0@,
                fields[k].1,
            )->Ok_0 by {
            lemma_set_server(s0, x.0@, c, fields[k].0@);
            if k < fields.len() - 1 {
                assert(f0[k] == fields[k]);
                assert(fields[fields.len() - 1].0@ != fields[k].0@);
                assert forall|k2: int| k < k2 < f0.len() implies f0[k2].0@ != f0[k].0@ by {
                    assert(f0[k2] == fields[k2]);
                }
                assert(entry_names(f0, fields[k].0@));
                assert(has_server(s0, fields[k].0@));
            }
        }
    }
}

/// A configuration loaded into a registry that is not destroyed, from a
/// document whose `servers` entries are all valid, succeeds: servers
/// already configured stay (those no entry names keep their
/// configuration), each named server is added or overwritten with the
/// configuration of its last entry, and nothing else is configured.
pub proof fn law_reload_adds_and_overwrites(
    before: McpRegistryState,
    after: McpRegistryState,
    r: McpRegistryError,
    doc: JsonValue,
    fields: Vec<(String, JsonValue)>,
)
    requires
        !before.destroyed,
        get_spec(doc, "servers"@) == Some(JsonValue::Object(fields)),
        forall|k: int| 0 <= k < fields@.len() ==> (#[trigger] server_entry(fields@[k].0@, fields@[k].1)) is Ok,
        config_loaded(before, after, r, Ok(doc)),
    ensures
        r == McpRegistryError::Success,
        after.last_error == before.last_error,
        forall|m: Seq<char>|
            #[trigger] has_server(servers_view(after.servers@), m) <==> has_server(servers_view(before.servers@), m)
                || entry_names(fields@, m),
        forall|m: Seq<char>|
            has_server(servers_view(before.servers@), m) && !entry_names(fields@, m) ==> #[trigger] server_config(
                servers_view(after.servers@),
                m,
            ) == server_config(servers_view(before.servers@), m),
        forall|k: int|
            0 <= k < fields@.len() && (forall|k2: int| k < k2 < fields@.len() ==> fields@[k2].0@ != fields@[k].0@)
                ==> server_config(servers_view(after.servers@), #[trigger] fields@[k].0@) == server_entry(
                fields@[k].0@,
                fields@[k].1,
            )->Ok_0,
{
    law_entries_add_and_overwrite(servers_view(before.servers@), fields@);
}

// ---------------------------------------------------------------------
// A client's connection
// ---------------------------------------------------------------------

/// The message when a request is made while not connected.
pub open spec fn not_connected_message() -> Seq<char> {
    "client not connected"@
}

/// What a client knows of its connection: where it stands, the last
/// error, the id of its next request, and whether it finished the
/// handshake.  Spawning processes, sending and waiting are the caller's
/// part.
pub struct McpClientState {
    pub state: McpConnectionState,
    pub last_error: String,
    pub next_id: i64,
    pub initialized: bool,
}

/// The parameters of the handshake request.
pub open spec fn is_initialize_params(v: JsonValue, c: McpClientConfig) -> bool {
    &&& v matches JsonValue::Object(f)
    &&& f@.len() == 3
    &&& f@[0].0@ == "protocolVersion"@ && (f@[0].1 matches JsonValue::Str(p) && p@ == c.protocol_version@)
    &&& f@[1].0@ == "clientInfo"@ && (f@[1].1 matches JsonValue::Object(i) && i@.len() == 2
        && i@[0].0@ == "name"@ && (i@[0].1 matches JsonValue::Str(n) && n@ == c.client_name@)
        && i@[1].0@ == "version"@ && (i@[1].1 matches JsonValue::Str(w) && w@ == c.client_version@))
    &&& f@[2].0@ == "capabilities"@ && (f@[2].1 matches JsonValue::Object(k) && k@.len() == 0)
}

/// The parameters of the handshake request: the protocol version, the
/// client's name and version, no capabilities.
pub fn initialize_params(config: &McpClientConfig) -> (r: JsonValue)
    ensures
        is_initialize_params(r, *config),
{
    JsonValue::Object(
        vec![
            (string_of("protocolVersion"), JsonValue::Str(string_of(config.protocol_version.as_str()))),
            (
                string_of("clientInfo"),
                JsonValue::Object(
                    vec![
                        (string_of("name"), JsonValue::Str(string_of(config.client_name.as_str()))),
                        (string_of("version"), JsonValue::Str(string_of(config.client_version.as_str()))),
                    ],
                ),
            ),
            (string_of("capabilities"), JsonValue::Object(Vec::new())),
        ],
    )
}

/// The parameters of a tool call: the tool's name and its arguments (an
/// empty object for `null`).
pub fn call_tool_params(tool_name: &str, arguments: JsonValue) -> (r: JsonValue)
    ensures
        r matches JsonValue::Object(f) && f@.len() == 2 && f@[0].0@ == "name"@ && (f@[0].1 matches JsonValue::Str(n) && n@ == tool_name@)
            && f@[1].0@ == "arguments"@ && if arguments is Null {
            f@[1].1 matches JsonValue::Object(a) && a@.len() == 0
        } else {
            f@[1].1 == arguments
        },
{
    let args = if arguments.is_null() {
        JsonValue::Object(Vec::new())
    } else {
        arguments
    };
    JsonValue::Object(vec![(string_of("name"), JsonValue::Str(string_of(tool_name))), (string_of("arguments"), args)])
}

/// Why a line could not be read from a server process, as the client
/// reports it (the error's name as Rust's `Debug` writes it).
pub open spec fn read_failure_text(e: crate::mcp_transport::TransportError) -> Seq<char> {
    "sendJsonRpc: read error: "@ + match e {
        crate::mcp_transport::TransportError::Success => "Ok"@,
        crate::mcp_transport::TransportError::Timeout => "Timeout"@,
        crate::mcp_transport::TransportError::WriteError => "WriteError"@,
        crate::mcp_transport::TransportError::ReadError => "ReadError"@,
        crate::mcp_transport::TransportError::Eof => "Eof"@,
        crate::mcp_transport::TransportError::SpawnFailed => "SpawnFailed"@,
    }
}

/// The message for a failed read (see [`read_failure_text`]).
pub fn read_failure_message(e: crate::mcp_transport::TransportError) -> (r: String)
    ensures
        r@ == read_failure_text(e),
{
    let mut m = string_of("sendJsonRpc: read error: ");
    push_str(
        &mut m,
        match e {
            crate::mcp_transport::TransportError::Success => "Ok",
            crate::mcp_transport::TransportError::Timeout => "Timeout",
            crate::mcp_transport::TransportError::WriteError => "WriteError",
            crate::mcp_transport::TransportError::ReadError => "ReadError",
            crate::mcp_transport::TransportError::Eof => "Eof",
            crate::mcp_transport::TransportError::SpawnFailed => "SpawnFailed",
        },
    );
    m
}

impl McpClientState {
    /// A client not connected yet; its first request has id 1.
    pub fn new() -> (r: Self)
        ensures
            r.state == McpConnectionState::Disconnected,
            r.last_error@.len() == 0,
            r.next_id == 1,
            !r.initialized,
    {
        McpClientState { state: McpConnectionState::Disconnected, last_error: String::new(), next_id: 1, initialized: false }
    }

    /// Starts connecting.
    pub fn begin_connect(&mut self)
        ensures
            final(self).state == McpConnectionState::Connecting,
            final(self).last_error == old(self).last_error,
            final(self).next_id == old(self).next_id,
            final(self).initialized == old(self).initialized,
    {
        self.state = McpConnectionState::Connecting;
    }

    /// The transport could not be set up: the client is in error, with
    /// the reason.
    pub fn transport_failed(&mut self, error: String)
        ensures
            final(self).state == McpConnectionState::Error,
            final(self).last_error == error,
            final(self).next_id == old(self).next_id,
            final(self).initialized == old(self).initialized,
    {
        self.last_error = error;
        self.state = McpConnectionState::Error;
    }

    /// The id of the next request; later requests get the following ids.
    pub fn take_request_id(&mut self) -> (r: i64)
        requires
            old(self).next_id < i64::MAX,
        ensures
            r == old(self).next_id,
            final(self).next_id == old(self).next_id + 1,
            final(self).state == old(self).state,
            final(self).last_error == old(self).last_error,
            final(self).initialized == old(self).initialized,
    {
        let id = self.next_id;
        self.next_id = id + 1;
        id
    }

    /// Records how a request ended: its error becomes the last error.
    pub fn record_outcome<T>(&mut self, outcome: Result<T, String>) -> (r: Option<T>)
        ensures
            final(self).state == old(self).state,
            final(self).next_id == old(self).next_id,
            final(self).initialized == old(self).initialized,
            match outcome {
                Ok(v) => r == Some(v) && final(self).last_error == old(self).last_error,
                Err(e) => r is None && final(self).last_error == e,
            },
    {
        match outcome {
            Ok(v) => Some(v),
            Err(e) => {
                self.last_error = e;
                None
            },
        }
    }

    /// Whether a request may be made: only when connected; otherwise
    /// the last error says the client is not connected.
    pub fn check_connected(&mut self) -> (r: bool)
        ensures
            r == (old(self).state == McpConnectionState::Connected),
            final(self).state == old(self).state,
            final(self).next_id == old(self).next_id,
            final(self).initialized == old(self).initialized,
            r ==> final(self).last_error == old(self).last_error,
            !r ==> final(self).last_error@ == not_connected_message(),
    {
        if self.state == McpConnectionState::Connected {
            true
        } else {
            self.last_error = string_of("client not connected");
            false
        }
    }

    /// Records how the handshake ended: the reply to the request came
    /// (`replied`), then the notification that follows it was sent
    /// (`notified`).  The handshake succeeds only if both did; a failed
    /// notification is the last error.
    pub fn finish_handshake(&mut self, replied: bool, notified: bool) -> (r: bool)
        ensures
            r == (replied && notified),
            final(self).next_id == old(self).next_id,
            r ==> final(self).initialized && final(self).state == McpConnectionState::Connected
                && final(self).last_error == old(self).last_error,
            !r ==> final(self).initialized == old(self).initialized && final(self).state == McpConnectionState::Error,
            replied && !notified ==> final(self).last_error@ == "initialize: notification failed"@,
            !replied ==> final(self).last_error == old(self).last_error,
    {
        if !replied {
            self.state = McpConnectionState::Error;
            return false;
        }
        if !notified {
            self.last_error = string_of("initialize: notification failed");
            self.state = McpConnectionState::Error;
            return false;
        }
        self.initialized = true;
        self.state = McpConnectionState::Connected;
        true
    }

    /// Starts reconnecting: gives the first pause and the number of
    /// attempts, each replaced by its default when zero.
    pub fn begin_reconnect(&mut self, config: &McpClientConfig) -> (r: (u64, u32))
        ensures
            final(self).state == McpConnectionState::Reconnecting,
            final(self).last_error == old(self).last_error,
            final(self).next_id == old(self).next_id,
            final(self).initialized == old(self).initialized,
            r.0 == or_default_u64(config.reconnect_delay_ms, DEFAULT_RECONNECT_DELAY),
            r.1 == if config.max_reconnect == 0 { DEFAULT_MAX_RECONNECT } else { config.max_reconnect },
    {
        self.state = McpConnectionState::Reconnecting;
        let delay = if config.reconnect_delay_ms > 0 { config.reconnect_delay_ms } else { DEFAULT_RECONNECT_DELAY };
        let attempts = if config.max_reconnect > 0 { config.max_reconnect } else { DEFAULT_MAX_RECONNECT };
        (delay, attempts)
    }

    /// Every attempt failed: the client is in error.
    pub fn reconnect_failed(&mut self, attempts: u32)
        ensures
            final(self).state == McpConnectionState::Error,
            final(self).last_error@ == "reconnect failed after "@ + crate::text::decimal(attempts as nat) + " attempts"@,
            final(self).next_id == old(self).next_id,
            final(self).initialized == old(self).initialized,
    {
        self.state = McpConnectionState::Error;
        self.last_error = reconnect_failure_message(attempts);
    }
}

/// The time between pings, in milliseconds (the default when zero).
pub fn ping_interval_ms(config: &McpClientConfig) -> (r: u64)
    requires
        config.ping_interval_sec <= u64::MAX / 1000,
    ensures
        r == or_default_u64(config.ping_interval_sec, DEFAULT_PING_INTERVAL) * 1000,
{
    if config.ping_interval_sec > 0 {
        config.ping_interval_sec * 1000
    } else {
        DEFAULT_PING_INTERVAL * 1000
    }
}


// ---------------------------------------------------------------------
// JSON-RPC requests to a server
// ---------------------------------------------------------------------

/// The parameters a JSON-RPC message carries: given ones that are not `null`.
pub open spec fn carried_params(params: Option<JsonValue>) -> Option<JsonValue> {
    match params {
        Some(p) => if p is Null { None } else { Some(p) },
        None => None,
    }
}

/// A JSON-RPC request: version `2.0`, the method, the id, and the
/// parameters when there are some that are not `null`.
pub open spec fn is_rpc_request(v: JsonValue, method: Seq<char>, params: Option<JsonValue>, id: i64) -> bool {
    &&& v matches JsonValue::Object(f)
    &&& f@.len() == if carried_params(params) is Some { 4int } else { 3int }
    &&& f@[0].0@ == "jsonrpc"@ && as_str_spec(f@[0].1) == Some("2.0"@)
    &&& f@[1].0@ == "method"@ && as_str_spec(f@[1].1) == Some(method)
    &&& f@[2].0@ == "id"@ && f@[2].1 == JsonValue::Number(Some(id))
    &&& carried_params(params) matches Some(p) ==> f@[3].0@ == "params"@ && f@[3].1 == p
}

/// A JSON-RPC notification: version `2.0`, the method, and the
/// parameters when there are some that are not `null`; no id.
pub open spec fn is_rpc_notification(v: JsonValue, method: Seq<char>, params: Option<JsonValue>) -> bool {
    &&& v matches JsonValue::Object(f)
    &&& f@.len() == if carried_params(params) is Some { 3int } else { 2int }
    &&& f@[0].0@ == "jsonrpc"@ && as_str_spec(f@[0].1) == Some("2.0"@)
    &&& f@[1].0@ == "method"@ && as_str_spec(f@[1].1) == Some(method)
    &&& carried_params(params) matches Some(p) ==> f@[2].0@ == "params"@ && f@[2].1 == p
}

fn push_params(fields: &mut Vec<(String, JsonValue)>, params: Option<JsonValue>)
    ensures
        carried_params(params) is None ==> final(fields)@ == old(fields)@,
        carried_params(params) matches Some(p) ==> final(fields)@.len() == old(fields)@.len() + 1
            && final(fields)@.take(old(fields)@.len() as int) == old(fields)@
            && final(fields)@.last().0@ == "params"@ && final(fields)@.last().1 == p,
{
    match params {
        Some(p) => {
            if !p.is_null() {
                let ghost before = fields@;
                fields.push((string_of("params"), p));
                assert(fields@.take(before.len() as int) =~= before);
            }
        },
        None => {},
    }
}

/// A JSON-RPC reply line decoded as JSON, or the decoder's message.
pub fn parse_response(json_str: &str) -> (r: Result<JsonValue, String>)
    ensures
        match r {
            Ok(v) => json_decoded(json_str@) == Ok::<JsonValue, Seq<char>>(v),
            Err(e) => json_decoded(json_str@) == Err::<JsonValue, Seq<char>>(e@),
        },
{
    decode_json(json_str)
}

/// A JSON-RPC request (see [`is_rpc_request`]).
pub fn build_request(method: &str, params: Option<JsonValue>, id: i64) -> (r: JsonValue)
    ensures
        is_rpc_request(r, method@, params, id),
{
    let mut fields: Vec<(String, JsonValue)> = vec![
        (string_of("jsonrpc"), JsonValue::Str(string_of("2.0"))),
        (string_of("method"), JsonValue::Str(string_of(method))),
        (string_of("id"), JsonValue::Number(Some(id))),
    ];
    let ghost before = fields@;
    push_params(&mut fields, params);
    proof {
        if carried_params(params) is Some {
            assert(fields@[0] == before[0] && fields@[1] == before[1] && fields@[2] == before[2]);
        }
    }
    JsonValue::Object(fields)
}

/// A JSON-RPC notification (see [`is_rpc_notification`]).
pub fn build_notification(method: &str, params: Option<JsonValue>) -> (r: JsonValue)
    ensures
        is_rpc_notification(r, method@, params),
{
    let mut fields: Vec<(String, JsonValue)> = vec![
        (string_of("jsonrpc"), JsonValue::Str(string_of("2.0"))),
        (string_of("method"), JsonValue::Str(string_of(method))),
    ];
    let ghost before = fields@;
    push_params(&mut fields, params);
    proof {
        if carried_params(params) is Some {
            assert(fields@[0] == before[0] && fields@[1] == before[1]);
        }
    }
    JsonValue::Object(fields)
}

} // verus!
