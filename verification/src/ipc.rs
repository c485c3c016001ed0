//! The agent server's side of the local JSON-RPC protocol: which socket
//! it listens on, what each request asks for and is answered, which
//! sessions a connection owns, and the notifications that report a turn.
//! Sockets, sessions and their tasks are the caller's part.
use vstd::prelude::*;
use crate::agent::AgentEvent;
use crate::json::{as_str_spec, get_i64, i64_member, str_member, str_or, str_or_empty, text_or, JsonValue};
use crate::text::{decimal, push_decimal, push_str, string_of};

verus! {

pub const PARSE_ERROR: i32 = -32700;
pub const INVALID_REQUEST: i32 = -32600;
pub const METHOD_NOT_FOUND: i32 = -32601;
pub const INVALID_PARAMS: i32 = -32602;
pub const INTERNAL_ERROR: i32 = -32603;
pub const SESSION_NOT_FOUND: i32 = -31001;
pub const INVALID_SESSION_ID: i32 = -31002;

pub const METHOD_CREATE_SESSION: &'static str = "create_session";
pub const METHOD_USER_MESSAGE: &'static str = "user_message";
pub const METHOD_CANCEL: &'static str = "cancel";
pub const METHOD_DESTROY_SESSION: &'static str = "destroy_session";
pub const METHOD_LIST_SESSIONS: &'static str = "list_sessions";
pub const METHOD_SET_CONFIG: &'static str = "set_config";
pub const METHOD_SET_AGENT_MODE: &'static str = "set_agent_mode";

pub const METHOD_ASSISTANT_TEXT: &'static str = "assistant_text";
pub const METHOD_ASSISTANT_REASONING: &'static str = "assistant_reasoning";
pub const METHOD_TOOL_CALL_START: &'static str = "tool_call_start";
pub const METHOD_TOOL_RESULT: &'static str = "tool_result";
pub const METHOD_USAGE: &'static str = "usage";
pub const METHOD_TASK_DONE: &'static str = "task_done";
pub const METHOD_ERROR: &'static str = "error";
pub const METHOD_SESSION_CREATED: &'static str = "session_created";
pub const METHOD_SESSION_DESTROYED: &'static str = "session_destroyed";

/// What went wrong with the socket.
#[derive(Debug)]
pub enum IpcTransportError {
    BindFailed(String),
    AcceptFailed(String),
    ConnectFailed(String),
    ReadError(String),
    WriteError(String),
    ParseError(String),
}

/// The description of a transport error: what failed, and why.
pub open spec fn transport_error_text(e: IpcTransportError) -> Seq<char> {
    match e {
        IpcTransportError::BindFailed(m) => "bind failed: "@ + m@,
        IpcTransportError::AcceptFailed(m) => "accept failed: "@ + m@,
        IpcTransportError::ConnectFailed(m) => "connect failed: "@ + m@,
        IpcTransportError::ReadError(m) => "read error: "@ + m@,
        IpcTransportError::WriteError(m) => "write error: "@ + m@,
        IpcTransportError::ParseError(m) => "parse error: "@ + m@,
    }
}

impl IpcTransportError {
    /// The description of the error (see [`transport_error_text`]).
    pub fn to_string(&self) -> (r: String)
        ensures
            r@ == transport_error_text(*self),
    {
        let (head, m) = match self {
            IpcTransportError::BindFailed(m) => ("bind failed: ", m),
            IpcTransportError::AcceptFailed(m) => ("accept failed: ", m),
            IpcTransportError::ConnectFailed(m) => ("connect failed: ", m),
            IpcTransportError::ReadError(m) => ("read error: ", m),
            IpcTransportError::WriteError(m) => ("write error: ", m),
            IpcTransportError::ParseError(m) => ("parse error: ", m),
        };
        let mut s = string_of(head);
        push_str(&mut s, m.as_str());
        s
    }
}

/// The socket of user `uid` when none is given.
pub open spec fn default_path(uid: u32) -> Seq<char> {
    "/tmp/crown-code-"@ + decimal(uid as nat) + ".sock"@
}

/// The socket of user `uid` when none is given (see [`default_path`]).
pub fn default_socket_path(uid: u32) -> (r: String)
    ensures
        r@ == default_path(uid),
{
    let mut s = string_of("/tmp/crown-code-");
    push_decimal(&mut s, uid as u64);
    push_str(&mut s, ".sock");
    s
}

/// The socket to use: the one given on the command line, else the
/// non-empty value of `CROWN_SOCKET_PATH` (`env`), else the default for
/// user `uid`.
pub fn resolve_socket_path(cli_override: Option<&str>, env: Option<&str>, uid: u32) -> (r: String)
    ensures
        match cli_override {
            Some(p) => r@ == p@,
            None => match env {
                Some(e) if e@.len() != 0 => r@ == e@,
                _ => r@ == default_path(uid),
            },
        },
{
    if let Some(p) = cli_override {
        return string_of(p);
    }
    if let Some(e) = env {
        if !e.is_empty() {
            return string_of(e);
        }
    }
    default_socket_path(uid)
}

/// What the server knows of a session.
#[derive(Debug, Clone)]
pub struct SessionInfo {
    pub session_id: String,
    pub cwd: String,
    pub created_at: u64,
    pub message_count: usize,
}

/// The sessions one connection created and has not destroyed, each once.
pub struct OwnedSessions {
    ids: Vec<String>,
}

impl OwnedSessions {
    /// The ids owned.
    pub closed spec fn view_ids(&self) -> Set<Seq<char>> {
        self.ids@.map_values(|s: String| s@).to_set()
    }

    spec fn wf(&self) -> bool {
        self.ids@.map_values(|s: String| s@).no_duplicates()
    }

    #[verifier::type_invariant]
    spec fn type_inv(&self) -> bool {
        self.wf()
    }

    /// No session.
    pub fn new() -> (r: Self)
        ensures
            r.view_ids() == Set::<Seq<char>>::empty(),
    {
        let r = OwnedSessions { ids: Vec::new() };
        assert(r.ids@.map_values(|s: String| s@) =~= Seq::empty());
        assert(r.view_ids() =~= Set::<Seq<char>>::empty());
        r
    }

    fn position(&self, id: &str) -> (r: usize)
        ensures
            r <= self.ids@.len(),
            r < self.ids@.len() ==> self.ids@[r as int]@ == id@,
            r == self.ids@.len() ==> !self.view_ids().contains(id@),
    {
        let ghost v = self.ids@.map_values(|s: String| s@);
        let mut i: usize = 0;
        while i < self.ids.len()
            invariant
                i <= self.ids@.len(),
                v == self.ids@.map_values(|s: String| s@),
                forall|j: int| 0 <= j < i ==> v[j] != id@,
            decreases self.ids@.len() - i,
        {
            if string_of(self.ids[i].as_str()) == string_of(id) {
                return i;
            }
            assert(v[i as int] == self.ids@[i as int]@);
            i += 1;
        }
        assert(!v.contains(id@));
        i
    }

    /// Whether session `id` is owned.
    pub fn contains(&self, id: &str) -> (r: bool)
        ensures
            r == self.view_ids().contains(id@),
    {
        let p = self.position(id);
        if p < self.ids.len() {
            assert(self.ids@.map_values(|s: String| s@)[p as int] == id@);
            true
        } else {
            false
        }
    }

    /// Takes session `id` in.
    pub fn insert(&mut self, id: String)
        ensures
            final(self).view_ids() == old(self).view_ids().insert(id@),
    {
        proof {
            use_type_invariant(&*self);
        }
        if self.contains(id.as_str()) {
            assert(self.view_ids().insert(id@) =~= self.view_ids());
            return;
        }
        let ghost v = self.ids@.map_values(|s: String| s@);
        let ghost id_view = id@;
        let mut ids: Vec<String> = Vec::new();
        std::mem::swap(&mut ids, &mut self.ids);
        ids.push(id);
        assert(ids@.map_values(|s: String| s@) =~= v.push(id_view));
        proof {
            v.lemma_push_to_set_commute(id_view);
            assert(!v.contains(id_view));
            assert(v.push(id_view).no_duplicates()) by {
                assert forall|a: int, b: int| 0 <= a < b < v.len() + 1 implies v.push(id_view)[a] != v.push(id_view)[b] by {
                    if b == v.len() {
                        assert(v.push(id_view)[a] == v[a]);
                    }
                }
            }
        }
        self.ids = ids;
    }

    /// Lets session `id` go.
    pub fn remove(&mut self, id: &str)
        ensures
            final(self).view_ids() == old(self).view_ids().remove(id@),
    {
        proof {
            use_type_invariant(&*self);
        }
        let p = self.position(id);
        if p == self.ids.len() {
            assert(self.view_ids().remove(id@) =~= self.view_ids());
            return;
        }
        let ghost v = self.ids@.map_values(|s: String| s@);
        let ghost old_set = self.view_ids();
        let mut ids: Vec<String> = Vec::new();
        std::mem::swap(&mut ids, &mut self.ids);
        ids.remove(p);
        let ghost w = ids@.map_values(|s: String| s@);
        assert(w =~= v.remove(p as int));
        proof {
            assert(v.no_duplicates());
            assert(v[p as int] == id@);
            assert forall|x: Seq<char>| w.to_set().contains(x) <==> old_set.remove(id@).contains(x) by {
                if w.to_set().contains(x) {
                    let k = choose|k: int| 0 <= k < w.len() && w[k] == x;
                    if k < p {
                        assert(v[k] == x);
                        assert(v[k] != v[p as int]);
                    } else {
                        assert(v[k + 1] == x);
                        assert(v[k + 1] != v[p as int]);
                    }
                    assert(v.contains(x));
                    assert(x != id@);
                }
                if old_set.remove(id@).contains(x) {
                    assert(v.contains(x));
                    let k = choose|k: int| 0 <= k < v.len() && v[k] == x;
                    assert(k != p as int);
                    if k < p {
                        assert(w[k] == x);
                    } else {
                        assert(w[k - 1] == x);
                    }
                }
            }
            assert(w.to_set() =~= old_set.remove(id@));
            assert(w.no_duplicates()) by {
                assert forall|a: int, b: int| 0 <= a < b < w.len() implies w[a] != w[b] by {
                    let a2 = if a < p { a } else { a + 1 };
                    let b2 = if b < p { b } else { b + 1 };
                    assert(w[a] == v[a2]);
                    assert(w[b] == v[b2]);
                }
            }
        }
        self.ids = ids;
    }
}

/// An answer to a request: its result, or an error code and message.
#[derive(Debug)]
pub enum RpcReply {
    Result(JsonValue),
    Failure { code: i32, message: String },
}

/// What a configuration request changes; the temperature, a fraction, is
/// read by the caller.
#[derive(Debug)]
pub struct ConfigUpdate {
    pub base_url: Option<String>,
    pub api_key: Option<String>,
    pub model: Option<String>,
    pub max_tokens: Option<i32>,
}

/// The work a request asks for.
#[derive(Debug)]
pub enum IpcRequest {
    CreateSession { cwd: String },
    ListSessions,
    DestroySession { session_id: String },
    UserMessage { session_id: String, content: String },
    Cancel { session_id: String },
    SetConfig(ConfigUpdate),
}

/// What to do with a request: answer it at once, or do its work first.
#[derive(Debug)]
pub enum RequestPlan {
    Reply(RpcReply),
    Do(IpcRequest),
}

/// A string parameter (empty when missing).
pub open spec fn param(params: Option<JsonValue>, key: Seq<char>) -> Seq<char> {
    match params {
        Some(p) => text_or(str_member(p, key), Seq::empty()),
        None => Seq::empty(),
    }
}

/// An optional string parameter.
pub open spec fn opt_param(params: Option<JsonValue>, key: Seq<char>) -> Option<Seq<char>> {
    match params {
        Some(p) => str_member(p, key),
        None => None,
    }
}

/// Whether `o` holds the text `t`.
pub open spec fn same_opt(o: Option<String>, t: Option<Seq<char>>) -> bool {
    match (o, t) {
        (Some(a), Some(b)) => a@ == b,
        (None, None) => true,
        _ => false,
    }
}

/// Whether `r` is the result `{"ok": true}`.
pub open spec fn is_ok_reply(r: RpcReply) -> bool {
    &&& r matches RpcReply::Result(JsonValue::Object(f))
    &&& f@.len() == 1
    &&& f@[0].0@ == "ok"@
    &&& f@[0].1 == JsonValue::Bool(true)
}

/// Whether `r` is the error with `code` and `message`.
pub open spec fn is_failure(r: RpcReply, code: i32, message: Seq<char>) -> bool {
    r matches RpcReply::Failure { code: c, message: m } && c == code && m@ == message
}

/// Whether `p` is the plan for a request with `method` and `params`, on
/// a connection owning `owned`.
pub open spec fn is_request_plan(p: RequestPlan, method: Seq<char>, params: Option<JsonValue>, owned: Set<Seq<char>>) -> bool {
    let sid = param(params, "session_id"@);
    if method == METHOD_CREATE_SESSION@ {
        p matches RequestPlan::Do(IpcRequest::CreateSession { cwd }) && cwd@ == text_or(
            opt_param(params, "cwd"@),
            "."@,
        )
    } else if method == METHOD_LIST_SESSIONS@ {
        p matches RequestPlan::Do(IpcRequest::ListSessions)
    } else if method == METHOD_DESTROY_SESSION@ {
        p matches RequestPlan::Do(IpcRequest::DestroySession { session_id }) && session_id@ == sid
    } else if method == METHOD_USER_MESSAGE@ {
        if owned.contains(sid) {
            p matches RequestPlan::Do(IpcRequest::UserMessage { session_id, content }) && session_id@
                == sid && content@ == param(params, "content"@)
        } else {
            p matches RequestPlan::Reply(r) && is_failure(r, SESSION_NOT_FOUND, "session not found or not owned"@)
        }
    } else if method == METHOD_CANCEL@ {
        p matches RequestPlan::Do(IpcRequest::Cancel { session_id }) && session_id@ == sid
    } else if method == METHOD_SET_CONFIG@ {
        p matches RequestPlan::Do(IpcRequest::SetConfig(u)) && same_opt(u.base_url, opt_param(params, "base_url"@))
            && same_opt(u.api_key, opt_param(params, "api_key"@)) && same_opt(u.model, opt_param(params, "model"@))
            && u.max_tokens == match params {
            Some(q) => match i64_member(q, "max_tokens"@) {
                Some(n) => Some(n as i32),
                None => None,
            },
            None => None,
        }
    } else if method == METHOD_SET_AGENT_MODE@ {
        p matches RequestPlan::Reply(r) && is_ok_reply(r)
    } else {
        p matches RequestPlan::Reply(r) && is_failure(r, METHOD_NOT_FOUND, "unknown method: "@ + method)
    }
}

fn same(a: &str, b: &str) -> (r: bool)
    ensures
        r == (a@ == b@),
{
    string_of(a) == string_of(b)
}

fn opt_str(params: Option<&JsonValue>, key: &str) -> (r: Option<String>)
    ensures
        same_opt(
            r,
            opt_param(
                match params {
                    Some(p) => Some(*p),
                    None => None,
                },
                key@,
            ),
        ),
{
    match params {
        Some(p) => match crate::json::get_str(p, key) {
            Some(s) => Some(string_of(s)),
            None => None,
        },
        None => None,
    }
}

fn str_param(params: Option<&JsonValue>, key: &str) -> (r: String)
    ensures
        r@ == param(
            match params {
                Some(p) => Some(*p),
                None => None,
            },
            key@,
        ),
{
    match params {
        Some(p) => str_or_empty(p, key),
        None => String::new(),
    }
}

/// `{"ok": true}`.
pub fn ok_reply() -> (r: RpcReply)
    ensures
        is_ok_reply(r),
{
    RpcReply::Result(JsonValue::Object(vec![(string_of("ok"), JsonValue::Bool(true))]))
}

fn failure(code: i32, message: &str) -> (r: RpcReply)
    ensures
        is_failure(r, code, message@),
{
    RpcReply::Failure { code, message: string_of(message) }
}

/// What a request with `method` (empty when it has none) and `params`
/// asks for, on a connection owning `owned` (see [`is_request_plan`]):
/// a message for a session the connection does not own and an unknown
/// method are refused at once.
pub fn plan_request(method: &str, params: Option<&JsonValue>, owned: &OwnedSessions) -> (r: RequestPlan)
    ensures
        is_request_plan(
            r,
            method@,
            match params {
                Some(p) => Some(*p),
                None => None,
            },
            owned.view_ids(),
        ),
{
    if same(method, METHOD_CREATE_SESSION) {
        let cwd = match params {
            Some(p) => str_or(p, "cwd", "."),
            None => string_of("."),
        };
        RequestPlan::Do(IpcRequest::CreateSession { cwd })
    } else if same(method, METHOD_LIST_SESSIONS) {
        RequestPlan::Do(IpcRequest::ListSessions)
    } else if same(method, METHOD_DESTROY_SESSION) {
        RequestPlan::Do(IpcRequest::DestroySession { session_id: str_param(params, "session_id") })
    } else if same(method, METHOD_USER_MESSAGE) {
        let session_id = str_param(params, "session_id");
        if !owned.contains(session_id.as_str()) {
            return RequestPlan::Reply(failure(SESSION_NOT_FOUND, "session not found or not owned"));
        }
        RequestPlan::Do(IpcRequest::UserMessage { session_id, content: str_param(params, "content") })
    } else if same(method, METHOD_CANCEL) {
        RequestPlan::Do(IpcRequest::Cancel { session_id: str_param(params, "session_id") })
    } else if same(method, METHOD_SET_CONFIG) {
        let max_tokens = match params {
            Some(p) => match get_i64(p, "max_tokens") {
                Some(n) => Some(n as i32),
                None => None,
            },
            None => None,
        };
        RequestPlan::Do(
            IpcRequest::SetConfig(
                ConfigUpdate {
                    base_url: opt_str(params, "base_url"),
                    api_key: opt_str(params, "api_key"),
                    model: opt_str(params, "model"),
                    max_tokens,
                },
            ),
        )
    } else if same(method, METHOD_SET_AGENT_MODE) {
        RequestPlan::Reply(ok_reply())
    } else {
        let mut m = string_of("unknown method: ");
        push_str(&mut m, method);
        RequestPlan::Reply(RpcReply::Failure { code: METHOD_NOT_FOUND, message: m })
    }
}

/// The answer once session `session_id` was created: the connection owns
/// it, and the result names it.
pub fn session_created_reply(owned: &mut OwnedSessions, session_id: String) -> (r: RpcReply)
    ensures
        final(owned).view_ids() == old(owned).view_ids().insert(session_id@),
        r matches RpcReply::Result(JsonValue::Object(f)) && f@.len() == 1 && f@[0].0@ == "session_id"@ && (f@[0].1 matches JsonValue::Str(s) && s@ == session_id@),
{
    owned.insert(string_of(session_id.as_str()));
    RpcReply::Result(JsonValue::Object(vec![(string_of("session_id"), JsonValue::Str(session_id))]))
}

/// The answer to destroying session `session_id`, which existed when
/// `found`: the connection lets it go.
pub fn session_destroyed_reply(owned: &mut OwnedSessions, session_id: &str, found: bool) -> (r: RpcReply)
    ensures
        found ==> final(owned).view_ids() == old(owned).view_ids().remove(session_id@) && is_ok_reply(r),
        !found ==> final(owned).view_ids() == old(owned).view_ids() && is_failure(r, SESSION_NOT_FOUND, "session not found"@),
{
    if found {
        owned.remove(session_id);
        ok_reply()
    } else {
        failure(SESSION_NOT_FOUND, "session not found")
    }
}

/// The answer to a request about a session, which existed when `found`
/// (a user message, which then runs on its own, or a cancellation).
pub fn session_request_reply(found: bool) -> (r: RpcReply)
    ensures
        found ==> is_ok_reply(r),
        !found ==> is_failure(r, SESSION_NOT_FOUND, "session not found"@),
{
    if found {
        ok_reply()
    } else {
        failure(SESSION_NOT_FOUND, "session not found")
    }
}

/// A string member.
pub open spec fn is_str_member(m: (String, JsonValue), key: Seq<char>, value: Seq<char>) -> bool {
    m.0@ == key && (m.1 matches JsonValue::Str(s) && s@ == value)
}

/// A number member.
pub open spec fn is_int_member(m: (String, JsonValue), key: Seq<char>, value: int) -> bool {
    m.0@ == key && (m.1 matches JsonValue::Number(Some(n)) && n == value)
}

fn str_member_of(key: &str, value: &str) -> (r: (String, JsonValue))
    ensures
        is_str_member(r, key@, value@),
{
    (string_of(key), JsonValue::Str(string_of(value)))
}

fn int_member_of(key: &str, value: i32) -> (r: (String, JsonValue))
    ensures
        is_int_member(r, key@, value as int),
{
    (string_of(key), JsonValue::Number(Some(value as i64)))
}

/// Whether `(method, params)` is the notification that reports `e` for
/// session `sid`: its method, and its parameters in order, the session
/// first.
pub open spec fn is_notification(n: (String, JsonValue), sid: Seq<char>, e: AgentEvent) -> bool {
    &&& n.1 matches JsonValue::Object(f)
    &&& f@.len() >= 1
    &&& is_str_member(f@[0], "session_id"@, sid)
    &&& match e {
        AgentEvent::AssistantText(t) => n.0@ == METHOD_ASSISTANT_TEXT@ && f@.len() == 2 && is_str_member(f@[1], "delta"@, t@),
        AgentEvent::Reasoning(t) => n.0@ == METHOD_ASSISTANT_REASONING@ && f@.len() == 2 && is_str_member(f@[1], "delta"@, t@),
        AgentEvent::ToolCallStart { call_id, name, arguments } => n.0@ == METHOD_TOOL_CALL_START@ && f@.len() == 4
            && is_str_member(f@[1], "call_id"@, call_id@) && is_str_member(f@[2], "name"@, name@)
            && is_str_member(f@[3], "arguments"@, arguments@),
        AgentEvent::ToolResult { call_id, name, content, is_error } => n.0@ == METHOD_TOOL_RESULT@ && f@.len() == 5
            && is_str_member(f@[1], "call_id"@, call_id@) && is_str_member(f@[2], "name"@, name@)
            && is_str_member(f@[3], "content"@, content@) && f@[4].0@ == "is_error"@ && f@[4].1 == JsonValue::Bool(is_error),
        AgentEvent::Usage { input_tokens, output_tokens, cache_read_tokens } => n.0@ == METHOD_USAGE@ && f@.len() == 4
            && is_int_member(f@[1], "input_tokens"@, input_tokens as int)
            && is_int_member(f@[2], "output_tokens"@, output_tokens as int)
            && is_int_member(f@[3], "cache_read_tokens"@, cache_read_tokens as int),
        AgentEvent::Error { code, message } => n.0@ == METHOD_ERROR@ && f@.len() == 3
            && is_int_member(f@[1], "code"@, code as int) && is_str_member(f@[2], "message"@, message@),
    }
}

/// The notification (method and parameters) that reports `event` for
/// session `session_id`.
pub fn event_notification(session_id: &str, event: &AgentEvent) -> (r: (String, JsonValue))
    ensures
        is_notification(r, session_id@, *event),
{
    let sid = str_member_of("session_id", session_id);
    match event {
        AgentEvent::AssistantText(t) => (
            string_of(METHOD_ASSISTANT_TEXT),
            JsonValue::Object(vec![sid, str_member_of("delta", t.as_str())]),
        ),
        AgentEvent::Reasoning(t) => (
            string_of(METHOD_ASSISTANT_REASONING),
            JsonValue::Object(vec![sid, str_member_of("delta", t.as_str())]),
        ),
        AgentEvent::ToolCallStart { call_id, name, arguments } => (
            string_of(METHOD_TOOL_CALL_START),
            JsonValue::Object(
                vec![
                    sid,
                    str_member_of("call_id", call_id.as_str()),
                    str_member_of("name", name.as_str()),
                    str_member_of("arguments", arguments.as_str()),
                ],
            ),
        ),
        AgentEvent::ToolResult { call_id, name, content, is_error } => (
            string_of(METHOD_TOOL_RESULT),
            JsonValue::Object(
                vec![
                    sid,
                    str_member_of("call_id", call_id.as_str()),
                    str_member_of("name", name.as_str()),
                    str_member_of("content", content.as_str()),
                    (string_of("is_error"), JsonValue::Bool(*is_error)),
                ],
            ),
        ),
        AgentEvent::Usage { input_tokens, output_tokens, cache_read_tokens } => (
            string_of(METHOD_USAGE),
            JsonValue::Object(
                vec![
                    sid,
                    int_member_of("input_tokens", *input_tokens),
                    int_member_of("output_tokens", *output_tokens),
                    int_member_of("cache_read_tokens", *cache_read_tokens),
                ],
            ),
        ),
        AgentEvent::Error { code, message } => (
            string_of(METHOD_ERROR),
            JsonValue::Object(
                vec![sid, int_member_of("code", *code), str_member_of("message", message.as_str())],
            ),
        ),
    }
}


// ---------------------------------------------------------------------
// JSON-RPC messages between the daemon and its clients
// ---------------------------------------------------------------------

/// The error of a JSON-RPC response.
#[derive(Debug)]
pub struct JsonRpcError {
    pub code: i32,
    pub message: String,
    pub data: Option<JsonValue>,
}

/// A JSON-RPC message: a request (id and method), a notification (method,
/// no id) or a response (id, result or error).
#[derive(Debug)]
pub struct JsonRpcMessage {
    pub jsonrpc: String,
    pub id: Option<u64>,
    pub method: Option<String>,
    pub params: Option<JsonValue>,
    pub result: Option<JsonValue>,
    pub error: Option<JsonRpcError>,
}

impl JsonRpcMessage {
    /// Whether it is a request: it has an id and a method.
    pub fn is_request(&self) -> (r: bool)
        ensures
            r == (self.id is Some && self.method is Some),
    {
        self.id.is_some() && self.method.is_some()
    }

    /// Whether it is a notification: a method without an id.
    pub fn is_notification(&self) -> (r: bool)
        ensures
            r == (self.id is None && self.method is Some),
    {
        self.id.is_none() && self.method.is_some()
    }

    /// Whether it is a response: an id without a method.
    pub fn is_response(&self) -> (r: bool)
        ensures
            r == (self.id is Some && self.method is None),
    {
        self.id.is_some() && self.method.is_none()
    }
}

/// Whether a message is of version `2.0` with exactly the parts given.
pub open spec fn is_rpc_message(
    m: JsonRpcMessage,
    id: Option<u64>,
    method: Option<Seq<char>>,
    params: Option<JsonValue>,
    result: Option<JsonValue>,
) -> bool {
    &&& m.jsonrpc@ == "2.0"@
    &&& m.id == id
    &&& match m.method {
        Some(x) => method == Some(x@),
        None => method is None,
    }
    &&& m.params == params
    &&& m.result == result
}

/// A request with an id, a method and parameters.
pub fn make_request(id: u64, method: &str, params: JsonValue) -> (r: JsonRpcMessage)
    ensures
        is_rpc_message(r, Some(id), Some(method@), Some(params), None),
        r.error is None,
{
    JsonRpcMessage {
        jsonrpc: string_of("2.0"),
        id: Some(id),
        method: Some(string_of(method)),
        params: Some(params),
        result: None,
        error: None,
    }
}

/// A notification with a method and parameters.
pub fn make_notification(method: &str, params: JsonValue) -> (r: JsonRpcMessage)
    ensures
        is_rpc_message(r, None, Some(method@), Some(params), None),
        r.error is None,
{
    JsonRpcMessage { jsonrpc: string_of("2.0"), id: None, method: Some(string_of(method)), params: Some(params), result: None, error: None }
}

/// A response with a result.
pub fn make_response(id: u64, result: JsonValue) -> (r: JsonRpcMessage)
    ensures
        is_rpc_message(r, Some(id), None, None, Some(result)),
        r.error is None,
{
    JsonRpcMessage { jsonrpc: string_of("2.0"), id: Some(id), method: None, params: None, result: Some(result), error: None }
}

/// A response with an error: its code, message and data.
pub fn make_error_response(id: u64, code: i32, message: &str, data: Option<JsonValue>) -> (r: JsonRpcMessage)
    ensures
        is_rpc_message(r, Some(id), None, None, None),
        r.error matches Some(e) && e.code == code && e.message@ == message@ && e.data == data,
{
    JsonRpcMessage {
        jsonrpc: string_of("2.0"),
        id: Some(id),
        method: None,
        params: None,
        result: None,
        error: Some(JsonRpcError { code, message: string_of(message), data }),
    }
}

/// A JSON number for an id (none beyond `i64`'s range).
pub open spec fn id_number(id: u64) -> JsonValue {
    JsonValue::Number(if id <= i64::MAX { Some(id as i64) } else { None })
}

pub open spec fn members_view(f: Seq<(String, JsonValue)>) -> Seq<(Seq<char>, JsonValue)> {
    f.map_values(|m: (String, JsonValue)| (m.0@, m.1))
}

/// The members of a message's JSON form before its error: `jsonrpc`, then
/// `id`, `method`, `params` and `result` when present.
pub open spec fn rpc_members(m: JsonRpcMessage) -> Seq<(Seq<char>, JsonValue)> {
    seq![("jsonrpc"@, JsonValue::Str(m.jsonrpc))] + (match m.id {
        Some(i) => seq![("id"@, id_number(i))],
        None => Seq::empty(),
    }) + (match m.method {
        Some(x) => seq![("method"@, JsonValue::Str(x))],
        None => Seq::empty(),
    }) + (match m.params {
        Some(p) => seq![("params"@, p)],
        None => Seq::empty(),
    }) + (match m.result {
        Some(p) => seq![("result"@, p)],
        None => Seq::empty(),
    })
}

/// The JSON form of a response's error: `code`, `message`, and `data`
/// when present.
pub open spec fn is_rpc_error_json(v: JsonValue, e: JsonRpcError) -> bool {
    &&& v matches JsonValue::Object(f)
    &&& f@.len() == if e.data is Some { 3int } else { 2int }
    &&& f@[0].0@ == "code"@ && f@[0].1 == JsonValue::Number(Some(e.code as i64))
    &&& f@[1].0@ == "message"@ && as_str_spec(f@[1].1) == Some(e.message@)
    &&& e.data matches Some(d) ==> f@[2].0@ == "data"@ && f@[2].1 == d
}

/// The JSON form of a message: its members in order, the parts it lacks
/// left out (see [`rpc_members`]), its error last.
pub open spec fn is_rpc_json(v: JsonValue, m: JsonRpcMessage) -> bool {
    &&& v matches JsonValue::Object(f)
    &&& match m.error {
        None => members_view(f@) == rpc_members(m),
        Some(e) => f@.len() == rpc_members(m).len() + 1 && members_view(f@.drop_last()) == rpc_members(m) && f@.last().0@
            == "error"@ && is_rpc_error_json(f@.last().1, e),
    }
}

fn push_member(fields: &mut Vec<(String, JsonValue)>, key: &str, value: JsonValue)
    ensures
        members_view(final(fields)@) == members_view(old(fields)@).push((key@, value)),
        final(fields)@.len() == old(fields)@.len() + 1,
        final(fields)@.drop_last() == old(fields)@,
        final(fields)@[old(fields)@.len() as int] == (final(fields)@.last().0, value),
        final(fields)@.last().0@ == key@,
        final(fields)@.last().1 == value,
{
    let ghost before = fields@;
    fields.push((string_of(key), value));
    assert(members_view(fields@) =~= members_view(before).push((key@, value)));
    assert(fields@.drop_last() =~= before);
}

impl JsonRpcMessage {
    /// The message's JSON form (see [`is_rpc_json`]).
    pub fn to_json_value(self) -> (r: JsonValue)
        ensures
            is_rpc_json(r, self),
    {
        let ghost m = self;
        let mut fields: Vec<(String, JsonValue)> = Vec::new();
        push_member(&mut fields, "jsonrpc", JsonValue::Str(self.jsonrpc));
        assert(members_view(fields@) =~= seq![("jsonrpc"@, JsonValue::Str(m.jsonrpc))]);
        let ghost p0 = members_view(fields@);
        match self.id {
            Some(i) => {
                let n = if i <= 9223372036854775807u64 { Some(i as i64) } else { None };
                push_member(&mut fields, "id", JsonValue::Number(n));
            },
            None => {},
        }
        let ghost p1 = members_view(fields@);
        match self.method {
            Some(x) => push_member(&mut fields, "method", JsonValue::Str(x)),
            None => {},
        }
        let ghost p2 = members_view(fields@);
        match self.params {
            Some(p) => push_member(&mut fields, "params", p),
            None => {},
        }
        let ghost p3 = members_view(fields@);
        match self.result {
            Some(p) => push_member(&mut fields, "result", p),
            None => {},
        }
        assert(members_view(fields@) =~= rpc_members(m));
        match self.error {
            Some(e) => {
                let ghost ev = e;
                let mut ef: Vec<(String, JsonValue)> = Vec::new();
                push_member(&mut ef, "code", JsonValue::Number(Some(e.code as i64)));
                let ghost after_code = ef@;
                push_member(&mut ef, "message", JsonValue::Str(e.message));
                let ghost before_data = ef@;
                assert(before_data[0] == after_code[0]);
                match e.data {
                    Some(d) => {
                        push_member(&mut ef, "data", d);
                        assert(ef@.drop_last()[0] == ef@[0]);
                        assert(ef@.drop_last()[1] == ef@[1]);
                    },
                    None => {},
                }
                let ghost before = fields@;
                push_member(&mut fields, "error", JsonValue::Object(ef));
                assert(members_view(fields@.drop_last()) =~= rpc_members(m));
            },
            None => {},
        }
        JsonValue::Object(fields)
    }
}

} // verus!
