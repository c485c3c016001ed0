//! The terminal client's state and its decisions: what a key does in
//! each panel, what a notification from the server means, and how each
//! event changes what is shown.  The terminal, the input box, the socket
//! and the clock are the caller's part.
use vstd::prelude::*;
use crate::chat::{ChatHistory, HistoryEntry};
use crate::history_cell::{ErrorCell, UserMessageCell};
use crate::ipc::{transport_error_text, IpcTransportError};
use crate::json::{as_bool_spec, get_spec, i64_member, str_member, text_or, JsonValue};
use crate::sse::{is_white_space, is_white_space_char};
use crate::text::{chars_of, decimal_int, push_decimal_i64, push_str, string_of};

verus! {

/// How the session stands.
#[derive(Debug, Clone, Copy, PartialEq, Eq, Structural)]
pub enum SessionStatus {
    Active,
    Completed,
    Error,
}

/// How the agent is asked to work.
#[derive(Debug, Clone, Copy, PartialEq, Eq, Structural)]
pub enum AgentMode {
    Plan,
    Code,
    Ask,
}

/// The label of a mode.
pub open spec fn mode_label(m: AgentMode) -> Seq<char> {
    match m {
        AgentMode::Plan => "[Plan]"@,
        AgentMode::Code => "[Code]"@,
        AgentMode::Ask => "[Ask]"@,
    }
}

/// The mode after `m`: Plan, Code, Ask, and round again.
pub open spec fn next_mode(m: AgentMode) -> AgentMode {
    match m {
        AgentMode::Plan => AgentMode::Code,
        AgentMode::Code => AgentMode::Ask,
        AgentMode::Ask => AgentMode::Plan,
    }
}

impl AgentMode {
    /// Its label (see [`mode_label`]).
    pub fn label(&self) -> (r: &'static str)
        ensures
            r@ == mode_label(*self),
    {
        match self {
            AgentMode::Plan => "[Plan]",
            AgentMode::Code => "[Code]",
            AgentMode::Ask => "[Ask]",
        }
    }

    /// The next mode (see [`next_mode`]).
    pub fn cycle(&self) -> (r: Self)
        ensures
            r == next_mode(*self),
    {
        match self {
            AgentMode::Plan => AgentMode::Code,
            AgentMode::Code => AgentMode::Ask,
            AgentMode::Ask => AgentMode::Plan,
        }
    }
}

/// Cycling through the modes three times comes back to where it started,
/// and every mode is met on the way.
pub proof fn law_mode_cycle_returns(m: AgentMode)
    ensures
        next_mode(next_mode(next_mode(m))) == m,
        next_mode(m) != m,
        next_mode(next_mode(m)) != m,
{
}

/// Which panel takes the keys.
#[derive(Debug, Clone, Copy, PartialEq, Eq, Structural)]
pub enum FocusTarget {
    ChatPanel,
    Input,
}

/// What a key asks for.
#[derive(Debug, Clone, Copy, PartialEq, Eq, Structural)]
pub enum KeyAction {
    Quit,
    Cancel,
    CycleAgentMode,
    SubmitMessage,
    ScrollUp(usize),
    ScrollDown(usize),
    ScrollToBottom,
    ToggleToolExpand,
    FocusNext,
    NoAction,
}

/// The keys the client tells apart.
#[derive(Debug, Clone, Copy, PartialEq, Eq, Structural)]
pub enum KeyCode {
    Char(char),
    Esc,
    Enter,
    Tab,
    PageUp,
    PageDown,
    End,
    Up,
    Down,
    Other,
}

/// The modifier bits of a key, as the terminal library numbers them.
pub const NO_MODIFIERS: u8 = 0;
pub const SHIFT: u8 = 1;
pub const CONTROL: u8 = 2;
pub const ALT: u8 = 4;

/// A key event: the key, its modifier bits, and whether it was pressed
/// (rather than repeated or released).
#[derive(Debug, Clone, Copy, PartialEq, Eq, Structural)]
pub struct KeyInput {
    pub code: KeyCode,
    pub modifiers: u8,
    pub press: bool,
}

/// The keys both panels share: quitting, cancelling, the mode.
pub open spec fn common_action(k: KeyInput) -> Option<KeyAction> {
    if k.modifiers == CONTROL && (k.code == KeyCode::Char('c') || k.code == KeyCode::Char('d')) {
        Some(KeyAction::Quit)
    } else if (k.modifiers == CONTROL && k.code == KeyCode::Char('x')) || (k.modifiers == NO_MODIFIERS
        && k.code == KeyCode::Esc) {
        Some(KeyAction::Cancel)
    } else if k.modifiers == CONTROL && k.code == KeyCode::Char('p') {
        Some(KeyAction::CycleAgentMode)
    } else if k.modifiers == NO_MODIFIERS && k.code == KeyCode::Tab {
        Some(KeyAction::FocusNext)
    } else {
        None
    }
}

/// What a key does in the input box.
pub open spec fn input_action(k: KeyInput) -> KeyAction {
    if !k.press {
        KeyAction::NoAction
    } else {
        match common_action(k) {
            Some(a) => a,
            None => if k.modifiers == NO_MODIFIERS && k.code == KeyCode::Enter {
                KeyAction::SubmitMessage
            } else {
                KeyAction::NoAction
            },
        }
    }
}

/// What a key does in the chat panel.
pub open spec fn chat_action(k: KeyInput) -> KeyAction {
    if !k.press {
        KeyAction::NoAction
    } else {
        match common_action(k) {
            Some(a) => a,
            None => if k.modifiers == NO_MODIFIERS && k.code == KeyCode::PageUp {
                KeyAction::ScrollUp(10)
            } else if k.modifiers == NO_MODIFIERS && k.code == KeyCode::PageDown {
                KeyAction::ScrollDown(10)
            } else if k.modifiers == CONTROL && k.code == KeyCode::End {
                KeyAction::ScrollToBottom
            } else if k.modifiers == SHIFT && k.code == KeyCode::Up {
                KeyAction::ScrollUp(1)
            } else if k.modifiers == SHIFT && k.code == KeyCode::Down {
                KeyAction::ScrollDown(1)
            } else if k.modifiers == NO_MODIFIERS && (k.code == KeyCode::Enter || k.code
                == KeyCode::Char(' ')) {
                KeyAction::ToggleToolExpand
            } else {
                KeyAction::NoAction
            },
        }
    }
}

fn common_key(k: &KeyInput) -> (r: Option<KeyAction>)
    ensures
        r == common_action(*k),
{
    if k.modifiers == CONTROL && (k.code == KeyCode::Char('c') || k.code == KeyCode::Char('d')) {
        Some(KeyAction::Quit)
    } else if (k.modifiers == CONTROL && k.code == KeyCode::Char('x')) || (k.modifiers == NO_MODIFIERS
        && k.code == KeyCode::Esc) {
        Some(KeyAction::Cancel)
    } else if k.modifiers == CONTROL && k.code == KeyCode::Char('p') {
        Some(KeyAction::CycleAgentMode)
    } else if k.modifiers == NO_MODIFIERS && k.code == KeyCode::Tab {
        Some(KeyAction::FocusNext)
    } else {
        None
    }
}

/// What a key does in the input box (see [`input_action`]).
pub fn map_input_key(key: KeyInput) -> (r: KeyAction)
    ensures
        r == input_action(key),
{
    if !key.press {
        return KeyAction::NoAction;
    }
    match common_key(&key) {
        Some(a) => a,
        None => if key.modifiers == NO_MODIFIERS && key.code == KeyCode::Enter {
            KeyAction::SubmitMessage
        } else {
            KeyAction::NoAction
        },
    }
}

/// What a key does in the chat panel (see [`chat_action`]).
pub fn map_chat_key(key: KeyInput) -> (r: KeyAction)
    ensures
        r == chat_action(key),
{
    if !key.press {
        return KeyAction::NoAction;
    }
    match common_key(&key) {
        Some(a) => a,
        None => if key.modifiers == NO_MODIFIERS && key.code == KeyCode::PageUp {
            KeyAction::ScrollUp(10)
        } else if key.modifiers == NO_MODIFIERS && key.code == KeyCode::PageDown {
            KeyAction::ScrollDown(10)
        } else if key.modifiers == CONTROL && key.code == KeyCode::End {
            KeyAction::ScrollToBottom
        } else if key.modifiers == SHIFT && key.code == KeyCode::Up {
            KeyAction::ScrollUp(1)
        } else if key.modifiers == SHIFT && key.code == KeyCode::Down {
            KeyAction::ScrollDown(1)
        } else if key.modifiers == NO_MODIFIERS && (key.code == KeyCode::Enter || key.code
            == KeyCode::Char(' ')) {
            KeyAction::ToggleToolExpand
        } else {
            KeyAction::NoAction
        },
    }
}

/// The quitting and cancelling keys act alike in both panels.
pub proof fn law_global_shortcuts_consistent(k: KeyInput)
    requires
        common_action(k) is Some,
    ensures
        input_action(k) == chat_action(k),
{
}

/// Something that happens in the client.
#[derive(Debug)]
pub enum AppEvent {
    UserMessageSent(String),
    CancelRequested,
    Quit,
    AssistantDelta { delta: String },
    ReasoningDelta { delta: String },
    ToolCallStart { call_id: String, name: String, arguments: String },
    ToolResult { call_id: String, name: String, content: String, is_error: bool },
    Usage { input_tokens: i32, output_tokens: i32, cache_read_tokens: i32 },
    TaskDone { summary: String },
    Error { code: i32, message: String },
    RedrawRequested,
    SessionCreated { session_id: String },
    SessionNameUpdate { name: String },
}

/// What the caller does after a key.
#[derive(Debug)]
pub enum KeyOutcome {
    /// Nothing more.
    Done,
    /// Send this event.
    Send(AppEvent),
    /// Take the text of the input box and hand it to
    /// [`AppState::submit_input`].
    SubmitInput,
    /// Give the key to the input box.
    ForwardToInput,
}

/// The state of the client.
pub struct AppState {
    pub chat: ChatHistory,
    pub status: SessionStatus,
    pub session_id: Option<String>,
    pub session_name: Option<String>,
    pub agent_mode: AgentMode,
    pub should_quit: bool,
    pub needs_redraw: bool,
    pub focus: FocusTarget,
    pub input_tokens: i32,
    pub output_tokens: i32,
    pub cache_read_tokens: i32,
    pub model: String,
    pub api_latencies: Vec<u64>,
}

/// The sum of the latencies.
pub open spec fn latency_sum(v: Seq<u64>) -> nat
    decreases v.len(),
{
    if v.len() == 0 { 0 } else { latency_sum(v.drop_last()) + v.last() as nat }
}

/// The index of the newest tool call among `cells`, if any.
pub open spec fn newest_tool_call(cells: Seq<HistoryEntry>) -> Option<usize>
    decreases cells.len(),
{
    if cells.len() == 0 {
        None
    } else if cells.last() is ToolCall {
        Some((cells.len() - 1) as usize)
    } else {
        newest_tool_call(cells.drop_last())
    }
}

/// Whether a text is empty once white space is trimmed.
pub open spec fn blank(s: Seq<char>) -> bool {
    forall|i: int| 0 <= i < s.len() ==> is_white_space(#[trigger] s[i])
}

impl AppState {
    /// A client of session `session_id`: active, in Code mode, with the
    /// input box focused and nothing counted yet.
    pub fn new(session_id: String) -> (r: Self)
        ensures
            r.chat.cells@.len() == 0,
            r.chat.active_cell is None,
            r.status == SessionStatus::Active,
            r.session_id == Some(session_id),
            r.session_name is None,
            r.agent_mode == AgentMode::Code,
            !r.should_quit,
            r.needs_redraw,
            r.focus == FocusTarget::Input,
            r.input_tokens == 0 && r.output_tokens == 0 && r.cache_read_tokens == 0,
            r.model@.len() == 0,
            r.api_latencies@.len() == 0,
    {
        AppState {
            chat: ChatHistory::new(),
            status: SessionStatus::Active,
            session_id: Some(session_id),
            session_name: None,
            agent_mode: AgentMode::Code,
            should_quit: false,
            needs_redraw: true,
            focus: FocusTarget::Input,
            input_tokens: 0,
            output_tokens: 0,
            cache_read_tokens: 0,
            model: String::new(),
            api_latencies: Vec::new(),
        }
    }

    /// The mean of the recorded latencies, rounded down.
    pub fn avg_latency(&self) -> (r: Option<u64>)
        requires
            latency_sum(self.api_latencies@) <= u64::MAX,
        ensures
            self.api_latencies@.len() == 0 ==> r is None,
            self.api_latencies@.len() != 0 ==> r == Some((latency_sum(self.api_latencies@) / self.api_latencies@.len()) as u64),
    {
        if self.api_latencies.len() == 0 {
            return None;
        }
        let ghost v = self.api_latencies@;
        let mut sum: u64 = 0;
        let mut i: usize = 0;
        assert(v.take(0) =~= Seq::<u64>::empty());
        while i < self.api_latencies.len()
            invariant
                v == self.api_latencies@,
                i <= v.len(),
                latency_sum(v) <= u64::MAX,
                sum == latency_sum(v.take(i as int)),
            decreases v.len() - i,
        {
            assert(v.take(i + 1).drop_last() =~= v.take(i as int));
            proof {
                lemma_latency_prefix(v, i + 1);
            }
            sum = sum + self.api_latencies[i];
            i += 1;
        }
        assert(v.take(v.len() as int) =~= v);
        Some(sum / (self.api_latencies.len() as u64))
    }

    /// The newest tool call of the history, if any.
    pub fn current_tool_index(&self) -> (r: Option<usize>)
        ensures
            r == newest_tool_call(self.chat.cells@),
            r matches Some(i) ==> i < self.chat.cells@.len() && self.chat.cells@[i as int] is ToolCall,
    {
        let ghost c = self.chat.cells@;
        let n = self.chat.cells.len();
        proof {
            lemma_newest_tool_call(c);
        }
        let mut i: usize = self.chat.cells.len();
        assert(c.take(i as int) =~= c);
        while i > 0
            invariant
                c == self.chat.cells@,
                i <= c.len(),
                newest_tool_call(c) == newest_tool_call(c.take(i as int)),
            decreases i,
        {
            assert(c.take(i as int).last() == c[i - 1]);
            if let HistoryEntry::ToolCall(_) = &self.chat.cells[i - 1] {
                return Some(i - 1);
            }
            assert(c.take(i as int).drop_last() =~= c.take(i - 1));
            i -= 1;
        }
        assert(c.take(0) =~= Seq::<HistoryEntry>::empty());
        None
    }

    /// What a key does, in the focused panel: quitting and cancelling are
    /// sent as events; the mode, the focus, scrolling and folding change
    /// the state; the Enter key in the input box submits it; any other key
    /// there goes to the input box.
    pub fn handle_key(&mut self, key: &KeyInput) -> (r: KeyOutcome)
        ensures
            ({
                let a = if old(self).focus == FocusTarget::Input { input_action(*key) } else { chat_action(*key) };
                match a {
                    KeyAction::Quit => r matches KeyOutcome::Send(AppEvent::Quit) && *final(self) == *old(self),
                    KeyAction::Cancel => r matches KeyOutcome::Send(AppEvent::CancelRequested) && *final(self) == *old(self),
                    KeyAction::CycleAgentMode => r is Done && final(self).agent_mode == next_mode(old(self).agent_mode)
                        && final(self).needs_redraw && final(self).chat == old(self).chat,
                    KeyAction::SubmitMessage => r is SubmitInput && *final(self) == *old(self),
                    KeyAction::FocusNext => r is Done && final(self).needs_redraw && final(self).focus == (if old(self).focus
                        == FocusTarget::Input { FocusTarget::ChatPanel } else { FocusTarget::Input })
                        && final(self).chat == old(self).chat,
                    KeyAction::ScrollUp(n) => r is Done && final(self).needs_redraw && final(self).chat.cells == old(self).chat.cells
                        && !final(self).chat.auto_scroll && final(self).chat.scroll_offset == (if old(self).chat.scroll_offset + n > usize::MAX {
                            usize::MAX as int
                        } else {
                            old(self).chat.scroll_offset + n
                        }),
                    KeyAction::ScrollDown(n) => r is Done && final(self).needs_redraw && final(self).chat.cells == old(self).chat.cells
                        && final(self).chat.scroll_offset == (if old(self).chat.scroll_offset >= n {
                            old(self).chat.scroll_offset - n
                        } else {
                            0int
                        }),
                    KeyAction::ScrollToBottom => r is Done && final(self).needs_redraw && final(self).chat.cells == old(self).chat.cells
                        && final(self).chat.scroll_offset == 0 && final(self).chat.auto_scroll,
                    KeyAction::ToggleToolExpand => r is Done && match newest_tool_call(old(self).chat.cells@) {
                        Some(i) => final(self).needs_redraw && final(self).chat.cells@.len() == old(self).chat.cells@.len()
                            && (final(self).chat.cells@[i as int] matches HistoryEntry::ToolCall(d)
                            && old(self).chat.cells@[i as int] matches HistoryEntry::ToolCall(c) && d.expanded == !c.expanded),
                        None => *final(self) == *old(self),
                    },
                    KeyAction::NoAction => if old(self).focus == FocusTarget::Input {
                        r is ForwardToInput && final(self).needs_redraw && final(self).chat == old(self).chat
                    } else {
                        r is Done && *final(self) == *old(self)
                    },
                }
            }),
    {
        let action = if self.focus == FocusTarget::Input { map_input_key(*key) } else { map_chat_key(*key) };
        match action {
            KeyAction::Quit => KeyOutcome::Send(AppEvent::Quit),
            KeyAction::Cancel => KeyOutcome::Send(AppEvent::CancelRequested),
            KeyAction::CycleAgentMode => {
                self.agent_mode = self.agent_mode.cycle();
                self.needs_redraw = true;
                KeyOutcome::Done
            },
            KeyAction::SubmitMessage => KeyOutcome::SubmitInput,
            KeyAction::FocusNext => {
                self.focus = if self.focus == FocusTarget::Input {
                    FocusTarget::ChatPanel
                } else {
                    FocusTarget::Input
                };
                self.needs_redraw = true;
                KeyOutcome::Done
            },
            KeyAction::ScrollUp(n) => {
                self.chat.scroll_up(n);
                self.needs_redraw = true;
                KeyOutcome::Done
            },
            KeyAction::ScrollDown(n) => {
                self.chat.scroll_down(n);
                self.needs_redraw = true;
                KeyOutcome::Done
            },
            KeyAction::ScrollToBottom => {
                self.chat.scroll_to_bottom();
                self.needs_redraw = true;
                KeyOutcome::Done
            },
            KeyAction::ToggleToolExpand => {
                if let Some(idx) = self.current_tool_index() {
                    self.chat.toggle_tool_expanded(idx);
                    self.needs_redraw = true;
                }
                KeyOutcome::Done
            },
            KeyAction::NoAction => {
                if self.focus == FocusTarget::Input {
                    self.needs_redraw = true;
                    KeyOutcome::ForwardToInput
                } else {
                    KeyOutcome::Done
                }
            },
        }
    }

    /// Submits the text taken from the input box: it is sent unless it
    /// is blank.
    pub fn submit_input(&mut self, text: String) -> (r: Option<AppEvent>)
        ensures
            final(self).needs_redraw,
            final(self).chat == old(self).chat,
            blank(text@) ==> r is None,
            !blank(text@) ==> (r matches Some(AppEvent::UserMessageSent(t)) && t == text),
    {
        self.needs_redraw = true;
        if is_blank(text.as_str()) {
            None
        } else {
            Some(AppEvent::UserMessageSent(text))
        }
    }

    /// Whether pasted text goes to the input box (it does when the box is
    /// focused, and the screen is then redrawn).
    pub fn handle_paste(&mut self) -> (r: bool)
        ensures
            r == (old(self).focus == FocusTarget::Input),
            final(self).chat == old(self).chat,
            final(self).needs_redraw == (r || old(self).needs_redraw),
    {
        if self.focus == FocusTarget::Input {
            self.needs_redraw = true;
            true
        } else {
            false
        }
    }
}

fn is_blank(text: &str) -> (r: bool)
    ensures
        r == blank(text@),
{
    let v = chars_of(text);
    let mut i: usize = 0;
    while i < v.len()
        invariant
            v@ == text@,
            i <= v@.len(),
            forall|j: int| 0 <= j < i ==> is_white_space(#[trigger] v@[j]),
        decreases v@.len() - i,
    {
        if !is_white_space_char(v[i]) {
            return false;
        }
        i += 1;
    }
    true
}

proof fn lemma_latency_prefix(v: Seq<u64>, k: int)
    requires
        0 <= k <= v.len(),
    ensures
        latency_sum(v.take(k)) <= latency_sum(v),
    decreases v.len() - k,
{
    if k < v.len() {
        lemma_latency_prefix(v, k + 1);
        assert(v.take(k + 1).drop_last() =~= v.take(k));
    } else {
        assert(v.take(k) =~= v);
    }
}

proof fn lemma_newest_tool_call(c: Seq<HistoryEntry>)
    requires
        c.len() <= usize::MAX,
    ensures
        newest_tool_call(c) matches Some(i) ==> i < c.len() && c[i as int] is ToolCall,
    decreases c.len(),
{
    if c.len() > 0 && !(c.last() is ToolCall) {
        lemma_newest_tool_call(c.drop_last());
        if let Some(i) = newest_tool_call(c.drop_last()) {
            assert(c.drop_last()[i as int] == c[i as int]);
        }
    }
}


/// A text parameter of a notification (empty when missing).
pub open spec fn text_param(p: JsonValue, key: Seq<char>) -> Seq<char> {
    text_or(str_member(p, key), Seq::empty())
}

/// A count parameter of a notification, cut to 32 bits (0 when missing).
pub open spec fn count_param(p: JsonValue, key: Seq<char>) -> i32 {
    (match i64_member(p, key) {
        Some(n) => n,
        None => 0,
    }) as i32
}

/// Whether `e` is the event a notification with `method` and `params`
/// stands for.
pub open spec fn is_ipc_event(e: AppEvent, method: Seq<char>, p: JsonValue) -> bool {
    if method == "assistant_text"@ {
        e matches AppEvent::AssistantDelta { delta } && delta@ == text_param(p, "delta"@)
    } else if method == "assistant_reasoning"@ {
        e matches AppEvent::ReasoningDelta { delta } && delta@ == text_param(p, "delta"@)
    } else if method == "tool_call_start"@ {
        e matches AppEvent::ToolCallStart { call_id, name, arguments } && call_id@ == text_param(p, "call_id"@)
            && name@ == text_param(p, "name"@) && arguments@ == text_param(p, "arguments"@)
    } else if method == "tool_result"@ {
        e matches AppEvent::ToolResult { call_id, name, content, is_error } && call_id@ == text_param(p, "call_id"@)
            && name@ == text_param(p, "name"@) && content@ == text_param(p, "content"@) && is_error == match get_spec(p, "is_error"@) {
            Some(JsonValue::Bool(b)) => b,
            _ => false,
        }
    } else if method == "usage"@ {
        e matches AppEvent::Usage { input_tokens, output_tokens, cache_read_tokens } && input_tokens == count_param(p, "input_tokens"@)
            && output_tokens == count_param(p, "output_tokens"@) && cache_read_tokens == count_param(p, "cache_read_tokens"@)
    } else if method == "task_done"@ {
        e matches AppEvent::TaskDone { summary } && summary@ == text_param(p, "summary"@)
    } else if method == "error"@ {
        e matches AppEvent::Error { code, message } && code == count_param(p, "code"@) && message@ == text_param(p, "message"@)
    } else if method == "session_created"@ {
        e matches AppEvent::SessionCreated { session_id } && session_id@ == text_param(p, "session_id"@)
    } else {
        method == "session_name_update"@ && (e matches AppEvent::SessionNameUpdate { name } && name@ == text_param(p, "name"@))
    }
}

/// The methods the client understands.
pub open spec fn known_method(method: Seq<char>) -> bool {
    method == "assistant_text"@ || method == "assistant_reasoning"@ || method == "tool_call_start"@
        || method == "tool_result"@ || method == "usage"@ || method == "task_done"@ || method == "error"@
        || method == "session_created"@ || method == "session_name_update"@
}

fn same(a: &str, b: &str) -> (r: bool)
    ensures
        r == (a@ == b@),
{
    string_of(a) == string_of(b)
}

fn text_of(p: &JsonValue, key: &str) -> (r: String)
    ensures
        r@ == text_param(*p, key@),
{
    crate::json::str_or_empty(p, key)
}

fn count_of(p: &JsonValue, key: &str) -> (r: i32)
    ensures
        r == count_param(*p, key@),
{
    let n: i64 = match crate::json::get_i64(p, key) {
        Some(n) => n,
        None => 0,
    };
    n as i32
}

impl AppState {
    /// The event a message from the server stands for: only a
    /// notification with parameters and a known method stands for one.
    pub fn parse_ipc_event(&self, is_notification: bool, method: Option<&str>, params: Option<&JsonValue>) -> (r: Option<AppEvent>)
        ensures
            match (is_notification, method, params) {
                (true, Some(m), Some(p)) => if known_method(m@) {
                    r matches Some(e) && is_ipc_event(e, m@, *p)
                } else {
                    r is None
                },
                _ => r is None,
            },
    {
        if !is_notification {
            return None;
        }
        let method = match method {
            Some(m) => m,
            None => return None,
        };
        let p = match params {
            Some(p) => p,
            None => return None,
        };
        if same(method, "assistant_text") {
            Some(AppEvent::AssistantDelta { delta: text_of(p, "delta") })
        } else if same(method, "assistant_reasoning") {
            Some(AppEvent::ReasoningDelta { delta: text_of(p, "delta") })
        } else if same(method, "tool_call_start") {
            Some(AppEvent::ToolCallStart {
                call_id: text_of(p, "call_id"),
                name: text_of(p, "name"),
                arguments: text_of(p, "arguments"),
            })
        } else if same(method, "tool_result") {
            let is_error = match p.get("is_error") {
                Some(b) => match b.as_bool() {
                    Some(x) => x,
                    None => false,
                },
                None => false,
            };
            Some(AppEvent::ToolResult {
                call_id: text_of(p, "call_id"),
                name: text_of(p, "name"),
                content: text_of(p, "content"),
                is_error,
            })
        } else if same(method, "usage") {
            Some(AppEvent::Usage {
                input_tokens: count_of(p, "input_tokens"),
                output_tokens: count_of(p, "output_tokens"),
                cache_read_tokens: count_of(p, "cache_read_tokens"),
            })
        } else if same(method, "task_done") {
            Some(AppEvent::TaskDone { summary: text_of(p, "summary") })
        } else if same(method, "error") {
            Some(AppEvent::Error { code: count_of(p, "code"), message: text_of(p, "message") })
        } else if same(method, "session_created") {
            Some(AppEvent::SessionCreated { session_id: text_of(p, "session_id") })
        } else if same(method, "session_name_update") {
            Some(AppEvent::SessionNameUpdate { name: text_of(p, "name") })
        } else {
            None
        }
    }
}

/// Whether adding the counts of `e` keeps the token counters in range.
pub open spec fn usage_fits(s: AppState, e: AppEvent) -> bool {
    match e {
        AppEvent::Usage { input_tokens, output_tokens, cache_read_tokens } => {
            &&& i32::MIN <= s.input_tokens + input_tokens <= i32::MAX
            &&& i32::MIN <= s.output_tokens + output_tokens <= i32::MAX
            &&& i32::MIN <= s.cache_read_tokens + cache_read_tokens <= i32::MAX
        },
        _ => true,
    }
}

impl AppState {
    /// Applies an event (at `now_ms` of the caller's clock): a sent message
    /// joins the history; streamed text goes to the answer streaming,
    /// started if need be; tool calls start and finish; token counts add
    /// up; the end of the task or an error ends the answer streaming and
    /// sets the status; a cancellation marks the session completed; quitting
    /// and the session's id and name are recorded.
    pub fn handle_app_event(&mut self, event: AppEvent, now_ms: u64)
        requires
            usage_fits(*old(self), event),
        ensures
            final(self).agent_mode == old(self).agent_mode,
            final(self).focus == old(self).focus,
            match event {
                AppEvent::UserMessageSent(text) => final(self).chat.cells@ == old(self).chat.cells@.push(
                    HistoryEntry::User(UserMessageCell { content: text }),
                ) && final(self).needs_redraw && final(self).status == old(self).status,
                AppEvent::AssistantDelta { delta } => final(self).status == SessionStatus::Active && final(self).needs_redraw
                    && final(self).chat.cells == old(self).chat.cells && match old(self).chat.active_cell {
                    Some(HistoryEntry::Assistant(c)) => final(self).chat.active_cell matches Some(HistoryEntry::Assistant(d))
                        && d.content@ == c.content@ + delta@ && d.is_streaming == c.is_streaming,
                    Some(other) => final(self).chat.active_cell == Some(other),
                    None => final(self).chat.active_cell matches Some(HistoryEntry::Assistant(d)) && d.content@ == delta@
                        && d.is_streaming,
                },
                AppEvent::ReasoningDelta { delta } => *final(self) == *old(self),
                AppEvent::ToolCallStart { call_id, name, arguments } => final(self).status == SessionStatus::Active
                    && final(self).needs_redraw && (final(self).chat.cells@.last() matches HistoryEntry::ToolCall(c)
                    && c.call_id@ == call_id@ && c.name@ == name@ && c.arguments@ == arguments@)
                    && final(self).chat.tracker(call_id@) is Some && final(self).chat.active_cell is None,
                AppEvent::ToolResult { call_id, name, content, is_error } => final(self).needs_redraw
                    && final(self).status == old(self).status && final(self).chat.tracker(call_id@) is None
                    && final(self).chat.cells@.len() == old(self).chat.cells@.len(),
                AppEvent::Usage { input_tokens, output_tokens, cache_read_tokens } => final(self).input_tokens
                    == old(self).input_tokens + input_tokens && final(self).output_tokens == old(self).output_tokens
                    + output_tokens && final(self).cache_read_tokens == old(self).cache_read_tokens + cache_read_tokens
                    && final(self).needs_redraw && final(self).chat == old(self).chat,
                AppEvent::TaskDone { summary } => final(self).status == SessionStatus::Completed && final(self).needs_redraw
                    && final(self).chat.active_cell is None,
                AppEvent::Error { code, message } => final(self).status == SessionStatus::Error && final(self).needs_redraw
                    && final(self).chat.active_cell is None && (final(self).chat.cells@.last() matches HistoryEntry::Error(e)
                    && e.code == code && e.message == message),
                AppEvent::CancelRequested => final(self).status == SessionStatus::Completed && final(self).needs_redraw
                    && final(self).chat == old(self).chat,
                AppEvent::Quit => final(self).should_quit && final(self).chat == old(self).chat
                    && final(self).status == old(self).status,
                AppEvent::RedrawRequested => final(self).needs_redraw && final(self).chat == old(self).chat
                    && final(self).status == old(self).status,
                AppEvent::SessionCreated { session_id } => final(self).session_id == Some(session_id)
                    && final(self).chat == old(self).chat && final(self).status == old(self).status,
                AppEvent::SessionNameUpdate { name } => final(self).session_name == Some(name) && final(self).needs_redraw
                    && final(self).chat == old(self).chat && final(self).status == old(self).status,
            },
    {
        match event {
            AppEvent::UserMessageSent(text) => {
                self.chat.push_cell(HistoryEntry::User(UserMessageCell { content: text }));
                self.needs_redraw = true;
            },
            AppEvent::AssistantDelta { delta } => {
                if self.chat.active_cell.is_none() {
                    self.chat.start_streaming();
                }
                self.chat.append_streaming(delta.as_str());
                self.status = SessionStatus::Active;
                self.needs_redraw = true;
            },
            AppEvent::ReasoningDelta { .. } => {},
            AppEvent::ToolCallStart { call_id, name, arguments } => {
                self.chat.start_tool_call(call_id.as_str(), name.as_str(), arguments.as_str(), now_ms);
                self.status = SessionStatus::Active;
                self.needs_redraw = true;
            },
            AppEvent::ToolResult { call_id, name, content, is_error } => {
                self.chat.finish_tool_call(call_id.as_str(), name.as_str(), content.as_str(), is_error, now_ms);
                self.needs_redraw = true;
            },
            AppEvent::Usage { input_tokens, output_tokens, cache_read_tokens } => {
                self.input_tokens = self.input_tokens + input_tokens;
                self.output_tokens = self.output_tokens + output_tokens;
                self.cache_read_tokens = self.cache_read_tokens + cache_read_tokens;
                self.needs_redraw = true;
            },
            AppEvent::TaskDone { .. } => {
                self.chat.finish_streaming();
                self.status = SessionStatus::Completed;
                self.needs_redraw = true;
            },
            AppEvent::Error { code, message } => {
                self.chat.finish_streaming();
                self.chat.push_cell(HistoryEntry::Error(ErrorCell { code, message }));
                self.status = SessionStatus::Error;
                self.needs_redraw = true;
            },
            AppEvent::CancelRequested => {
                self.status = SessionStatus::Completed;
                self.needs_redraw = true;
            },
            AppEvent::Quit => {
                self.should_quit = true;
            },
            AppEvent::RedrawRequested => {
                self.needs_redraw = true;
            },
            AppEvent::SessionCreated { session_id } => {
                self.session_id = Some(session_id);
            },
            AppEvent::SessionNameUpdate { name } => {
                self.session_name = Some(name);
                self.needs_redraw = true;
            },
        }
    }
}

/// What went wrong talking to the server.
#[derive(Debug)]
pub enum IpcError {
    Transport(IpcTransportError),
    Disconnected,
    RequestTimeout,
    RpcError { code: i32, message: String },
}

/// The description of an IPC error.
pub open spec fn ipc_error_text(e: IpcError) -> Seq<char> {
    match e {
        IpcError::Transport(t) => "transport error: "@ + transport_error_text(t),
        IpcError::Disconnected => "disconnected"@,
        IpcError::RequestTimeout => "request timeout"@,
        IpcError::RpcError { code, message } => "rpc error "@ + decimal_int(code as int) + ": "@ + message@,
    }
}

impl IpcError {
    /// The description of the error (see [`ipc_error_text`]).
    pub fn to_string(&self) -> (r: String)
        ensures
            r@ == ipc_error_text(*self),
    {
        match self {
            IpcError::Transport(t) => {
                let mut s = string_of("transport error: ");
                push_str(&mut s, t.to_string().as_str());
                s
            },
            IpcError::Disconnected => string_of("disconnected"),
            IpcError::RequestTimeout => string_of("request timeout"),
            IpcError::RpcError { code, message } => {
                let mut s = string_of("rpc error ");
                push_decimal_i64(&mut s, *code as i64);
                push_str(&mut s, ": ");
                push_str(&mut s, message.as_str());
                s
            },
        }
    }
}

impl From<IpcTransportError> for IpcError {
    fn from(e: IpcTransportError) -> (r: Self) {
        IpcError::Transport(e)
    }
}

impl vstd::std_specs::convert::FromSpecImpl<IpcTransportError> for IpcError {
    open spec fn obeys_from_spec() -> bool {
        true
    }

    open spec fn from_spec(e: IpcTransportError) -> IpcError {
        IpcError::Transport(e)
    }
}

} // verus!
