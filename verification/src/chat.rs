//! The chat panel's history: its entries, the answer still streaming,
//! the tool calls under way, and how far the view is scrolled back.  The
//! input box and the clock are the caller's part.
use vstd::prelude::*;
use crate::history_cell::{
    rows_for, text_cols, shown_output, AssistantMessageCell, ErrorCell, SystemMessageCell,
    TextLine, ToolCallCell, ToolCallStatus, UserMessageCell, MAX_MEASURED, MAX_TOOL_TEXT,
};
use crate::text::{chars_of, push_chars, push_str, string_of};

verus! {

/// An entry of the history.
#[derive(Debug)]
pub enum HistoryEntry {
    User(UserMessageCell),
    Assistant(AssistantMessageCell),
    ToolCall(ToolCallCell),
    System(SystemMessageCell),
    Error(ErrorCell),
}

/// Whether the texts of an entry are short enough to be measured.
pub open spec fn entry_measurable(e: HistoryEntry) -> bool {
    match e {
        HistoryEntry::User(c) => c.content@.len() + 6 <= MAX_MEASURED,
        HistoryEntry::Assistant(c) => c.content@.len() + 13 <= MAX_MEASURED,
        HistoryEntry::ToolCall(c) => c.name@.len() <= MAX_TOOL_TEXT && c.arguments_summary@.len()
            <= MAX_TOOL_TEXT && (c.output matches Some(o) ==> o@.len() <= MAX_TOOL_TEXT)
            && !(c.expanded && c.output is Some && shown_output(c).len() % 0x10000 == 0xFFFF),
        HistoryEntry::System(c) => c.content@.len() <= MAX_MEASURED,
        HistoryEntry::Error(c) => c.message@.len() <= MAX_TOOL_TEXT,
    }
}

/// The rows an entry takes at `width`.
pub open spec fn entry_height(e: HistoryEntry, width: u16) -> u16 {
    match e {
        HistoryEntry::User(c) => rows_for(text_cols("[You] "@) + text_cols(c.content@), width),
        HistoryEntry::Assistant(c) => rows_for(
            text_cols("[Assistant] "@) + text_cols(c.content@) + if c.is_streaming { 1nat } else { 0nat },
            width,
        ),
        HistoryEntry::ToolCall(c) => (1 + (shown_output(c).len() % 0x10000)) as u16,
        HistoryEntry::System(c) => rows_for(text_cols(c.content@), width),
        HistoryEntry::Error(c) => rows_for(
            text_cols(crate::history_cell::error_label(c.code)) + text_cols(c.message@),
            width,
        ),
    }
}

impl HistoryEntry {
    /// Whether more of it may come (an answer still streaming).
    pub fn is_stream_continuation(&self) -> (r: bool)
        ensures
            r == (self matches HistoryEntry::Assistant(c) && c.is_streaming),
    {
        match self {
            HistoryEntry::Assistant(c) => c.is_stream_continuation(),
            _ => false,
        }
    }

    /// The tool call it is, if it is one.
    pub fn as_tool_call(&self) -> (r: Option<&ToolCallCell>)
        ensures
            match *self {
                HistoryEntry::ToolCall(c) => r == Some(&c),
                _ => r is None,
            },
    {
        match self {
            HistoryEntry::ToolCall(c) => Some(c),
            _ => None,
        }
    }

    /// The rows it takes at `width`.
    pub fn desired_height(&self, width: u16) -> (r: u16)
        requires
            entry_measurable(*self),
        ensures
            r == entry_height(*self, width),
    {
        match self {
            HistoryEntry::User(c) => c.desired_height(width),
            HistoryEntry::Assistant(c) => c.desired_height(width),
            HistoryEntry::ToolCall(c) => c.desired_height(width),
            HistoryEntry::System(c) => c.desired_height(width),
            HistoryEntry::Error(c) => c.desired_height(width),
        }
    }

    /// Its lines at `width`, or nothing when some row of it would start
    /// with a character wider than the panel.
    pub fn display_lines(&self, width: u16) -> (r: Option<Vec<TextLine>>)
        requires
            entry_measurable(*self),
        ensures
            r matches Some(v) ==> match *self {
                HistoryEntry::User(c) => crate::history_cell::lines_view(v@) == crate::history_cell::wrap_text(
                    crate::history_cell::user_text(c.content@),
                    width as nat,
                    crate::history_cell::LineColor::Cyan,
                ),
                HistoryEntry::Assistant(c) => crate::history_cell::lines_view(v@)
                    == crate::history_cell::wrap_text(
                    crate::history_cell::assistant_text(c.content@, c.is_streaming),
                    width as nat,
                    crate::history_cell::LineColor::Green,
                ),
                HistoryEntry::ToolCall(c) => crate::history_cell::lines_view(v@) == crate::history_cell::wrap_text(
                    crate::history_cell::tool_title(c, width),
                    width as nat,
                    crate::history_cell::status_color(c.status),
                ) + crate::history_cell::output_rows(shown_output(c), shown_output(c).len() as int, width as nat),
                HistoryEntry::System(c) => crate::history_cell::lines_view(v@) == crate::history_cell::wrap_text(
                    c.content@,
                    width as nat,
                    crate::history_cell::LineColor::DarkGray,
                ),
                HistoryEntry::Error(c) => crate::history_cell::lines_view(v@) == crate::history_cell::wrap_text(
                    crate::history_cell::error_label(c.code) + c.message@,
                    width as nat,
                    crate::history_cell::LineColor::Red,
                ),
            },
            r is None <==> match *self {
                HistoryEntry::User(c) => !(width == 0 || crate::history_cell::text_wraps_cleanly(
                    crate::history_cell::user_text(c.content@),
                    width as nat,
                )),
                HistoryEntry::Assistant(c) => !(width == 0 || crate::history_cell::text_wraps_cleanly(
                    crate::history_cell::assistant_text(c.content@, c.is_streaming),
                    width as nat,
                )),
                HistoryEntry::ToolCall(c) => !crate::history_cell::tool_wraps_cleanly(c, width),
                HistoryEntry::System(c) => !(width == 0 || crate::history_cell::text_wraps_cleanly(
                    c.content@,
                    width as nat,
                )),
                HistoryEntry::Error(c) => !(width == 0 || crate::history_cell::text_wraps_cleanly(
                    crate::history_cell::error_label(c.code) + c.message@,
                    width as nat,
                )),
            },
    {
        match self {
            HistoryEntry::User(c) => {
                let mut t = string_of("[You] ");
                push_str(&mut t, c.content.as_str());
                proof {
                    reveal_strlit("[You] ");
                }
                if crate::history_cell::wraps_at(t.as_str(), width) {
                    Some(c.display_lines(width))
                } else {
                    None
                }
            },
            HistoryEntry::Assistant(c) => {
                let mut t = string_of("[Assistant] ");
                push_str(&mut t, c.content.as_str());
                if c.is_streaming {
                    crate::text::push_char(&mut t, crate::history_cell::STREAM_CURSOR);
                }
                proof {
                    reveal_strlit("[Assistant] ");
                }
                if crate::history_cell::wraps_at(t.as_str(), width) {
                    Some(c.display_lines(width))
                } else {
                    None
                }
            },
            HistoryEntry::ToolCall(c) => {
                if c.wraps_cleanly_at(width) {
                    Some(c.display_lines(width))
                } else {
                    None
                }
            },
            HistoryEntry::System(c) => {
                if crate::history_cell::wraps_at(c.content.as_str(), width) {
                    Some(c.display_lines(width))
                } else {
                    None
                }
            },
            HistoryEntry::Error(c) => {
                let mut t = string_of("[Error ");
                crate::text::push_decimal_i64(&mut t, c.code as i64);
                push_str(&mut t, "] ");
                push_str(&mut t, c.message.as_str());
                proof {
                    reveal_strlit("[Error ");
                    reveal_strlit("] ");
                    crate::text::lemma_decimal_int_short(c.code as int);
                }
                assert(t@ =~= crate::history_cell::error_label(c.code) + c.message@);
                if crate::history_cell::wraps_at(t.as_str(), width) {
                    Some(c.display_lines(width))
                } else {
                    None
                }
            },
        }
    }
}

/// A tool call under way: the entry that shows it and when it started
/// (in milliseconds of the caller's clock).
#[derive(Debug, Clone, Copy, PartialEq, Eq, Structural)]
pub struct ToolCallTracker {
    pub cell_index: usize,
    pub started_at_ms: u64,
}

/// The longest arguments shown whole, in characters.
pub const MAX_SUMMARY_CHARS: usize = 80;

/// The arguments as a call's title shows them: whole up to 80
/// characters, else their first 77 and `...`.
pub open spec fn summarize(arguments: Seq<char>) -> Seq<char> {
    if arguments.len() > MAX_SUMMARY_CHARS {
        arguments.take(77) + "..."@
    } else {
        arguments
    }
}

/// The history of the chat panel.
pub struct ChatHistory {
    pub cells: Vec<HistoryEntry>,
    pub active_cell: Option<HistoryEntry>,
    pub scroll_offset: usize,
    pub auto_scroll: bool,
    pub trackers: Vec<(String, ToolCallTracker)>,
}

/// The tracker of `id` among `t`, if any (the last one).
pub open spec fn tracker_of(t: Seq<(String, ToolCallTracker)>, id: Seq<char>) -> Option<ToolCallTracker>
    decreases t.len(),
{
    if t.len() == 0 {
        None
    } else if t.last().0@ == id {
        Some(t.last().1)
    } else {
        tracker_of(t.drop_last(), id)
    }
}

impl ChatHistory {
    /// The tracker of the call `id`.
    pub open spec fn tracker(&self, id: Seq<char>) -> Option<ToolCallTracker> {
        tracker_of(self.trackers@, id)
    }

    /// Whether the call `id` is under way.
    pub fn is_tracked(&self, id: &str) -> (r: bool)
        ensures
            r == self.tracker(id@) is Some,
    {
        self.find_tracker(id) < self.trackers.len()
    }

    fn find_tracker(&self, id: &str) -> (r: usize)
        ensures
            r <= self.trackers@.len(),
            r < self.trackers@.len() ==> self.trackers@[r as int].0@ == id@ && self.tracker(id@)
                == Some(self.trackers@[r as int].1) && forall|j: int|
                r < j < self.trackers@.len() ==> self.trackers@[j].0@ != id@,
            r == self.trackers@.len() ==> self.tracker(id@) is None,
    {
        let mut i: usize = self.trackers.len();
        assert(self.trackers@.take(i as int) =~= self.trackers@);
        while i > 0
            invariant
                i <= self.trackers@.len(),
                forall|j: int| i <= j < self.trackers@.len() ==> self.trackers@[j].0@ != id@,
                tracker_of(self.trackers@, id@) == tracker_of(self.trackers@.take(i as int), id@),
            decreases i,
        {
            let t = &self.trackers[i - 1];
            assert(self.trackers@.take(i as int).last() == self.trackers@[i - 1]);
            if string_of(t.0.as_str()) == string_of(id) {
                return i - 1;
            }
            assert(self.trackers@.take(i as int).drop_last() =~= self.trackers@.take(i - 1));
            i -= 1;
        }
        assert(self.trackers@.take(0) =~= Seq::<(String, ToolCallTracker)>::empty());
        self.trackers.len()
    }

    /// An empty history, following the newest entry.
    pub fn new() -> (r: Self)
        ensures
            r.cells@.len() == 0,
            r.active_cell is None,
            r.scroll_offset == 0,
            r.auto_scroll,
            forall|id: Seq<char>| r.tracker(id) is None,
    {
        ChatHistory {
            cells: Vec::new(),
            active_cell: None,
            scroll_offset: 0,
            auto_scroll: true,
            trackers: Vec::new(),
        }
    }

    /// Adds an entry; a view following the newest entry stays at the
    /// bottom.
    pub fn push_cell(&mut self, cell: HistoryEntry)
        ensures
            final(self).cells@ == old(self).cells@.push(cell),
            final(self).active_cell == old(self).active_cell,
            final(self).auto_scroll == old(self).auto_scroll,
            final(self).scroll_offset == if old(self).auto_scroll { 0 } else { old(self).scroll_offset },
            forall|id: Seq<char>| final(self).tracker(id) == old(self).tracker(id),
    {
        self.cells.push(cell);
        if self.auto_scroll {
            self.scroll_offset = 0;
        }
    }

    /// Starts showing an answer as it streams.
    pub fn start_streaming(&mut self)
        ensures
            final(self).cells == old(self).cells,
            final(self).active_cell matches Some(HistoryEntry::Assistant(c)) && c.content@.len() == 0
                && c.is_streaming,
            final(self).scroll_offset == old(self).scroll_offset,
            final(self).auto_scroll == old(self).auto_scroll,
            forall|id: Seq<char>| final(self).tracker(id) == old(self).tracker(id),
    {
        self.active_cell = Some(HistoryEntry::Assistant(AssistantMessageCell::new_streaming()));
    }

    /// Adds a piece to the answer streaming, if there is one.
    pub fn append_streaming(&mut self, delta: &str)
        ensures
            final(self).cells == old(self).cells,
            final(self).scroll_offset == old(self).scroll_offset,
            final(self).auto_scroll == old(self).auto_scroll,
            forall|id: Seq<char>| final(self).tracker(id) == old(self).tracker(id),
            match old(self).active_cell {
                Some(HistoryEntry::Assistant(c)) => final(self).active_cell matches Some(HistoryEntry::Assistant(d))
                    && d.content@ == c.content@ + delta@ && d.is_streaming == c.is_streaming,
                _ => final(self).active_cell == old(self).active_cell,
            },
    {
        if let Some(HistoryEntry::Assistant(c)) = &mut self.active_cell {
            c.append_delta(delta);
        }
    }

    /// Ends the answer streaming, if there is one: it becomes the newest
    /// entry.
    pub fn finish_streaming(&mut self)
        ensures
            final(self).active_cell is None,
            forall|id: Seq<char>| final(self).tracker(id) == old(self).tracker(id),
            final(self).auto_scroll == old(self).auto_scroll,
            match old(self).active_cell {
                None => final(self).cells == old(self).cells && final(self).scroll_offset == old(self).scroll_offset,
                Some(e) => {
                    &&& final(self).cells@.len() == old(self).cells@.len() + 1
                    &&& final(self).cells@.drop_last() == old(self).cells@
                    &&& !final(self).cells@.last().is_stream_continuation_spec()
                    &&& match e {
                        HistoryEntry::Assistant(c) => final(self).cells@.last() matches HistoryEntry::Assistant(d)
                            && d.content == c.content,
                        _ => final(self).cells@.last() == e,
                    }
                    &&& final(self).scroll_offset == if old(self).auto_scroll { 0 } else { old(self).scroll_offset }
                },
            },
    {
        let active = self.active_cell.take();
        if let Some(e) = active {
            let e = match e {
                HistoryEntry::Assistant(mut c) => {
                    c.finish_streaming();
                    HistoryEntry::Assistant(c)
                },
                other => other,
            };
            let ghost before = self.cells@;
            self.cells.push(e);
            assert(self.cells@.drop_last() =~= before);
            if self.auto_scroll {
                self.scroll_offset = 0;
            }
        }
    }
}

impl HistoryEntry {
    /// Whether more of the entry may come.
    pub open spec fn is_stream_continuation_spec(&self) -> bool {
        self matches HistoryEntry::Assistant(c) && c.is_streaming
    }
}


/// The summary of `arguments` (see [`summarize`]).
pub fn summarize_arguments(arguments: &str) -> (r: String)
    ensures
        r@ == summarize(arguments@),
{
    let v = chars_of(arguments);
    if v.len() > MAX_SUMMARY_CHARS {
        let mut s = String::new();
        push_chars(&mut s, &v, 0, 77);
        push_str(&mut s, "...");
        s
    } else {
        string_of(arguments)
    }
}

/// The rows of entries at `width`, added up.
pub open spec fn heights_sum(s: Seq<HistoryEntry>, width: u16) -> nat
    decreases s.len(),
{
    if s.len() == 0 {
        0
    } else {
        heights_sum(s.drop_last(), width) + entry_height(s.last(), width) as nat
    }
}

/// The rows the whole history takes at `width`, the answer streaming
/// included.
pub open spec fn total_rows(h: ChatHistory, width: u16) -> nat {
    heights_sum(h.cells@, width) + match h.active_cell {
        Some(e) => entry_height(e, width) as nat,
        None => 0,
    }
}

/// Whether the history's entries can all be measured.
pub open spec fn all_measurable(h: ChatHistory) -> bool {
    &&& forall|i: int| 0 <= i < h.cells@.len() ==> entry_measurable(#[trigger] h.cells@[i])
    &&& (h.active_cell matches Some(e) ==> entry_measurable(e))
}

impl ChatHistory {
    fn forget_tracker(&mut self, id: &str)
        ensures
            final(self).cells == old(self).cells,
            final(self).active_cell == old(self).active_cell,
            final(self).scroll_offset == old(self).scroll_offset,
            final(self).auto_scroll == old(self).auto_scroll,
            forall|x: Seq<char>| #[trigger] final(self).tracker(x) == if x == id@ { None } else { old(self).tracker(x) },
    {
        let mut kept: Vec<(String, ToolCallTracker)> = Vec::new();
        let mut old_t: Vec<(String, ToolCallTracker)> = Vec::new();
        std::mem::swap(&mut old_t, &mut self.trackers);
        let ghost t = old_t@;
        let mut i: usize = 0;
        assert(t.take(0) =~= Seq::<(String, ToolCallTracker)>::empty());
        while i < old_t.len()
            invariant
                t == old_t@,
                i <= t.len(),
                forall|x: Seq<char>| #[trigger] tracker_of(kept@, x) == if x == id@ { None } else { tracker_of(t.take(i as int), x) },
            decreases t.len() - i,
        {
            let e = &old_t[i];
            let ghost ti = t.take(i as int);
            assert(t.take(i + 1) =~= ti.push(t[i as int]));
            let ghost before = kept@;
            if string_of(e.0.as_str()) != string_of(id) {
                kept.push((string_of(e.0.as_str()), e.1));
                assert(kept@ =~= before.push(kept@.last()));
                assert forall|x: Seq<char>| #[trigger] tracker_of(kept@, x) == if x == id@ { None } else { tracker_of(t.take(i + 1), x) } by {
                    lemma_tracker_push(before, kept@.last(), x);
                    lemma_tracker_push(ti, t[i as int], x);
                }
            } else {
                assert forall|x: Seq<char>| #[trigger] tracker_of(kept@, x) == if x == id@ { None } else { tracker_of(t.take(i + 1), x) } by {
                    lemma_tracker_push(ti, t[i as int], x);
                }
            }
            i += 1;
        }
        assert(t.take(t.len() as int) =~= t);
        self.trackers = kept;
    }

    fn set_tracker(&mut self, id: &str, tracker: ToolCallTracker)
        ensures
            final(self).cells == old(self).cells,
            final(self).active_cell == old(self).active_cell,
            final(self).scroll_offset == old(self).scroll_offset,
            final(self).auto_scroll == old(self).auto_scroll,
            forall|x: Seq<char>| #[trigger] final(self).tracker(x) == if x == id@ { Some(tracker) } else { old(self).tracker(x) },
    {
        let ghost start = *self;
        self.forget_tracker(id);
        let ghost mid = *self;
        let ghost before = self.trackers@;
        self.trackers.push((string_of(id), tracker));
        assert(self.trackers@ =~= before.push(self.trackers@.last()));
        assert forall|x: Seq<char>| #[trigger] self.tracker(x) == if x == id@ { Some(tracker) } else { start.tracker(x) } by {
            lemma_tracker_push(before, self.trackers@.last(), x);
            assert(mid.tracker(x) == if x == id@ { None } else { start.tracker(x) });
        }
    }

    /// Starts showing tool call `call_id` (at `now_ms` of the caller's
    /// clock): the answer streaming ends, a running call joins the
    /// history with its arguments summarized, and the call is tracked.
    pub fn start_tool_call(&mut self, call_id: &str, name: &str, arguments: &str, now_ms: u64)
        ensures
            final(self).active_cell is None,
            final(self).cells@.len() == old(self).cells@.len() + (if old(self).active_cell is Some { 2int } else { 1int }),
            final(self).cells@.last() matches HistoryEntry::ToolCall(c) && c.call_id@ == call_id@
                && c.name@ == name@ && c.arguments@ == arguments@ && c.arguments_summary@ == summarize(arguments@)
                && c.status == ToolCallStatus::Running && c.output is None && !c.expanded && c.elapsed_ms is None,
            final(self).tracker(call_id@) == Some(ToolCallTracker { cell_index: (final(self).cells@.len() - 1) as usize, started_at_ms: now_ms }),
            forall|x: Seq<char>| x != call_id@ ==> #[trigger] final(self).tracker(x) == old(self).tracker(x),
            final(self).auto_scroll == old(self).auto_scroll,
            final(self).auto_scroll ==> final(self).scroll_offset == 0,
            !final(self).auto_scroll ==> final(self).scroll_offset == old(self).scroll_offset,
    {
        let ghost start = *self;
        self.finish_streaming();
        let ghost mid = *self;
        let summary = summarize_arguments(arguments);
        let index = self.cells.len();
        self.cells.push(
            HistoryEntry::ToolCall(
                ToolCallCell {
                    call_id: string_of(call_id),
                    name: string_of(name),
                    arguments: string_of(arguments),
                    arguments_summary: summary,
                    status: ToolCallStatus::Running,
                    output: None,
                    expanded: false,
                    elapsed_ms: None,
                },
            ),
        );
        if self.auto_scroll {
            self.scroll_offset = 0;
        }
        let ghost mid2 = *self;
        assert(mid2.trackers == mid.trackers);
        self.set_tracker(call_id, ToolCallTracker { cell_index: index, started_at_ms: now_ms });
        assert forall|x: Seq<char>| x != call_id@ implies #[trigger] self.tracker(x) == start.tracker(x) by {
            assert(mid.tracker(x) == start.tracker(x));
            assert(mid2.tracker(x) == mid.tracker(x));
        }
    }

    /// Records the end of tool call `call_id` (at `now_ms`), if it is
    /// tracked: it is no longer tracked, and its entry, if still a tool
    /// call, shows the status, the output, and the time it took.
    pub fn finish_tool_call(&mut self, call_id: &str, name: &str, content: &str, is_error: bool, now_ms: u64)
        ensures
            final(self).active_cell == old(self).active_cell,
            final(self).scroll_offset == old(self).scroll_offset,
            final(self).auto_scroll == old(self).auto_scroll,
            final(self).cells@.len() == old(self).cells@.len(),
            forall|x: Seq<char>| #[trigger] final(self).tracker(x) == if x == call_id@ { None } else { old(self).tracker(x) },
            match old(self).tracker(call_id@) {
                None => final(self).cells == old(self).cells,
                Some(t) => {
                    &&& forall|j: int| 0 <= j < old(self).cells@.len() && j != t.cell_index ==> #[trigger] final(self).cells@[j] == old(self).cells@[j]
                    &&& t.cell_index < old(self).cells@.len() ==> match old(self).cells@[t.cell_index as int] {
                        HistoryEntry::ToolCall(c) => final(self).cells@[t.cell_index as int] matches HistoryEntry::ToolCall(d)
                            && d.call_id == c.call_id && d.name == c.name && d.arguments == c.arguments
                            && d.arguments_summary == c.arguments_summary && d.expanded == c.expanded
                            && d.status == (if is_error { ToolCallStatus::Error } else { ToolCallStatus::Success })
                            && (d.output matches Some(o) && o@ == content@)
                            && d.elapsed_ms == Some(if now_ms >= t.started_at_ms { (now_ms - t.started_at_ms) as u64 } else { 0u64 }),
                        e => final(self).cells@[t.cell_index as int] == e,
                    }
                },
            },
    {
        let p = self.find_tracker(call_id);
        if p == self.trackers.len() {
            return;
        }
        let tracker = self.trackers[p].1;
        let ghost start = *self;
        self.forget_tracker(call_id);
        let ghost mid = *self;
        assert forall|x: Seq<char>| #[trigger] mid.tracker(x) == if x == call_id@ { None } else { start.tracker(x) } by {
        }
        let elapsed: u64 = now_ms.saturating_sub(tracker.started_at_ms);
        let idx = tracker.cell_index;
        if idx < self.cells.len() {
            let ghost before = self.cells@;
            let entry = self.cells.remove(idx);
            let entry = match entry {
                HistoryEntry::ToolCall(mut tc) => {
                    tc.status = if is_error { ToolCallStatus::Error } else { ToolCallStatus::Success };
                    tc.output = Some(string_of(content));
                    tc.elapsed_ms = Some(elapsed);
                    HistoryEntry::ToolCall(tc)
                },
                other => other,
            };
            self.cells.insert(idx, entry);
            assert forall|x: Seq<char>| #[trigger] self.tracker(x) == mid.tracker(x) by {
            }
            assert forall|j: int| 0 <= j < before.len() && j != idx implies #[trigger] self.cells@[j] == before[j] by {
                if j < idx {
                    assert(self.cells@[j] == before.remove(idx as int)[j]);
                } else {
                    assert(self.cells@[j] == before.remove(idx as int)[j - 1]);
                }
            }
        }
    }

    /// Scrolls the view back by `lines` rows; the view stops following the
    /// newest entry.
    pub fn scroll_up(&mut self, lines: usize)
        ensures
            final(self).cells == old(self).cells,
            final(self).active_cell == old(self).active_cell,
            !final(self).auto_scroll,
            final(self).scroll_offset == if old(self).scroll_offset + lines > usize::MAX { usize::MAX as int } else { old(self).scroll_offset + lines },
            forall|x: Seq<char>| #[trigger] final(self).tracker(x) == old(self).tracker(x),
    {
        self.auto_scroll = false;
        self.scroll_offset = self.scroll_offset.saturating_add(lines);
    }

    /// Scrolls the view forward by `lines` rows; at the bottom it follows
    /// the newest entry again.
    pub fn scroll_down(&mut self, lines: usize)
        ensures
            final(self).cells == old(self).cells,
            final(self).active_cell == old(self).active_cell,
            final(self).scroll_offset == if old(self).scroll_offset >= lines { old(self).scroll_offset - lines } else { 0int },
            final(self).auto_scroll == (final(self).scroll_offset == 0 || old(self).auto_scroll),
            forall|x: Seq<char>| #[trigger] final(self).tracker(x) == old(self).tracker(x),
    {
        self.scroll_offset = self.scroll_offset.saturating_sub(lines);
        if self.scroll_offset == 0 {
            self.auto_scroll = true;
        }
    }

    /// Shows the newest entry and follows it.
    pub fn scroll_to_bottom(&mut self)
        ensures
            final(self).cells == old(self).cells,
            final(self).active_cell == old(self).active_cell,
            final(self).scroll_offset == 0,
            final(self).auto_scroll,
            forall|x: Seq<char>| #[trigger] final(self).tracker(x) == old(self).tracker(x),
    {
        self.scroll_offset = 0;
        self.auto_scroll = true;
    }

    /// Expands or folds the tool call at `index`, if there is one.
    pub fn toggle_tool_expanded(&mut self, index: usize)
        ensures
            final(self).active_cell == old(self).active_cell,
            final(self).scroll_offset == old(self).scroll_offset,
            final(self).auto_scroll == old(self).auto_scroll,
            final(self).cells@.len() == old(self).cells@.len(),
            forall|j: int| 0 <= j < old(self).cells@.len() && j != index ==> #[trigger] final(self).cells@[j] == old(self).cells@[j],
            index < old(self).cells@.len() ==> match old(self).cells@[index as int] {
                HistoryEntry::ToolCall(c) => final(self).cells@[index as int] matches HistoryEntry::ToolCall(d)
                    && d.expanded == !c.expanded && d.call_id == c.call_id && d.name == c.name
                    && d.arguments == c.arguments && d.arguments_summary == c.arguments_summary
                    && d.status == c.status && d.output == c.output && d.elapsed_ms == c.elapsed_ms,
                e => final(self).cells@[index as int] == e,
            },
            forall|x: Seq<char>| #[trigger] final(self).tracker(x) == old(self).tracker(x),
    {
        if index < self.cells.len() {
            let ghost before = self.cells@;
            let entry = self.cells.remove(index);
            let entry = match entry {
                HistoryEntry::ToolCall(mut tc) => {
                    tc.expanded = !tc.expanded;
                    HistoryEntry::ToolCall(tc)
                },
                other => other,
            };
            self.cells.insert(index, entry);
            assert forall|j: int| 0 <= j < before.len() && j != index implies #[trigger] self.cells@[j] == before[j] by {
                if j < index {
                    assert(self.cells@[j] == before.remove(index as int)[j]);
                } else {
                    assert(self.cells@[j] == before.remove(index as int)[j - 1]);
                }
            }
        }
    }

    /// Whether the entry at `index` is a tool call.
    pub fn is_tool_call(&self, index: usize) -> (r: bool)
        ensures
            r == (index < self.cells@.len() && self.cells@[index as int] is ToolCall),
    {
        index < self.cells.len() && match &self.cells[index] {
            HistoryEntry::ToolCall(_) => true,
            _ => false,
        }
    }

    /// The rows the history takes at `width`, the answer streaming
    /// included.
    pub fn total_rendered_lines(&self, width: u16) -> (r: usize)
        requires
            all_measurable(*self),
            total_rows(*self, width) <= usize::MAX,
        ensures
            r == total_rows(*self, width),
    {
        let mut total: usize = 0;
        let mut i: usize = 0;
        assert(self.cells@.take(0) =~= Seq::<HistoryEntry>::empty());
        while i < self.cells.len()
            invariant
                i <= self.cells@.len(),
                all_measurable(*self),
                total_rows(*self, width) <= usize::MAX,
                total == heights_sum(self.cells@.take(i as int), width),
            decreases self.cells@.len() - i,
        {
            assert(self.cells@.take(i + 1).drop_last() =~= self.cells@.take(i as int));
            proof {
                lemma_heights_prefix(self.cells@, (i + 1) as int, width);
            }
            let h = self.cells[i].desired_height(width);
            total = total + h as usize;
            i += 1;
        }
        assert(self.cells@.take(self.cells@.len() as int) =~= self.cells@);
        if let Some(a) = &self.active_cell {
            total = total + a.desired_height(width) as usize;
        }
        total
    }
}

proof fn lemma_tracker_push(t: Seq<(String, ToolCallTracker)>, e: (String, ToolCallTracker), x: Seq<char>)
    ensures
        tracker_of(t.push(e), x) == if e.0@ == x { Some(e.1) } else { tracker_of(t, x) },
{
    assert(t.push(e).drop_last() =~= t);
}

proof fn lemma_heights_prefix(s: Seq<HistoryEntry>, k: int, width: u16)
    requires
        0 <= k <= s.len(),
    ensures
        heights_sum(s.take(k), width) <= heights_sum(s, width),
    decreases s.len() - k,
{
    if k < s.len() {
        lemma_heights_prefix(s, k + 1, width);
        assert(s.take(k + 1).drop_last() =~= s.take(k));
    } else {
        assert(s.take(k) =~= s);
    }
}

} // verus!
