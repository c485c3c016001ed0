//! Where the chat panel and the input bar put things: which history lines
//! show for a scroll offset and whether a scroll bar is drawn, and how the
//! input bar lays out its prefix, the visible part of the input and the
//! cursor.  Drawing into the terminal is the caller's part.
use vstd::prelude::*;
use crate::app_state::{mode_label, AgentMode};
use crate::status_bar::{str_width, unicode_str_width};
use crate::text::{chars_of, push_str, string_from_chars, string_of};

verus! {

/// The columns of the chat panel left for text: one less than its width
/// for the scroll bar, when it is at least two columns wide.
pub fn chat_content_width(width: u16) -> (r: u16)
    ensures
        r == if width >= 2 { (width - 1) as u16 } else { width },
{
    if width >= 2 {
        width - 1
    } else {
        width
    }
}

/// The state of the chat panel's scroll bar: the number of scroll
/// positions, the current one (counted from the top), and the rows seen.
#[derive(Debug, Clone, Copy, PartialEq, Eq, Structural)]
pub struct ScrollbarSpec {
    pub content_length: usize,
    pub position: usize,
    pub viewport: usize,
}

/// The history lines the chat panel shows, `[start, end)`, and its scroll
/// bar, if any.
#[derive(Debug, Clone, Copy, PartialEq, Eq, Structural)]
pub struct ChatWindow {
    pub start: usize,
    pub end: usize,
    pub scrollbar: Option<ScrollbarSpec>,
}

/// How far the view can scroll up from the bottom.
pub open spec fn max_scroll(total: usize, height: u16) -> int {
    if total > height { total - height } else { 0 }
}

/// The shown lines of `total` in a panel `height` rows tall, scrolled up
/// `scroll_offset` lines from the bottom (no further than the top): the
/// last rows before the offset; a scroll bar when the lines do not fit.
pub open spec fn chat_window_spec(height: u16, total: usize, scroll_offset: usize) -> ChatWindow {
    let m = max_scroll(total, height);
    let off = if scroll_offset < m { scroll_offset as int } else { m };
    let end = total - off;
    ChatWindow {
        start: (if end > height { end - height } else { 0 }) as usize,
        end: end as usize,
        scrollbar: if total > height {
            Some(ScrollbarSpec { content_length: (m + 1) as usize, position: (m - off) as usize, viewport: height as usize })
        } else {
            None
        },
    }
}

/// The shown lines and the scroll bar of the chat panel (see
/// [`chat_window_spec`]); a panel with no rows shows nothing.
pub fn chat_window(height: u16, total: usize, scroll_offset: usize) -> (r: ChatWindow)
    requires
        height > 0,
    ensures
        r == chat_window_spec(height, total, scroll_offset),
{
    let visible = height as usize;
    let m: usize = if total > visible { total - visible } else { 0 };
    let off: usize = if scroll_offset < m { scroll_offset } else { m };
    let end = total - off;
    let start = if end > visible { end - visible } else { 0 };
    let scrollbar = if total > visible {
        Some(ScrollbarSpec { content_length: m + 1, position: m - off, viewport: visible })
    } else {
        None
    };
    ChatWindow { start, end, scrollbar }
}

/// The hint under the input line.
pub const INPUT_HINT: &'static str = "Enter 发送 · Ctrl+C 退出 · Tab 切换焦点 · Ctrl+P 切换模式";

/// What the input bar shows on its first line: its prefix (the model when
/// there is one, the mode, the prompt), the columns the prefix takes, the
/// columns left for the input (at least one), the part of the input that
/// fits, where the cursor falls in it (when focused and in view), and the
/// columns used in all.
#[derive(Debug)]
pub struct InputBarLayout {
    pub prefix: String,
    pub prefix_cols: usize,
    pub text_cols: usize,
    pub display_text: String,
    pub cursor_offset: Option<usize>,
    pub used_cols: usize,
}

/// The prefix of the input line.
pub open spec fn input_prefix(model: Seq<char>, mode: AgentMode) -> Seq<char> {
    if model.len() == 0 {
        mode_label(mode) + " │ > "@
    } else {
        model + " │ "@ + mode_label(mode) + " │ > "@
    }
}

pub open spec fn prefix_of_len(s: Seq<char>, n: int) -> Seq<char> {
    if n < s.len() { s.take(n) } else { s }
}

/// Whether `l` lays out an input line of `width` columns for the model,
/// mode, input text and cursor column given.
pub open spec fn is_input_layout(l: InputBarLayout, model: Seq<char>, mode: AgentMode, text: Seq<char>, cursor_col: usize, width: u16, focus: bool) -> bool {
    let prefix = input_prefix(model, mode);
    let pc = unicode_str_width(prefix) as int;
    let tc = if width - pc >= 1 { width - pc } else { 1 };
    let shown = prefix_of_len(text, tc);
    let off = unicode_str_width(prefix_of_len(text, cursor_col as int)) as int;
    let used = pc + unicode_str_width(shown) as int;
    &&& l.prefix@ == prefix
    &&& l.prefix_cols == pc
    &&& l.text_cols == tc
    &&& l.display_text@ == shown
    &&& l.cursor_offset == if focus && off < tc { Some(off as usize) } else { None }
    &&& l.used_cols == if used <= usize::MAX { used } else { usize::MAX as int }
}

fn take_chars(s: &str, n: usize) -> (r: String)
    ensures
        r@ == prefix_of_len(s@, n as int),
{
    let cs = chars_of(s);
    if n < cs.len() {
        string_from_chars(&cs, 0, n)
    } else {
        assert(cs@.subrange(0, cs@.len() as int) =~= cs@);
        string_from_chars(&cs, 0, cs.len())
    }
}

/// The first line of the input bar (see [`is_input_layout`]).
pub fn input_bar_layout(model: &str, mode: AgentMode, text: &str, cursor_col: usize, width: u16, focus: bool) -> (r: InputBarLayout)
    ensures
        is_input_layout(r, model@, mode, text@, cursor_col, width, focus),
{
    let mut prefix = String::new();
    if model.unicode_len() > 0 {
        push_str(&mut prefix, model);
        push_str(&mut prefix, " │ ");
    }
    push_str(&mut prefix, mode.label());
    push_str(&mut prefix, " │ > ");
    proof {
        assert(prefix@ =~= input_prefix(model@, mode));
    }
    let pc = str_width(prefix.as_str());
    let w = width as usize;
    let tc: usize = if w > pc && w - pc >= 1 { w - pc } else { 1 };
    let display_text = take_chars(text, tc);
    let before = take_chars(text, cursor_col);
    let off = str_width(before.as_str());
    let cursor_offset = if focus && off < tc { Some(off) } else { None };
    let used = pc.saturating_add(str_width(display_text.as_str()));
    InputBarLayout { prefix, prefix_cols: pc, text_cols: tc, display_text, cursor_offset, used_cols: used }
}

} // verus!
