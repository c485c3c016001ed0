//! An incremental parser for server-sent events (`text/event-stream`).
//!
//! Chunks of the stream are fed in as they arrive; complete lines are
//! interpreted as they become available and finished events are handed
//! back.  Line endings `\r\n` and `\r` count as `\n`; a leading byte-order
//! mark on the first chunk is dropped.
use vstd::prelude::*;
use crate::search::first_newline;
use crate::text::{chars_of, join_newline, push_char, string_from_chars, string_of};

verus! {

/// One dispatched event.
#[derive(Debug, Clone, PartialEq, Eq)]
pub struct SseEvent {
    pub event: String,
    pub data: String,
    pub id: String,
}

/// The abstract content of an event.
pub struct EventView {
    pub event: Seq<char>,
    pub data: Seq<char>,
    pub id: Seq<char>,
}

impl SseEvent {
    pub open spec fn view(&self) -> EventView {
        EventView { event: self.event@, data: self.data@, id: self.id@ }
    }
}

/// The views of a list of events.
pub open spec fn events_view(v: Seq<SseEvent>) -> Seq<EventView> {
    v.map_values(|e: SseEvent| e.view())
}

/// The abstract state of a parser.
pub struct ParserState {
    pub event_type: Seq<char>,
    pub data_lines: Seq<Seq<char>>,
    pub event_id: Seq<char>,
    pub last_event_id: Seq<char>,
    pub retry: i32,
    pub buf: Seq<char>,
    pub ignore_bom: bool,
}

/// The state of a fresh (or reset) parser.
pub open spec fn initial_state() -> ParserState {
    ParserState {
        event_type: Seq::empty(),
        data_lines: Seq::empty(),
        event_id: Seq::empty(),
        last_event_id: Seq::empty(),
        retry: 0,
        buf: Seq::empty(),
        ignore_bom: true,
    }
}

// ---------------------------------------------------------------------
// Lines and fields
// ---------------------------------------------------------------------

/// `\r\n` and lone `\r` become `\n`.
pub open spec fn normalize_newlines(s: Seq<char>) -> Seq<char>
    decreases s.len(),
{
    if s.len() == 0 {
        s
    } else if s[0] == '\r' && s.len() > 1 && s[1] == '\n' {
        seq!['\n'] + normalize_newlines(s.skip(2))
    } else if s[0] == '\r' {
        seq!['\n'] + normalize_newlines(s.skip(1))
    } else {
        seq![s[0]] + normalize_newlines(s.skip(1))
    }
}

/// ASCII case-insensitive equality of a field name with a lower-case
/// ASCII name.  (For the field names used here this is the same as
/// comparing the Unicode lower-case form of `f` with `name`: no other
/// character lower-cases to one of their letters.)
pub open spec fn field_is(f: Seq<char>, name: Seq<char>) -> bool {
    f.len() == name.len() && forall|k: int|
        0 <= k < f.len() ==> (f[k] == name[k] || (f[k] as u32 + 32 == name[k] as u32 && 'a'
            <= name[k] <= 'z'))
}

/// The index of the first `:` in `s`, or its length.
pub open spec fn first_colon(s: Seq<char>) -> int
    decreases s.len(),
{
    if s.len() == 0 {
        0
    } else if s[0] == ':' {
        0
    } else {
        1 + first_colon(s.drop_first())
    }
}

/// The field name of a line: everything before the first `:`.
pub open spec fn line_field(line: Seq<char>) -> Seq<char> {
    line.take(first_colon(line))
}

/// The field value of a line: everything after the first `:`, without one
/// leading space; empty when there is no `:`.
pub open spec fn line_value(line: Seq<char>) -> Seq<char> {
    let c = first_colon(line);
    if c < line.len() {
        let rest = line.skip(c + 1);
        if rest.len() > 0 && rest[0] == ' ' {
            rest.skip(1)
        } else {
            rest
        }
    } else {
        Seq::empty()
    }
}

/// Unicode white space (the `White_Space` property, as `char::is_whitespace`).
pub open spec fn is_white_space(c: char) -> bool {
    c == '\t' || c == '\n' || c == '\u{0B}' || c == '\u{0C}' || c == '\r' || c == ' '
        || c == '\u{85}' || c == '\u{A0}' || c == '\u{1680}' || ('\u{2000}' <= c
        && c <= '\u{200A}') || c == '\u{2028}' || c == '\u{2029}' || c == '\u{202F}'
        || c == '\u{205F}' || c == '\u{3000}'
}

/// `s` without leading and trailing white space.
pub open spec fn trim_white(s: Seq<char>) -> Seq<char>
    decreases s.len(),
{
    if s.len() > 0 && is_white_space(s[0]) {
        trim_white(s.skip(1))
    } else if s.len() > 0 && is_white_space(s.last()) {
        trim_white(s.drop_last())
    } else {
        s
    }
}

pub open spec fn is_ascii_digit(c: char) -> bool {
    '0' <= c && c <= '9'
}

/// The value of a string of decimal digits.
pub open spec fn digits_value(d: Seq<char>) -> int
    decreases d.len(),
{
    if d.len() == 0 {
        0
    } else {
        digits_value(d.drop_last()) * 10 + (d.last() as u32 - '0' as u32)
    }
}

/// `s` without a leading `+` or `-`.
pub open spec fn unsigned_part(s: Seq<char>) -> Seq<char> {
    if s.len() > 0 && (s[0] == '+' || s[0] == '-') {
        s.skip(1)
    } else {
        s
    }
}

/// Whether `d` is one or more ASCII digits.
pub open spec fn all_digits(d: Seq<char>) -> bool {
    d.len() > 0 && forall|k: int| 0 <= k < d.len() ==> is_ascii_digit(d[k])
}

/// A decimal `i32` as Rust reads one: an optional `+` or `-`, then one or
/// more ASCII digits, with a value in range.
pub open spec fn parse_i32(s: Seq<char>) -> Option<i32> {
    let d = unsigned_part(s);
    let v = if s.len() > 0 && s[0] == '-' {
        -digits_value(d)
    } else {
        digits_value(d)
    };
    if !all_digits(d) {
        None
    } else if i32::MIN <= v <= i32::MAX {
        Some(v as i32)
    } else {
        None
    }
}

/// The state after interpreting one non-empty line.
pub open spec fn process_line_spec(st: ParserState, line: Seq<char>) -> ParserState {
    let field = line_field(line);
    let value = line_value(line);
    if line.len() == 0 || line[0] == ':' {
        st
    } else if field_is(field, "event"@) {
        ParserState { event_type: value, ..st }
    } else if field_is(field, "data"@) {
        ParserState { data_lines: st.data_lines.push(value), ..st }
    } else if field_is(field, "id"@) {
        if value.contains('\0') {
            st
        } else {
            ParserState { event_id: value, last_event_id: value, ..st }
        }
    } else if field_is(field, "retry"@) {
        let t = trim_white(value);
        if t.len() > 0 && parse_i32(t) is Some && parse_i32(t).unwrap() >= 0 {
            ParserState { retry: parse_i32(t).unwrap(), ..st }
        } else {
            st
        }
    } else {
        st
    }
}

/// The event made from the pending fields.
pub open spec fn pending_event(st: ParserState) -> EventView {
    EventView {
        event: if st.event_type.len() == 0 {
            "message"@
        } else {
            st.event_type
        },
        data: join_newline(st.data_lines),
        id: st.event_id,
    }
}

/// `st` with a different buffered partial line.
pub open spec fn with_buf(st: ParserState, b: Seq<char>) -> ParserState {
    ParserState { buf: b, ..st }
}

/// The state right after an event was dispatched.
pub open spec fn after_dispatch(st: ParserState) -> ParserState {
    ParserState {
        event_type: Seq::empty(),
        data_lines: Seq::empty(),
        event_id: Seq::empty(),
        ..st
    }
}

/// Interpreting one line: a blank line dispatches the pending event when
/// there is data; any other line updates the fields.
pub open spec fn apply_line(st: ParserState, line: Seq<char>) -> (ParserState, Seq<EventView>) {
    if line.len() == 0 {
        if st.data_lines.len() > 0 {
            (after_dispatch(st), seq![pending_event(st)])
        } else {
            (st, Seq::empty())
        }
    } else {
        (process_line_spec(st, line), Seq::empty())
    }
}

/// Interpreting every `\n`-separated line of `t` in order (the text after
/// the last `\n` is a line too).
pub open spec fn apply_text(st: ParserState, t: Seq<char>) -> (ParserState, Seq<EventView>)
    decreases t.len(),
{
    let k = first_newline(t);
    let (s1, e1) = apply_line(st, t.take(k));
    if 0 <= k < t.len() {
        let (s2, e2) = apply_text(s1, t.skip(k + 1));
        (s2, e1 + e2)
    } else {
        (s1, e1)
    }
}

/// The index of the last `\n` in `t`, or -1.
pub open spec fn last_newline(t: Seq<char>) -> int
    decreases t.len(),
{
    if t.len() == 0 {
        -1
    } else if t.last() == '\n' {
        t.len() - 1
    } else {
        last_newline(t.drop_last())
    }
}

/// What feeding `chunk` does: returns the new state and the events.
pub open spec fn feed_spec(st: ParserState, chunk: Seq<char>) -> (ParserState, Seq<EventView>) {
    if chunk.len() == 0 {
        (st, Seq::empty())
    } else {
        let s = if st.ignore_bom && chunk[0] == '\u{FEFF}' {
            chunk.skip(1)
        } else {
            chunk
        };
        let st1 = ParserState { ignore_bom: false, ..st };
        if s.len() == 0 {
            (st1, Seq::empty())
        } else {
            let text = normalize_newlines(st.buf + s);
            let l = last_newline(text);
            if l < 0 {
                (with_buf(st1, text), Seq::empty())
            } else {
                apply_text(with_buf(st1, text.skip(l + 1)), text.take(l))
            }
        }
    }
}

/// What flushing does: the buffered partial line is interpreted, then any
/// pending data is dispatched.
pub open spec fn flush_spec(st: ParserState) -> (ParserState, Seq<EventView>) {
    let (s1, e1) = if st.buf.len() > 0 {
        apply_text(with_buf(st, Seq::empty()), st.buf)
    } else {
        (st, Seq::empty())
    };
    if s1.data_lines.len() > 0 {
        (after_dispatch(s1), e1.push(pending_event(s1)))
    } else {
        (s1, e1)
    }
}

// ---------------------------------------------------------------------
// The parser
// ---------------------------------------------------------------------

/// Parser state: the fields of the event being assembled, the last event
/// id seen, the reconnection time, and the incomplete last line.
pub struct SseParser {
    event_type: String,
    data_lines: Vec<String>,
    event_id: String,
    last_event_id: String,
    retry_value: i32,
    buf: String,
    ignore_bom: bool,
}

impl SseParser {
    /// The abstract state.
    pub closed spec fn state(&self) -> ParserState {
        ParserState {
            event_type: self.event_type@,
            data_lines: self.data_lines@.map_values(|s: String| s@),
            event_id: self.event_id@,
            last_event_id: self.last_event_id@,
            retry: self.retry_value,
            buf: self.buf@,
            ignore_bom: self.ignore_bom,
        }
    }

    /// A parser that has seen nothing.
    pub fn new() -> (p: Self)
        ensures
            p.state() == initial_state(),
    {
        let p = SseParser {
            event_type: String::new(),
            data_lines: Vec::new(),
            event_id: String::new(),
            last_event_id: String::new(),
            retry_value: 0,
            buf: String::new(),
            ignore_bom: true,
        };
        assert(p.state().data_lines =~= Seq::<Seq<char>>::empty());
        p
    }

    /// Feeds a chunk of the stream; returns the events completed by it.
    pub fn feed(&mut self, chunk: &str) -> (events: Vec<SseEvent>)
        ensures
            (final(self).state(), events_view(events@)) == feed_spec(old(self).state(), chunk@),
    {
        let mut events: Vec<SseEvent> = Vec::new();
        let input = chars_of(chunk);
        if input.len() == 0 {
            assert(events_view(events@) =~= Seq::<EventView>::empty());
            return events;
        }
        let ghost st0 = self.state();
        let mut start: usize = 0;
        if self.ignore_bom {
            if input[0] == '\u{FEFF}' {
                start = 1;
            }
        }
        self.ignore_bom = false;
        if start == input.len() {
            assert(input@.skip(1).len() == 0);
            assert(events_view(events@) =~= Seq::<EventView>::empty());
            return events;
        }
        let ghost s = if st0.ignore_bom && input@[0] == '\u{FEFF}' {
            input@.skip(1)
        } else {
            input@
        };
        assert(input@.subrange(start as int, input@.len() as int) =~= s);
        let mut combined = chars_of(self.buf.as_str());
        let mut i = start;
        while i < input.len()
            invariant
                start <= i <= input@.len(),
                combined@ == st0.buf + input@.subrange(start as int, i as int),
            decreases input@.len() - i,
        {
            combined.push(input[i]);
            i += 1;
            assert(input@.subrange(start as int, i as int) =~= input@.subrange(
                start as int,
                i - 1,
            ).push(input@[i - 1]));
        }
        let text = normalize(&combined);
        assert(text@ == normalize_newlines(st0.buf + s));
        let l = find_last_newline(&text);
        proof {
            lemma_last_newline(text@);
        }
        match l {
            None => {
                self.buf = string_from_chars(&text, 0, text.len());
                assert(text@.subrange(0, text@.len() as int) =~= text@);
                assert(events_view(events@) =~= Seq::<EventView>::empty());
                events
            },
            Some(last) => {
                self.buf = string_from_chars(&text, last + 1, text.len());
                assert(text@.subrange(last + 1, text@.len() as int) =~= text@.skip(last + 1));
                let ghost complete = text@.take(last as int);
                let ghost stb = self.state();
                assert(stb == ParserState { buf: text@.skip(last + 1), ignore_bom: false, ..st0 });
                self.apply_chars(&text, 0, last, &mut events);
                assert(text@.subrange(0, last as int) =~= complete);
                events
            },
        }
    }

    /// Interprets every `\n`-separated line of `text[from..to]`, appending
    /// the events dispatched to `events`.
    fn apply_chars(&mut self, text: &Vec<char>, from: usize, to: usize, events: &mut Vec<SseEvent>)
        requires
            from <= to <= text@.len(),
        ensures
            ({
                let (s, e) = apply_text(old(self).state(), text@.subrange(from as int, to as int));
                &&& final(self).state() == s
                &&& events_view(final(events)@) == events_view(old(events)@) + e
            }),
    {
        let ghost t = text@.subrange(from as int, to as int);
        let ghost st0 = self.state();
        let ghost ev0 = events_view(events@);
        let mut line_start = from;
        let mut i = from;
        assert(text@.subrange(from as int, to as int) =~= t);
        while i < to
            invariant
                from <= line_start <= i <= to <= text@.len(),
                t == text@.subrange(from as int, to as int),
                forall|j: int| line_start <= j < i ==> text@[j] != '\n',
                ({
                    let (s, e) = apply_text(self.state(), text@.subrange(line_start as int, to as int));
                    let (s0, e0) = apply_text(st0, t);
                    &&& s == s0
                    &&& events_view(events@) + e == ev0 + e0
                }),
            decreases to - i,
        {
            if text[i] == '\n' {
                let ghost rest = text@.subrange(line_start as int, to as int);
                let ghost k = (i - line_start) as int;
                proof {
                    lemma_first_newline_at(rest, k);
                    assert(rest.take(k) =~= text@.subrange(line_start as int, i as int));
                    assert(rest.skip(k + 1) =~= text@.subrange(i + 1, to as int));
                }
                let ghost before = events_view(events@);
                self.apply_one_line(text, line_start, i, events);
                line_start = i + 1;
            }
            i += 1;
        }
        let ghost rest = text@.subrange(line_start as int, to as int);
        proof {
            lemma_first_newline_at(rest, (to - line_start) as int);
            assert(rest.take((to - line_start) as int) =~= rest);
        }
        self.apply_one_line(text, line_start, to, events);
    }

    /// Interprets the single line `text[a..b]`.
    fn apply_one_line(&mut self, text: &Vec<char>, a: usize, b: usize, events: &mut Vec<SseEvent>)
        requires
            a <= b <= text@.len(),
        ensures
            ({
                let (s, e) = apply_line(old(self).state(), text@.subrange(a as int, b as int));
                &&& final(self).state() == s
                &&& events_view(final(events)@) == events_view(old(events)@) + e
            }),
    {
        if a == b {
            if self.data_lines.len() > 0 {
                let ev = self.dispatch_event();
                let ghost before = events@;
                events.push(ev);
                assert(events_view(events@) =~= events_view(before).push(ev.view()));
            } else {
                assert(events_view(events@) =~= events_view(old(events)@) + Seq::<EventView>::empty());
            }
        } else {
            self.process_line(text, a, b);
            assert(events_view(events@) =~= events_view(old(events)@) + Seq::<EventView>::empty());
        }
    }

    /// Interprets the non-empty line `text[a..b]`.
    fn process_line(&mut self, text: &Vec<char>, a: usize, b: usize)
        requires
            a < b <= text@.len(),
        ensures
            final(self).state() == process_line_spec(
                old(self).state(),
                text@.subrange(a as int, b as int),
            ),
    {
        let ghost line = text@.subrange(a as int, b as int);
        if text[a] == ':' {
            return;
        }
        let mut c = a;
        while c < b && text[c] != ':'
            invariant
                a <= c <= b <= text@.len(),
                forall|j: int| a <= j < c ==> text@[j] != ':',
            decreases b - c,
        {
            c += 1;
        }
        proof {
            lemma_first_colon_at(line, (c - a) as int);
        }
        let mut v = b;
        if c < b {
            v = c + 1;
            if v < b && text[v] == ' ' {
                v = v + 1;
            }
        }
        assert(line_field(line) =~= text@.subrange(a as int, c as int));
        assert(line_value(line) =~= text@.subrange(v as int, b as int));
        if field_matches(text, a, c, "event") {
            self.event_type = string_from_chars(text, v, b);
        } else if field_matches(text, a, c, "data") {
            let value = string_from_chars(text, v, b);
            let ghost before = self.data_lines@;
            self.data_lines.push(value);
            assert(self.data_lines@.map_values(|s: String| s@) =~= before.map_values(
                |s: String| s@,
            ).push(line_value(line)));
        } else if field_matches(text, a, c, "id") {
            let mut has_nul = false;
            let mut j = v;
            while j < b
                invariant
                    v <= j <= b <= text@.len(),
                    has_nul == exists|k: int| v <= k < j && text@[k] == '\0',
                decreases b - j,
            {
                if text[j] == '\0' {
                    has_nul = true;
                }
                j += 1;
            }
            if has_nul {
                let ghost k = choose|k: int| v <= k < b && text@[k] == '\0';
                assert(line_value(line)[k - v] == '\0');
            } else {
                assert(!line_value(line).contains('\0'));
                self.event_id = string_from_chars(text, v, b);
                self.last_event_id = string_from_chars(text, v, b);
            }
        } else if field_matches(text, a, c, "retry") {
            let (ta, tb) = trim_bounds(text, v, b);
            if ta < tb {
                match parse_i32_chars(text, ta, tb) {
                    Some(n) => {
                        if n >= 0 {
                            self.retry_value = n;
                        }
                    },
                    None => {},
                }
            }
        }
    }

    /// Builds the pending event and clears the pending fields.
    fn dispatch_event(&mut self) -> (ev: SseEvent)
        ensures
            ev.view() == pending_event(old(self).state()),
            final(self).state() == after_dispatch(old(self).state()),
    {
        let event = if self.event_type.as_str().unicode_len() == 0 {
            assert(self.event_type@ =~= Seq::<char>::empty());
            string_of("message")
        } else {
            let t = string_of(self.event_type.as_str());
            self.event_type = String::new();
            t
        };
        let data = crate::text::join_strings_newline(self.data_lines.as_slice());
        let id = string_of(self.event_id.as_str());
        self.event_id = String::new();
        self.data_lines = Vec::new();
        assert(self.state().data_lines =~= Seq::<Seq<char>>::empty());
        SseEvent { event, data, id }
    }

    /// Ends the stream: interprets the buffered partial line and dispatches
    /// pending data.
    pub fn flush(&mut self) -> (events: Vec<SseEvent>)
        ensures
            (final(self).state(), events_view(events@)) == flush_spec(old(self).state()),
    {
        let mut events: Vec<SseEvent> = Vec::new();
        if self.buf.as_str().unicode_len() > 0 {
            let s = chars_of(self.buf.as_str());
            self.buf = String::new();
            self.apply_chars(&s, 0, s.len(), &mut events);
            assert(s@.subrange(0, s@.len() as int) =~= s@);
        }
        if self.data_lines.len() > 0 {
            let ev = self.dispatch_event();
            let ghost before = events@;
            events.push(ev);
            assert(events_view(events@) =~= events_view(before).push(ev.view()));
        }
        events
    }

    /// Forgets everything, as if newly made.
    pub fn reset(&mut self)
        ensures
            final(self).state() == initial_state(),
    {
        self.event_type = String::new();
        self.data_lines = Vec::new();
        self.event_id = String::new();
        self.last_event_id = String::new();
        self.retry_value = 0;
        self.buf = String::new();
        self.ignore_bom = true;
        assert(self.state().data_lines =~= Seq::<Seq<char>>::empty());
    }

    /// The id of the last event that carried one.
    pub fn last_event_id(&self) -> (r: &str)
        ensures
            r@ == self.state().last_event_id,
    {
        self.last_event_id.as_str()
    }

    /// The reconnection time last announced by the server (0 if none).
    pub fn reconnection_time(&self) -> (r: i32)
        ensures
            r == self.state().retry,
    {
        self.retry_value
    }
}

// ---------------------------------------------------------------------
// Helpers
// ---------------------------------------------------------------------

proof fn lemma_first_newline_at(t: Seq<char>, k: int)
    requires
        0 <= k <= t.len(),
        forall|j: int| 0 <= j < k ==> t[j] != '\n',
        k == t.len() || t[k] == '\n',
    ensures
        first_newline(t) == k,
    decreases k,
{
    if k > 0 {
        lemma_first_newline_at(t.drop_first(), k - 1);
    }
}

proof fn lemma_first_colon_at(t: Seq<char>, k: int)
    requires
        0 <= k <= t.len(),
        forall|j: int| 0 <= j < k ==> t[j] != ':',
        k == t.len() || t[k] == ':',
    ensures
        first_colon(t) == k,
    decreases k,
{
    if k > 0 {
        lemma_first_colon_at(t.drop_first(), k - 1);
    }
}

/// Whether `text[a..c]` is the field `name` (ASCII case-insensitive).
fn field_matches(text: &Vec<char>, a: usize, c: usize, name: &str) -> (r: bool)
    requires
        a <= c <= text@.len(),
    ensures
        r == field_is(text@.subrange(a as int, c as int), name@),
{
    let n = chars_of(name);
    if c - a != n.len() {
        return false;
    }
    let mut k: usize = 0;
    while k < n.len()
        invariant
            a <= c <= text@.len(),
            c - a == n@.len(),
            n@ == name@,
            k <= n@.len(),
            forall|j: int|
                0 <= j < k ==> (text@[a + j] == n@[j] || (text@[a + j] as u32 + 32 == n@[j] as u32
                    && 'a' <= n@[j] <= 'z')),
        decreases n@.len() - k,
    {
        let x = text[a + k];
        let y = n[k];
        let same = x == y || ('a' <= y && y <= 'z' && x as u32 == (y as u32) - 32);
        if !same {
            assert(text@.subrange(a as int, c as int)[k as int] == x);
            return false;
        }
        k += 1;
    }
    assert forall|j: int| 0 <= j < (c - a) implies (text@.subrange(a as int, c as int)[j]
        == name@[j] || (text@.subrange(a as int, c as int)[j] as u32 + 32 == name@[j] as u32 && 'a'
        <= name@[j] <= 'z')) by {
        assert(text@.subrange(a as int, c as int)[j] == text@[a + j]);
    }
    true
}

pub(crate) fn is_white_space_char(c: char) -> (r: bool)
    ensures
        r == is_white_space(c),
{
    c == '\t' || c == '\n' || c == '\u{0B}' || c == '\u{0C}' || c == '\r' || c == ' ' || c
        == '\u{85}' || c == '\u{A0}' || c == '\u{1680}' || ('\u{2000}' <= c && c <= '\u{200A}')
        || c == '\u{2028}' || c == '\u{2029}' || c == '\u{202F}' || c == '\u{205F}' || c
        == '\u{3000}'
}

proof fn lemma_trim_white(s: Seq<char>, p: int, q: int)
    requires
        0 <= p <= q <= s.len(),
        forall|j: int| 0 <= j < p ==> is_white_space(s[j]),
        forall|j: int| q <= j < s.len() ==> is_white_space(s[j]),
        p == q || (!is_white_space(s[p]) && !is_white_space(s[q - 1])),
    ensures
        trim_white(s) == s.subrange(p, q),
    decreases s.len(),
{
    if s.len() > 0 && is_white_space(s[0]) {
        if p == 0 {
            assert(q == 0) by {
                if q > 0 {
                    assert(!is_white_space(s[p]));
                }
            }
            // everything is white space
            lemma_trim_white(s.skip(1), 0, 0);
            assert(s.skip(1).subrange(0, 0) =~= s.subrange(p, q));
        } else {
            lemma_trim_white(s.skip(1), p - 1, q - 1);
            assert(s.skip(1).subrange(p - 1, q - 1) =~= s.subrange(p, q));
        }
    } else if s.len() > 0 && is_white_space(s.last()) {
        lemma_trim_white(s.drop_last(), p, if q == s.len() { q - 1 } else { q });
        if q == s.len() {
            assert(p == q);
        }
        assert(s.drop_last().subrange(p, if q == s.len() { q - 1 } else { q }) =~= s.subrange(
            p,
            q,
        ));
    } else {
        if s.len() > 0 {
            assert(p == 0 && q == s.len());
        }
        assert(s.subrange(p, q) =~= s);
    }
}

/// Bounds of `text[a..b]` without white space at either end.
fn trim_bounds(text: &Vec<char>, a: usize, b: usize) -> (r: (usize, usize))
    requires
        a <= b <= text@.len(),
    ensures
        a <= r.0 <= r.1 <= b,
        text@.subrange(r.0 as int, r.1 as int) == trim_white(text@.subrange(a as int, b as int)),
{
    let mut p = a;
    while p < b && is_white_space_char(text[p])
        invariant
            a <= p <= b <= text@.len(),
            forall|j: int| a <= j < p ==> is_white_space(text@[j]),
        decreases b - p,
    {
        p += 1;
    }
    let mut q = b;
    while q > p && is_white_space_char(text[q - 1])
        invariant
            a <= p <= q <= b <= text@.len(),
            forall|j: int| q <= j < b ==> is_white_space(text@[j]),
        decreases q,
    {
        q -= 1;
    }
    proof {
        let s = text@.subrange(a as int, b as int);
        if p == q && p < b {
            assert(q == p);
        }
        lemma_trim_white(s, (p - a) as int, (q - a) as int);
        assert(s.subrange((p - a) as int, (q - a) as int) =~= text@.subrange(p as int, q as int));
    }
    (p, q)
}

/// Reads `text[a..b]` as an `i32` the way Rust's `str::parse` does.
fn parse_i32_chars(text: &Vec<char>, a: usize, b: usize) -> (r: Option<i32>)
    requires
        a <= b <= text@.len(),
    ensures
        r == parse_i32(text@.subrange(a as int, b as int)),
{
    let ghost s = text@.subrange(a as int, b as int);
    let mut neg = false;
    let mut d = a;
    if a < b && (text[a] == '+' || text[a] == '-') {
        neg = text[a] == '-';
        d = a + 1;
    }
    let ghost ds = text@.subrange(d as int, b as int);
    assert(ds =~= unsigned_part(s));
    if d == b {
        return None;
    }
    // the magnitude read so far; stays at most 2^31
    let mut value: u64 = 0;
    let mut k = d;
    let limit: u64 = 2147483648;
    let mut too_big = false;
    while k < b
        invariant
            d <= k <= b <= text@.len(),
            limit == 2147483648,
            s == text@.subrange(a as int, b as int),
            ds == text@.subrange(d as int, b as int),
            ds == unsigned_part(s),
            forall|j: int| d <= j < k ==> is_ascii_digit(text@[j]),
            !too_big ==> value == digits_value(text@.subrange(d as int, k as int)),
            !too_big ==> value <= limit,
            too_big ==> digits_value(text@.subrange(d as int, k as int)) > limit,
        decreases b - k,
    {
        let c = text[k];
        if !('0' <= c && c <= '9') {
            assert(!is_ascii_digit(ds[k - d]));
            assert(!all_digits(ds));
            return None;
        }
        let digit = (c as u32 - '0' as u32) as u64;
        assert(text@.subrange(d as int, k + 1).drop_last() =~= text@.subrange(d as int, k as int));
        proof {
            lemma_digits_value_nonneg(text@.subrange(d as int, k as int));
        }
        if !too_big {
            if value > (limit - digit) / 10 {
                too_big = true;
                assert(digits_value(text@.subrange(d as int, k + 1)) > limit) by (nonlinear_arith)
                    requires
                        digits_value(text@.subrange(d as int, k + 1)) == value * 10 + digit,
                        value > (limit - digit) / 10,
                        digit <= 9,
                        limit == 2147483648,
                ;
            } else {
                value = value * 10 + digit;
            }
        } else {
            assert(digits_value(text@.subrange(d as int, k + 1)) > limit) by (nonlinear_arith)
                requires
                    digits_value(text@.subrange(d as int, k + 1)) == digits_value(
                        text@.subrange(d as int, k as int),
                    ) * 10 + digit,
                    digits_value(text@.subrange(d as int, k as int)) > limit,
                    digit >= 0,
            ;
        }
        k += 1;
    }
    assert(all_digits(ds));
    assert(text@.subrange(d as int, b as int) =~= ds);
    if too_big {
        return None;
    }
    if neg {
        if value <= limit {
            let v: i64 = 0 - (value as i64);
            return Some(v as i32);
        }
        None
    } else {
        if value < limit {
            return Some(value as i32);
        }
        None
    }
}

proof fn lemma_digits_value_nonneg(d: Seq<char>)
    requires
        forall|j: int| 0 <= j < d.len() ==> is_ascii_digit(d[j]),
    ensures
        digits_value(d) >= 0,
    decreases d.len(),
{
    if d.len() > 0 {
        lemma_digits_value_nonneg(d.drop_last());
    }
}

/// Normalises line endings (`\r\n` and `\r` become `\n`).
fn normalize(s: &Vec<char>) -> (r: Vec<char>)
    ensures
        r@ == normalize_newlines(s@),
{
    let mut out: Vec<char> = Vec::new();
    let n = s.len();
    let mut i: usize = 0;
    assert(s@.skip(0) =~= s@);
    while i < n
        invariant
            i <= n == s@.len(),
            out@ + normalize_newlines(s@.skip(i as int)) == normalize_newlines(s@),
        decreases n - i,
    {
        let ghost rest = s@.skip(i as int);
        if s[i] == '\r' && n - i > 1 && s[i + 1] == '\n' {
            out.push('\n');
            assert(rest.skip(2) =~= s@.skip(i + 2));
            i += 2;
        } else if s[i] == '\r' {
            out.push('\n');
            assert(rest.skip(1) =~= s@.skip(i + 1));
            i += 1;
        } else {
            out.push(s[i]);
            assert(rest.skip(1) =~= s@.skip(i + 1));
            i += 1;
        }
        assert(out@ + normalize_newlines(s@.skip(i as int)) =~= normalize_newlines(s@));
    }
    assert(normalize_newlines(s@.skip(n as int)) =~= Seq::<char>::empty());
    assert(out@ + Seq::<char>::empty() =~= out@);
    out
}

proof fn lemma_last_newline(t: Seq<char>)
    ensures
        -1 <= last_newline(t) < t.len(),
        last_newline(t) >= 0 ==> t[last_newline(t)] == '\n',
        forall|j: int| last_newline(t) < j < t.len() ==> t[j] != '\n',
    decreases t.len(),
{
    if t.len() > 0 && t.last() != '\n' {
        lemma_last_newline(t.drop_last());
        assert forall|j: int| last_newline(t) < j < t.len() implies t[j] != '\n' by {
            if j < t.len() - 1 {
                assert(t.drop_last()[j] == t[j]);
            }
        }
    }
}

/// The index of the last `\n`, if any.
fn find_last_newline(t: &Vec<char>) -> (r: Option<usize>)
    ensures
        r matches Some(l) ==> l == last_newline(t@),
        r is None ==> last_newline(t@) < 0,
{
    let mut j = t.len();
    assert(t@.take(j as int) =~= t@);
    while j > 0 && t[j - 1] != '\n'
        invariant
            j <= t@.len(),
            last_newline(t@) == last_newline(t@.take(j as int)),
        decreases j,
    {
        assert(t@.take(j as int).drop_last() =~= t@.take(j - 1));
        j -= 1;
    }
    if j == 0 {
        assert(t@.take(0).len() == 0);
        None
    } else {
        assert(t@.take(j as int).last() == '\n');
        Some(j - 1)
    }
}



// ---------------------------------------------------------------------
// Laws
// ---------------------------------------------------------------------

/// The buffered partial line of a parser never holds a line break.
pub open spec fn buffer_ok(st: ParserState) -> bool {
    !st.buf.contains('\n') && !st.buf.contains('\r')
}

/// Whether `s` holds no carriage return.
pub open spec fn no_cr(s: Seq<char>) -> bool {
    !s.contains('\r')
}

proof fn lemma_normalize_output_no_cr(s: Seq<char>)
    ensures
        no_cr(normalize_newlines(s)),
    decreases s.len(),
{
    if s.len() > 0 {
        if s[0] == '\r' && s.len() > 1 && s[1] == '\n' {
            lemma_normalize_output_no_cr(s.skip(2));
        } else {
            lemma_normalize_output_no_cr(s.skip(1));
        }
        let r = normalize_newlines(s);
        if r.contains('\r') {
            let j = choose|j: int| 0 <= j < r.len() && r[j] == '\r';
            if j > 0 {
                if s[0] == '\r' && s.len() > 1 && s[1] == '\n' {
                    assert(normalize_newlines(s.skip(2))[j - 1] == '\r');
                } else {
                    assert(normalize_newlines(s.skip(1))[j - 1] == '\r');
                }
            }
        }
    }
}

proof fn lemma_first_newline_props(t: Seq<char>)
    ensures
        0 <= first_newline(t) <= t.len(),
        forall|j: int| 0 <= j < first_newline(t) ==> t[j] != '\n',
        first_newline(t) < t.len() ==> t[first_newline(t)] == '\n',
    decreases t.len(),
{
    if t.len() > 0 && t[0] != '\n' {
        lemma_first_newline_props(t.drop_first());
        assert forall|j: int| 0 <= j < first_newline(t) implies t[j] != '\n' by {
            if j > 0 {
                assert(t[j] == t.drop_first()[j - 1]);
            }
        }
    }
}

/// Interpreting lines does not touch the buffered partial line.
proof fn lemma_apply_text_buf(st: ParserState, t: Seq<char>, b: Seq<char>)
    ensures
        apply_text(with_buf(st, b), t).1 == apply_text(st, t).1,
        apply_text(with_buf(st, b), t).0 == with_buf(apply_text(st, t).0, b),
        apply_text(st, t).0.buf == st.buf,
        apply_text(st, t).0.ignore_bom == st.ignore_bom,
    decreases t.len(),
{
    lemma_first_newline_props(t);
    let k = first_newline(t);
    if k < t.len() {
        let s1 = apply_line(st, t.take(k)).0;
        lemma_apply_text_buf(s1, t.skip(k + 1), b);
        assert(apply_line(with_buf(st, b), t.take(k)).0 == with_buf(s1, b));
    }
}

proof fn lemma_last_newline_absent(x: Seq<char>)
    requires
        last_newline(x) < 0,
    ensures
        !x.contains('\n'),
{
    lemma_last_newline(x);
}

/// The buffered partial line never holds a line break, whatever is fed.
pub proof fn law_feed_keeps_buffer_line_free(st: ParserState, chunk: Seq<char>)
    requires
        buffer_ok(st),
    ensures
        buffer_ok(feed_spec(st, chunk).0),
        buffer_ok(flush_spec(st).0),
        buffer_ok(initial_state()),
{
    let st1 = ParserState { ignore_bom: false, ..st };
    assert(flush_spec(st).0.buf.len() == 0) by {
        if st.buf.len() > 0 {
            lemma_apply_text_buf(with_buf(st, Seq::empty()), st.buf, Seq::empty());
        }
    }
    if chunk.len() > 0 {
        let s = if st.ignore_bom && chunk[0] == '\u{FEFF}' {
            chunk.skip(1)
        } else {
            chunk
        };
        if s.len() > 0 {
            let text = normalize_newlines(st.buf + s);
            lemma_normalize_output_no_cr(st.buf + s);
            lemma_last_newline(text);
            let l = last_newline(text);
            if l < 0 {
                lemma_last_newline_absent(text);
            } else {
                let rest = text.skip(l + 1);
                lemma_apply_text_buf(with_buf(st1, rest), text.take(l), rest);
                assert(!rest.contains('\n')) by {
                    if rest.contains('\n') {
                        let j = choose|j: int| 0 <= j < rest.len() && rest[j] == '\n';
                        assert(text[l + 1 + j] == '\n');
                    }
                }
                assert(!rest.contains('\r')) by {
                    if rest.contains('\r') {
                        let j = choose|j: int| 0 <= j < rest.len() && rest[j] == '\r';
                        assert(text[l + 1 + j] == '\r');
                    }
                }
            }
        }
    }
}


// ---------------------------------------------------------------------
// Feeding a stream in pieces
// ---------------------------------------------------------------------

proof fn lemma_normalize_append(x: Seq<char>, y: Seq<char>)
    requires
        x.len() == 0 || x.last() != '\r',
    ensures
        normalize_newlines(x + y) == normalize_newlines(x) + normalize_newlines(y),
    decreases x.len(),
{
    let z = x + y;
    if x.len() == 0 {
        assert(z =~= y);
        assert(normalize_newlines(x) + normalize_newlines(y) =~= normalize_newlines(y));
    } else if x[0] == '\r' && x.len() > 1 && x[1] == '\n' {
        assert(z[0] == '\r' && z[1] == '\n');
        assert(z.skip(2) =~= x.skip(2) + y);
        if x.len() > 2 {
            assert(x.skip(2).last() == x.last());
        }
        lemma_normalize_append(x.skip(2), y);
        assert(normalize_newlines(z) =~= normalize_newlines(x) + normalize_newlines(y));
    } else if x[0] == '\r' {
        assert(x.len() > 1);
        assert(z[0] == '\r' && z[1] == x[1]);
        assert(z.skip(1) =~= x.skip(1) + y);
        assert(x.skip(1).last() == x.last());
        lemma_normalize_append(x.skip(1), y);
        assert(normalize_newlines(z) =~= normalize_newlines(x) + normalize_newlines(y));
    } else {
        assert(z[0] == x[0]);
        assert(z.skip(1) =~= x.skip(1) + y);
        if x.len() > 1 {
            assert(x.skip(1).last() == x.last());
        }
        lemma_normalize_append(x.skip(1), y);
        assert(normalize_newlines(z) =~= normalize_newlines(x) + normalize_newlines(y));
    }
}

proof fn lemma_normalize_cr_free(x: Seq<char>)
    ensures
        !normalize_newlines(x).contains('\r'),
        !x.contains('\r') ==> normalize_newlines(x) == x,
    decreases x.len(),
{
    if x.len() > 0 {
        if x[0] == '\r' && x.len() > 1 && x[1] == '\n' {
            lemma_normalize_cr_free(x.skip(2));
        } else {
            lemma_normalize_cr_free(x.skip(1));
            if !x.contains('\r') {
                assert forall|j: int| 0 <= j < x.skip(1).len() implies x.skip(1)[j] != '\r' by {
                    assert(x.skip(1)[j] == x[j + 1]);
                }
                assert(seq![x[0]] + x.skip(1) =~= x);
            }
        }
        let n = normalize_newlines(x);
        if n.contains('\r') {
            let j = choose|j: int| 0 <= j < n.len() && n[j] == '\r';
            if x[0] == '\r' && x.len() > 1 && x[1] == '\n' {
                assert(n[j] == (seq!['\n'] + normalize_newlines(x.skip(2)))[j]);
                if j > 0 {
                    assert(normalize_newlines(x.skip(2))[j - 1] == '\r');
                }
            } else if x[0] == '\r' {
                if j > 0 {
                    assert(normalize_newlines(x.skip(1))[j - 1] == '\r');
                }
            } else {
                if j > 0 {
                    assert(normalize_newlines(x.skip(1))[j - 1] == '\r');
                }
            }
        }
    }
}

proof fn lemma_last_newline_append(x: Seq<char>, y: Seq<char>)
    ensures
        last_newline(x + y) == if last_newline(y) >= 0 { x.len() + last_newline(y) } else { last_newline(x) },
    decreases y.len(),
{
    if y.len() == 0 {
        assert(x + y =~= x);
    } else if y.last() == '\n' {
        assert((x + y).last() == '\n');
    } else {
        assert((x + y).last() == y.last());
        assert((x + y).drop_last() =~= x + y.drop_last());
        lemma_last_newline_append(x, y.drop_last());
    }
}

proof fn lemma_first_newline_basics(t: Seq<char>)
    ensures
        0 <= first_newline(t) <= t.len(),
        first_newline(t) < t.len() ==> t[first_newline(t)] == '\n',
        forall|j: int| 0 <= j < first_newline(t) ==> t[j] != '\n',
    decreases t.len(),
{
    if t.len() > 0 && t[0] != '\n' {
        lemma_first_newline_basics(t.drop_first());
        assert forall|j: int| 0 <= j < first_newline(t) implies t[j] != '\n' by {
            if j > 0 {
                assert(t[j] == t.drop_first()[j - 1]);
            }
        }
        if first_newline(t) < t.len() {
            assert(t[first_newline(t)] == t.drop_first()[first_newline(t) - 1]);
        }
    }
}

proof fn lemma_first_newline_append(x: Seq<char>, z: Seq<char>)
    ensures
        first_newline(x) < x.len() ==> first_newline(x + z) == first_newline(x),
        first_newline(x) >= x.len() ==> first_newline(x + z) == x.len() + first_newline(z),
    decreases x.len(),
{
    if x.len() == 0 {
        assert(x + z =~= z);
    } else if x[0] == '\n' {
        assert((x + z)[0] == '\n');
    } else {
        assert((x + z)[0] == x[0]);
        assert((x + z).drop_first() =~= x.drop_first() + z);
        lemma_first_newline_append(x.drop_first(), z);
    }
}

/// The state and events after interpreting `x`, then a line break, then
/// `y`, are those of interpreting `x` and then `y`.
proof fn lemma_apply_text_join(st: ParserState, x: Seq<char>, y: Seq<char>)
    ensures
        apply_text(st, x + seq!['\n'] + y) == ({
            let (s1, e1) = apply_text(st, x);
            let (s2, e2) = apply_text(s1, y);
            (s2, e1 + e2)
        }),
    decreases x.len(),
{
    let t = x + seq!['\n'] + y;
    lemma_first_newline_basics(x);
    lemma_first_newline_append(x, seq!['\n'] + y);
    assert(t =~= x + (seq!['\n'] + y));
    let k = first_newline(x);
    if k < x.len() {
        assert(t.take(k) =~= x.take(k));
        assert(t.skip(k + 1) =~= x.skip(k + 1) + seq!['\n'] + y);
        let (s1, e1) = apply_line(st, x.take(k));
        lemma_apply_text_join(s1, x.skip(k + 1), y);
        let (a, ea) = apply_text(s1, x.skip(k + 1));
        let (b, eb) = apply_text(a, y);
        assert(e1 + (ea + eb) =~= (e1 + ea) + eb);
    } else {
        assert(first_newline(seq!['\n'] + y) == 0);
        assert(t.take(k) =~= x);
        assert(x.take(k) =~= x);
        assert(t.skip(k + 1) =~= y);
    }
}

/// Interpreting lines does not look at or change the buffered partial
/// line, nor whether a byte order mark is still expected.
proof fn lemma_apply_text_keeps_buf(st: ParserState, b: Seq<char>, t: Seq<char>)
    ensures
        apply_text(with_buf(st, b), t) == (with_buf(apply_text(st, t).0, b), apply_text(st, t).1),
        apply_text(st, t).0.buf == st.buf,
        apply_text(st, t).0.ignore_bom == st.ignore_bom,
    decreases t.len(),
{
    let k = first_newline(t);
    lemma_first_newline_basics(t);
    let line = t.take(k);
    let w = with_buf(st, b);
    assert(apply_line(w, line) == (with_buf(apply_line(st, line).0, b), apply_line(st, line).1));
    if 0 <= k < t.len() {
        lemma_apply_text_keeps_buf(apply_line(st, line).0, b, t.skip(k + 1));
    }
}

/// Feeding a stream in two pieces gives the same events, in the same
/// order, and the same parser state as feeding it whole, unless the first
/// piece ends with `\r` (then a `\r\n` pair would be split and read as two
/// line ends).  The buffered partial line never holds a `\r`.
#[verifier::spinoff_prover]
#[verifier::rlimit(60)]
pub proof fn law_feed_in_pieces(st: ParserState, a: Seq<char>, b: Seq<char>)
    requires
        !st.buf.contains('\r'),
        a.len() == 0 || a.last() != '\r',
    ensures
        !feed_spec(st, a).0.buf.contains('\r'),
        feed_spec(st, a + b) == ({
            let (s1, e1) = feed_spec(st, a);
            let (s2, e2) = feed_spec(s1, b);
            (s2, e1 + e2)
        }),
{
    let (s1, e1) = feed_spec(st, a);
    let (s2, e2) = feed_spec(s1, b);
    if a.len() == 0 {
        assert(a + b =~= b);
        assert(e1 + e2 =~= e2);
        return;
    }
    let bom = st.ignore_bom && a[0] == '\u{FEFF}';
    let ap = if bom { a.skip(1) } else { a };
    let st1 = ParserState { ignore_bom: false, ..st };
    if ap.len() > 0 {
        assert(ap.last() == a.last());
    }
    // the buffer after the first piece
    if ap.len() > 0 {
        let ta = normalize_newlines(st.buf + ap);
        lemma_normalize_cr_free(st.buf + ap);
        lemma_last_newline(ta);
        let la = last_newline(ta);
        if la >= 0 {
            lemma_apply_text_keeps_buf(with_buf(st1, ta.skip(la + 1)), ta.skip(la + 1), ta.take(la));
            let rest = ta.skip(la + 1);
            if rest.contains('\r') {
                let j = choose|j: int| 0 <= j < rest.len() && rest[j] == '\r';
                assert(ta[la + 1 + j] == '\r');
            }
        }
    }
    if b.len() == 0 {
        assert(a + b =~= a);
        assert(e1 + e2 =~= e1);
        return;
    }
    let ab = a + b;
    assert(ab[0] == a[0]);
    let sab = if bom { ab.skip(1) } else { ab };
    assert(sab =~= ap + b);
    if ap.len() == 0 {
        assert(sab =~= b);
        assert(s1 == st1);
        assert(e1 + e2 =~= e2);
        return;
    }
    let x = st.buf + ap;
    assert(x.last() == ap.last());
    let ta = normalize_newlines(x);
    let nb = normalize_newlines(b);
    lemma_normalize_append(x, b);
    assert(st.buf + sab =~= x + b);
    let t = ta + nb;
    lemma_normalize_cr_free(x);
    lemma_last_newline(ta);
    let la = last_newline(ta);
    if la < 0 {
        assert(s1 == with_buf(st1, ta));
        assert(e1 =~= Seq::<EventView>::empty());
        lemma_normalize_cr_free(ta);
        if ta.len() > 0 {
            assert(ta.last() != '\r') by {
                assert(ta[ta.len() - 1] == ta.last());
            }
        }
        lemma_normalize_append(ta, b);
        assert(ParserState { ignore_bom: false, ..s1 } == s1);
        assert(e1 + e2 =~= e2);
        assert(feed_spec(s1, b).0 == feed_spec(st, ab).0);
    } else {
        let head = ta.take(la);
        let b1 = ta.skip(la + 1);
        assert(ta =~= head + seq!['\n'] + b1);
        lemma_apply_text_keeps_buf(st1, b1, head);
        let s1x = apply_text(st1, head).0;
        assert(s1 == with_buf(s1x, b1));
        assert(ParserState { ignore_bom: false, ..s1 } == s1);
        assert(!b1.contains('\r')) by {
            if b1.contains('\r') {
                let j = choose|j: int| 0 <= j < b1.len() && b1[j] == '\r';
                assert(ta[la + 1 + j] == '\r');
            }
        }
        lemma_normalize_cr_free(b1);
        if b1.len() > 0 {
            assert(b1.last() != '\r') by {
                assert(b1[b1.len() - 1] == b1.last());
            }
        }
        lemma_normalize_append(b1, b);
        let tb = b1 + nb;
        assert(t =~= (head + seq!['\n']) + tb);
        lemma_last_newline_append(head + seq!['\n'], tb);
        lemma_last_newline(tb);
        let lb = last_newline(tb);
        if lb < 0 {
            lemma_last_newline_append(head, seq!['\n']);
            assert(last_newline(seq!['\n']) == 0);
            assert(t.skip(la + 1) =~= tb);
            assert(t.take(la) =~= head);
            lemma_apply_text_keeps_buf(st1, tb, head);
            assert(e1 + e2 =~= e1);
        } else {
            let tail = tb.skip(lb + 1);
            let mid = tb.take(lb);
            assert(t.take(la + 1 + lb) =~= head + seq!['\n'] + mid);
            assert(t.skip(la + 1 + lb + 1) =~= tail);
            lemma_apply_text_join(with_buf(st1, tail), head, mid);
            lemma_apply_text_keeps_buf(st1, tail, head);
            lemma_apply_text_keeps_buf(s1x, tail, mid);
            lemma_apply_text_keeps_buf(s1x, b1, mid);
            assert(with_buf(s1, tail) == with_buf(s1x, tail));
        }
    }
}

/// The reconnection time after line `line`, from `r`: the line's value
/// when it is a `retry` field holding a non-negative `i32`, else `r`.
pub open spec fn line_retry(r: i32, line: Seq<char>) -> i32 {
    let t = trim_white(line_value(line));
    if line.len() > 0 && line[0] != ':' && field_is(line_field(line), "retry"@) && t.len() > 0
        && parse_i32(t) is Some && parse_i32(t).unwrap() >= 0 {
        parse_i32(t).unwrap()
    } else {
        r
    }
}

/// The reconnection time after the `\n`-separated lines of `t`, from `r`:
/// that of the last valid `retry` line, or `r` when there is none.
pub open spec fn text_retry(r: i32, t: Seq<char>) -> i32
    decreases t.len(),
{
    let k = first_newline(t);
    let r1 = line_retry(r, t.take(k));
    if 0 <= k < t.len() {
        text_retry(r1, t.skip(k + 1))
    } else {
        r1
    }
}

proof fn lemma_retry_field_is_no_other(f: Seq<char>)
    ensures
        field_is(f, "retry"@) ==> !field_is(f, "event"@) && !field_is(f, "data"@) && !field_is(f, "id"@),
{
    reveal_strlit("retry");
    reveal_strlit("event");
    reveal_strlit("data");
    reveal_strlit("id");
    if field_is(f, "retry"@) && field_is(f, "event"@) {
        assert("retry"@[0] == 'r' && "event"@[0] == 'e');
        assert(f[0] == 'r' || f[0] as u32 + 32 == 'r' as u32);
        assert(f[0] == 'e' || f[0] as u32 + 32 == 'e' as u32);
        assert(('r' as u32) == 114 && ('e' as u32) == 101);
    }
}

/// Interpreting lines sets the reconnection time from the last valid
/// `retry` line and leaves it alone otherwise: events, comments, other
/// fields and invalid values do not change it.
pub proof fn law_retry_is_last_valid(st: ParserState, t: Seq<char>)
    ensures
        apply_text(st, t).0.retry == text_retry(st.retry, t),
    decreases t.len(),
{
    let k = first_newline(t);
    lemma_first_newline_basics(t);
    let line = t.take(k);
    let s1 = apply_line(st, line).0;
    lemma_retry_field_is_no_other(line_field(line));
    assert(s1.retry == line_retry(st.retry, line));
    if 0 <= k < t.len() {
        law_retry_is_last_valid(s1, t.skip(k + 1));
    }
}

} // verus!
