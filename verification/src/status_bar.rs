//! The status bar: which segments fit in the terminal's width, in order
//! of priority, and where the coloured status icon lands.  Drawing is the
//! caller's part.
use vstd::prelude::*;
use crate::app_state::{latency_sum, AppState, SessionStatus};
use crate::history_cell::{char_cols, unicode_width_of};
use crate::text::{chars_of, decimal, decimal_int, push_char, push_chars, push_decimal, push_decimal_i64, push_str, string_of};

verus! {

/// What `UnicodeWidthStr::width` of the `unicode-width` crate gives for
/// a text.
pub uninterp spec fn unicode_str_width(s: Seq<char>) -> usize;

/// `unicode_width::UnicodeWidthStr::width`: the columns a text takes.
/// The contract names the result and claims nothing else of it.
#[verifier::external_body]
pub(crate) fn str_width(s: &str) -> (r: usize)
    ensures
        r == unicode_str_width(s@),
{
    unicode_width::UnicodeWidthStr::width(s)
}

/// What the status bar shows.
pub struct StatusBarData<'a> {
    pub session_name: Option<&'a str>,
    pub input_tokens: i32,
    pub output_tokens: i32,
    pub cache_read_tokens: i32,
    pub avg_latency_ms: Option<u64>,
    pub status: &'a SessionStatus,
}

/// The colours of the status icon.
#[derive(Debug, Clone, Copy, PartialEq, Eq, Structural)]
pub enum StatusColor {
    Green,
    Blue,
    Red,
}

/// The line to draw: its text and the columns it takes, and the status
/// icon to draw over it in colour (its column, its text, its colour).
#[derive(Debug)]
pub struct StatusLine {
    pub text: String,
    pub text_width: usize,
    pub icon: Option<(usize, String, StatusColor)>,
}

/// The name shown when the session has none.
pub const DEFAULT_SESSION_NAME: &'static str = "crown-code";
/// Between segments.
pub const SEPARATOR: &'static str = " \u{2502} ";
/// The status icon.
pub const STATUS_ICON: &'static str = "\u{25CF}";

/// The colour of a status.
pub open spec fn status_color_of(s: SessionStatus) -> StatusColor {
    match s {
        SessionStatus::Active => StatusColor::Green,
        SessionStatus::Completed => StatusColor::Blue,
        SessionStatus::Error => StatusColor::Red,
    }
}

/// The token segment.
pub open spec fn tokens_text(i: i32, o: i32, c: i32) -> Seq<char> {
    "In:"@ + decimal_int(i as int) + " Out:"@ + decimal_int(o as int) + " Cache:"@ + decimal_int(c as int)
}

/// The latency segment (empty when there is no latency).
pub open spec fn latency_text(ms: Option<u64>) -> Seq<char> {
    match ms {
        Some(m) => "avg:"@ + decimal(m as nat) + "ms"@,
        None => Seq::empty(),
    }
}

/// The session's name, or the default.
pub open spec fn name_text(n: Option<&str>) -> Seq<char> {
    match n {
        Some(s) => s@,
        None => DEFAULT_SESSION_NAME@,
    }
}

/// The columns of a text.
pub open spec fn cols(s: Seq<char>) -> int {
    unicode_str_width(s) as int
}

/// The segments that fit in `width` columns: the name always; the
/// tokens if they fit after it; the latency if it fits after those; the
/// icon if it fits after those (the latency's own columns counted only
/// when the tokens are shown too).
pub open spec fn segments(d: StatusBarData, width: int) -> Seq<Seq<char>> {
    let name = name_text(d.session_name);
    let tokens = tokens_text(d.input_tokens, d.output_tokens, d.cache_read_tokens);
    let latency = latency_text(d.avg_latency_ms);
    let sep = cols(SEPARATOR@);
    let a = cols(name) + sep;
    let with_tokens = a + cols(tokens) <= width;
    let b = a + if with_tokens { cols(tokens) + sep } else { 0 };
    let with_latency = latency.len() != 0 && b + cols(latency) <= width;
    let count = 1 + (if with_tokens { 1int } else { 0 }) + (if with_latency { 1int } else { 0 });
    let c = b + if count > 2 { cols(latency) + sep } else { 0 };
    let with_icon = c + cols(STATUS_ICON@) <= width;
    seq![name] + (if with_tokens { seq![tokens] } else { Seq::empty() }) + (if with_latency {
        seq![latency]
    } else {
        Seq::empty()
    }) + (if with_icon { seq![STATUS_ICON@] } else { Seq::empty() })
}

/// Whether the sums of columns the bar adds up stay within machine words
/// (the width of a text is only known as the `unicode-width` crate gives
/// it).
pub open spec fn sums_fit(d: StatusBarData, width: int) -> bool {
    let name = name_text(d.session_name);
    let tokens = tokens_text(d.input_tokens, d.output_tokens, d.cache_read_tokens);
    let latency = latency_text(d.avg_latency_ms);
    let sep = cols(SEPARATOR@);
    let a = cols(name) + sep;
    let with_tokens = a + cols(tokens) <= width;
    let b = a + if with_tokens { cols(tokens) + sep } else { 0 };
    let with_latency = latency.len() != 0 && b + cols(latency) <= width;
    let count = 1 + (if with_tokens { 1int } else { 0 }) + (if with_latency { 1int } else { 0 });
    let c = b + if count > 2 { cols(latency) + sep } else { 0 };
    &&& a <= usize::MAX
    &&& a + cols(tokens) <= usize::MAX
    &&& cols(tokens) + sep <= usize::MAX
    &&& b <= usize::MAX
    &&& (latency.len() != 0 ==> b + cols(latency) <= usize::MAX)
    &&& cols(latency) + sep <= usize::MAX
    &&& c <= usize::MAX
    &&& c + cols(STATUS_ICON@) <= usize::MAX
}

/// The segments joined by the separator.
pub open spec fn joined(segs: Seq<Seq<char>>) -> Seq<char>
    decreases segs.len(),
{
    if segs.len() == 0 {
        Seq::empty()
    } else if segs.len() == 1 {
        segs[0]
    } else {
        joined(segs.drop_last()) + SEPARATOR@ + segs.last()
    }
}

/// From position `i`, with `acc` columns taken, how many characters of
/// `s` fit in `max` columns.
pub open spec fn fit_chars(s: Seq<char>, i: int, acc: int, max: int) -> int
    decreases s.len() - i,
{
    if i < 0 || i >= s.len() {
        s.len() as int
    } else if acc + char_cols(s[i]) > max {
        i
    } else {
        fit_chars(s, i + 1, acc + char_cols(s[i]), max)
    }
}

/// `s` cut to `max` columns: whole if it fits, else as many characters as
/// fit.
pub open spec fn truncated(s: Seq<char>, max: int) -> Seq<char> {
    if cols(s) <= max {
        s
    } else {
        s.take(fit_chars(s, 0, 0, max))
    }
}

/// The start of the last occurrence of `pat` in `s`, or -1.
pub open spec fn last_occurrence(s: Seq<char>, pat: Seq<char>, i: int) -> int
    decreases i + 1,
{
    if i < 0 {
        -1
    } else if i + pat.len() <= s.len() && s.subrange(i, i + pat.len()) == pat {
        i
    } else {
        last_occurrence(s, pat, i - 1)
    }
}

/// Whether `l` is the status line for `d` at `width` columns: the
/// segments joined and cut to the width; the icon, when it is the last
/// segment, drawn in the status's colour where its last occurrence starts.
pub open spec fn is_status_line(l: StatusLine, d: StatusBarData, width: int) -> bool {
    let segs = segments(d, width);
    let text = truncated(joined(segs), width);
    let icon = truncated(STATUS_ICON@, width);
    let pos = last_occurrence(text, icon, text.len() as int);
    &&& l.text@ == text
    &&& l.text_width == unicode_str_width(text)
    &&& if segs.last() == STATUS_ICON@ && pos >= 0 {
        l.icon matches Some((col, t, color)) && col == unicode_str_width(text.take(pos)) && t@ == icon
            && color == status_color_of(*d.status)
    } else {
        l.icon is None
    }
}

fn truncate_text(s: &str, max: usize) -> (r: String)
    requires
        max <= u16::MAX,
    ensures
        r@ == truncated(s@, max as int),
{
    if str_width(s) <= max {
        return string_of(s);
    }
    let v = chars_of(s);
    let mut w: usize = 0;
    let mut k: usize = 0;
    while k < v.len()
        invariant
            v@ == s@,
            k <= v@.len(),
            w <= max,
            max <= u16::MAX,
            fit_chars(s@, k as int, w as int, max as int) == fit_chars(s@, 0, 0, max as int),
        ensures
            k <= v@.len(),
            fit_chars(s@, k as int, w as int, max as int) == fit_chars(s@, 0, 0, max as int),
            k < v@.len() ==> w + char_cols(v@[k as int]) > max,
        decreases v@.len() - k,
    {
        let cw: usize = match crate::history_cell::char_width_of(v[k]) {
            Some(x) => x,
            None => 0,
        };
        if w + cw > max {
            break;
        }
        w = w + cw;
        k += 1;
    }
    let mut r = String::new();
    push_chars(&mut r, &v, 0, k);
    assert(v@.subrange(0, k as int) =~= s@.take(k as int));
    r
}

fn find_last(s: &Vec<char>, pat: &Vec<char>) -> (r: Option<usize>)
    ensures
        match r {
            Some(i) => i as int == last_occurrence(s@, pat@, s@.len() as int) && i <= s@.len(),
            None => last_occurrence(s@, pat@, s@.len() as int) < 0,
        },
{
    let n: usize = s.len();
    let mut i: usize = n;
    loop
        invariant
            n == s@.len(),
            i <= s@.len(),
            last_occurrence(s@, pat@, s@.len() as int) == last_occurrence(s@, pat@, i as int),
        decreases i,
    {
        if pat.len() <= s.len() - i {
            let mut j: usize = 0;
            while j < pat.len()
                invariant
                    n == s@.len(),
                    i + pat@.len() <= s@.len(),
                    j <= pat@.len(),
                    forall|t: int| 0 <= t < j ==> s@[i + t] == pat@[t],
                ensures
                    j <= pat@.len(),
                    forall|t: int| 0 <= t < j ==> s@[i + t] == pat@[t],
                    j < pat@.len() ==> s@[i + j] != pat@[j as int],
                decreases pat@.len() - j,
            {
                if s[i + j] != pat[j] {
                    break;
                }
                j += 1;
            }
            if j == pat.len() {
                assert(s@.subrange(i as int, i + pat@.len()) =~= pat@);
                return Some(i);
            }
            assert(s@.subrange(i as int, i + pat@.len())[j as int] != pat@[j as int]);
        }
        if i == 0 {
            assert(last_occurrence(s@, pat@, -1) == -1);
            return None;
        }
        i -= 1;
    }
}

fn tokens_of(i: i32, o: i32, c: i32) -> (r: String)
    ensures
        r@ == tokens_text(i, o, c),
{
    let mut s = string_of("In:");
    push_decimal_i64(&mut s, i as i64);
    push_str(&mut s, " Out:");
    push_decimal_i64(&mut s, o as i64);
    push_str(&mut s, " Cache:");
    push_decimal_i64(&mut s, c as i64);
    s
}

fn latency_of(ms: Option<u64>) -> (r: String)
    ensures
        r@ == latency_text(ms),
{
    match ms {
        Some(m) => {
            let mut s = string_of("avg:");
            push_decimal(&mut s, m);
            push_str(&mut s, "ms");
            s
        },
        None => String::new(),
    }
}

/// The status line for `data` at `width` columns (see
/// [`is_status_line`]); nothing when the bar has no room.
pub fn status_line(data: &StatusBarData, width: u16) -> (r: StatusLine)
    requires
        sums_fit(*data, width as int),
    ensures
        is_status_line(r, *data, width as int),
{
    let w = width as usize;
    let name: String = match data.session_name {
        Some(n) => string_of(n),
        None => string_of(DEFAULT_SESSION_NAME),
    };
    let color = match data.status {
        SessionStatus::Active => StatusColor::Green,
        SessionStatus::Completed => StatusColor::Blue,
        SessionStatus::Error => StatusColor::Red,
    };
    let tokens = tokens_of(data.input_tokens, data.output_tokens, data.cache_read_tokens);
    let latency = latency_of(data.avg_latency_ms);
    let sep_w = str_width(SEPARATOR);
    let tokens_w = str_width(tokens.as_str());
    let used_after_name = str_width(name.as_str()) + sep_w;
    let with_tokens = used_after_name + tokens_w <= w;
    let lat_w = str_width(latency.as_str());
    let used_after_tokens = used_after_name + if with_tokens { tokens_w + sep_w } else { 0 };
    let with_latency = !latency.as_str().is_empty() && used_after_tokens + lat_w <= w;
    let count: usize = 1 + (if with_tokens { 1 } else { 0 }) + (if with_latency { 1 } else { 0 });
    let used_after_latency = used_after_tokens + if count > 2 { lat_w + sep_w } else { 0 };
    let icon_w = str_width(STATUS_ICON);
    let with_icon = used_after_latency + icon_w <= w;
    let ghost segs = segments(*data, width as int);
    let mut display = string_of(name.as_str());
    let ghost mut parts: Seq<Seq<char>> = seq![name@];
    assert(display@ =~= joined(parts));
    if with_tokens {
        push_str(&mut display, SEPARATOR);
        push_str(&mut display, tokens.as_str());
        proof {
            assert(parts.push(tokens@).drop_last() =~= parts);
            parts = parts.push(tokens@);
        }
        assert(display@ =~= joined(parts));
    }
    if with_latency {
        push_str(&mut display, SEPARATOR);
        push_str(&mut display, latency.as_str());
        proof {
            assert(parts.push(latency@).drop_last() =~= parts);
            parts = parts.push(latency@);
        }
        assert(display@ =~= joined(parts));
    }
    if with_icon {
        push_str(&mut display, SEPARATOR);
        push_str(&mut display, STATUS_ICON);
        proof {
            assert(parts.push(STATUS_ICON@).drop_last() =~= parts);
            parts = parts.push(STATUS_ICON@);
        }
        assert(display@ =~= joined(parts));
    }
    assert(parts =~= segs);
    assert(display@ == joined(segs));
    let text = truncate_text(display.as_str(), w);
    let text_width = str_width(text.as_str());
    let last_is_icon = if with_icon {
        true
    } else if with_latency {
        string_of(latency.as_str()) == string_of(STATUS_ICON)
    } else if with_tokens {
        string_of(tokens.as_str()) == string_of(STATUS_ICON)
    } else {
        string_of(name.as_str()) == string_of(STATUS_ICON)
    };
    assert(last_is_icon == (segs.last() == STATUS_ICON@));
    let mut icon = None;
    if last_is_icon {
        let icon_text = truncate_text(STATUS_ICON, w);
        let tv = chars_of(text.as_str());
        let iv = chars_of(icon_text.as_str());
        if let Some(pos) = find_last(&tv, &iv) {
            let mut before = String::new();
            push_chars(&mut before, &tv, 0, pos);
            assert(tv@.subrange(0, pos as int) =~= text@.take(pos as int));
            icon = Some((str_width(before.as_str()), icon_text, color));
        }
    }
    StatusLine { text, text_width, icon }
}


/// The status line for `data` at `width` columns, or nothing when the
/// widths the `unicode-width` crate gives add up beyond a machine word.
pub fn status_line_checked(data: &StatusBarData, width: u16) -> (r: Option<StatusLine>)
    ensures
        r is Some == sums_fit(*data, width as int),
        r matches Some(l) ==> is_status_line(l, *data, width as int),
{
    let w = width as u128;
    let name: String = match data.session_name {
        Some(n) => string_of(n),
        None => string_of(DEFAULT_SESSION_NAME),
    };
    let tokens = tokens_of(data.input_tokens, data.output_tokens, data.cache_read_tokens);
    let latency = latency_of(data.avg_latency_ms);
    let max = usize::MAX as u128;
    let sep = str_width(SEPARATOR) as u128;
    let tw = str_width(tokens.as_str()) as u128;
    let lw = str_width(latency.as_str()) as u128;
    let iw = str_width(STATUS_ICON) as u128;
    let a = str_width(name.as_str()) as u128 + sep;
    let with_tokens = a + tw <= w;
    let b = a + if with_tokens { tw + sep } else { 0 };
    let with_latency = !latency.as_str().is_empty() && b + lw <= w;
    let count: u128 = 1 + (if with_tokens { 1 } else { 0 }) + (if with_latency { 1 } else { 0 });
    let c = b + if count > 2 { lw + sep } else { 0 };
    let fits = a <= max && a + tw <= max && tw + sep <= max && b <= max && (latency.as_str().is_empty() || b + lw <= max)
        && lw + sep <= max && c <= max && c + iw <= max;
    if fits {
        Some(status_line(data, width))
    } else {
        None
    }
}


/// What the status bar of a client shows: its session's name, its token
/// counts, its average latency and its status.
pub fn status_bar_data_from_app(app: &AppState) -> (r: StatusBarData<'_>)
    requires
        latency_sum(app.api_latencies@) <= u64::MAX,
    ensures
        r.session_name is Some <==> app.session_name is Some,
        r.session_name is Some ==> r.session_name.unwrap()@ == app.session_name.unwrap()@,
        r.input_tokens == app.input_tokens,
        r.output_tokens == app.output_tokens,
        r.cache_read_tokens == app.cache_read_tokens,
        app.api_latencies@.len() == 0 ==> r.avg_latency_ms is None,
        app.api_latencies@.len() != 0 ==> r.avg_latency_ms == Some(
            (latency_sum(app.api_latencies@) / app.api_latencies@.len()) as u64,
        ),
        *r.status == app.status,
{
    StatusBarData {
        session_name: match &app.session_name {
            Some(n) => Some(n.as_str()),
            None => None,
        },
        input_tokens: app.input_tokens,
        output_tokens: app.output_tokens,
        cache_read_tokens: app.cache_read_tokens,
        avg_latency_ms: app.avg_latency(),
        status: &app.status,
    }
}

} // verus!
