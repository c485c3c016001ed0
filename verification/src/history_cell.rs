//! The entries of the chat history as the terminal shows them: their
//! lines, wrapped to the panel's width by display columns, and how many
//! rows they take.  Drawing the lines is the caller's part.
use vstd::prelude::*;
use crate::sse::{is_white_space, is_white_space_char};
use crate::text::{chars_of, push_chars, push_decimal, push_decimal_i64, push_str, string_of, decimal, decimal_int};
use crate::xdiff::{text_lines, text_lines_of};

verus! {

// ---------------------------------------------------------------------
// Display columns
// ---------------------------------------------------------------------

/// What `UnicodeWidthChar::width` of the `unicode-width` crate gives for
/// `c`: its width in columns, or nothing for a control character.
pub uninterp spec fn unicode_width_of(c: char) -> Option<usize>;

/// `unicode_width::UnicodeWidthChar::width`.  Claimed, as the crate's
/// source shows: characters below U+0020 and from U+007F to U+009F have no
/// width; those from U+0020 to U+007E are one column wide; every width
/// comes from a table of bytes.
#[verifier::external_body]
fn char_width(c: char) -> (r: Option<usize>)
    ensures
        r == unicode_width_of(c),
        c < '\u{20}' ==> r is None,
        '\u{20}' <= c < '\u{7F}' ==> r == Some(1usize),
        '\u{7F}' <= c < '\u{A0}' ==> r is None,
        r matches Some(w) ==> w <= 255,
{
    unicode_width::UnicodeWidthChar::width(c)
}

/// The width of a character as the `unicode-width` crate gives it.
pub fn char_width_of(c: char) -> (r: Option<usize>)
    ensures
        r == unicode_width_of(c),
        r matches Some(w) ==> w <= 255,
{
    char_width(c)
}

/// The columns a character takes (none for a control character).
pub open spec fn char_cols(c: char) -> nat {
    match unicode_width_of(c) {
        Some(w) => w as nat,
        None => 0,
    }
}

/// The columns a text takes.
pub open spec fn text_cols(s: Seq<char>) -> nat
    decreases s.len(),
{
    if s.len() == 0 {
        0
    } else {
        text_cols(s.drop_last()) + char_cols(s.last())
    }
}

/// The longest text measured, in characters (far beyond any real one).
pub const MAX_MEASURED: u64 = 0x1_0000_0000_0000;

fn cols_of(c: char) -> (r: u64)
    ensures
        r == char_cols(c),
        r <= 255,
{
    match char_width(c) {
        Some(w) => w as u64,
        None => 0,
    }
}

fn text_cols_of(s: &str) -> (r: u64)
    requires
        s@.len() <= MAX_MEASURED,
    ensures
        r == text_cols(s@),
        r <= 255 * s@.len(),
{
    let v = chars_of(s);
    let mut total: u64 = 0;
    let mut i: usize = 0;
    while i < v.len()
        invariant
            v@ == s@,
            s@.len() <= MAX_MEASURED,
            i <= v@.len(),
            total == text_cols(v@.take(i as int)),
            total <= 255 * i,
        decreases v@.len() - i,
    {
        let w = cols_of(v[i]);
        assert(v@.take(i + 1).drop_last() =~= v@.take(i as int));
        total = total + w;
        i += 1;
    }
    assert(v@.take(v@.len() as int) =~= v@);
    total
}

/// The rows a text of `cols` columns takes at `width` columns (at least
/// one; the count of columns is cut to 16 bits first).
pub open spec fn rows_for(cols: nat, width: u16) -> u16 {
    let c = (cols % 0x10000) as int;
    let w = if width == 0 { 1int } else { width as int };
    let q = (c + w - 1) / w;
    if q == 0 { 1u16 } else { q as u16 }
}

proof fn lemma_ceil_div(c: int, w: int)
    requires
        w >= 1,
        c >= 0,
    ensures
        c % w == 0 ==> c / w == (c + w - 1) / w,
        c % w != 0 ==> c / w + 1 == (c + w - 1) / w,
        (c + w - 1) / w <= c,
{
    vstd::arithmetic::div_mod::lemma_fundamental_div_mod(c, w);
    let q = c / w;
    let m = c % w;
    assert(0 <= m < w);
    assert(q >= 0) by {
        vstd::arithmetic::div_mod::lemma_div_pos_is_pos(c, w);
    }
    assert(w * q >= q) by (nonlinear_arith)
        requires
            w >= 1,
            q >= 0,
    {
    }
    assert(q * w == w * q && (q + 1) * w == w * q + w) by (nonlinear_arith);
    if m == 0 {
        vstd::arithmetic::div_mod::lemma_fundamental_div_mod_converse(c + w - 1, w, q, w - 1);
    } else {
        vstd::arithmetic::div_mod::lemma_fundamental_div_mod_converse(c + w - 1, w, q + 1, m - 1);
    }
}

fn rows_of(cols: u64, width: u16) -> (r: u16)
    ensures
        r == rows_for(cols as nat, width),
{
    let c: u32 = (cols % 0x10000) as u32;
    let w: u32 = if width == 0 { 1 } else { width as u32 };
    let q: u32 = if c % w == 0 { c / w } else { c / w + 1 };
    proof {
        lemma_ceil_div(c as int, w as int);
    }
    if q == 0 { 1 } else { q as u16 }
}

// ---------------------------------------------------------------------
// Wrapping
// ---------------------------------------------------------------------

/// The colours entries are drawn in.
#[derive(Debug, Clone, Copy, PartialEq, Eq, Structural)]
pub enum LineColor {
    Cyan,
    Green,
    Yellow,
    Red,
    Gray,
    DarkGray,
    White,
}

/// One displayed line: its text, and its colour (none for an empty line).
#[derive(Debug)]
pub struct TextLine {
    pub text: String,
    pub color: Option<LineColor>,
}

/// A line as plain values.
pub type LineView = (Seq<char>, Option<LineColor>);

/// The plain values of lines.
pub open spec fn lines_view(v: Seq<TextLine>) -> Seq<LineView> {
    v.map_values(|l: TextLine| (l.text@, l.color))
}

/// From position `i`, with `acc` columns taken so far, the number of
/// characters of `s` that fit in `width` columns.
pub open spec fn fit_scan(s: Seq<char>, i: int, acc: nat, width: nat) -> int
    decreases s.len() - i,
{
    if i < 0 || i >= s.len() {
        s.len() as int
    } else if acc + char_cols(s[i]) > width {
        i
    } else {
        fit_scan(s, i + 1, acc + char_cols(s[i]), width)
    }
}

/// The index of the last space of `t`, or -1.
pub open spec fn last_space(t: Seq<char>) -> int
    decreases t.len(),
{
    if t.len() == 0 {
        -1
    } else if t.last() == ' ' {
        t.len() - 1
    } else {
        last_space(t.drop_last())
    }
}

/// Where a row of `s` ends: after as many characters as fit, or, when
/// more are left, after the last space among them if there is one.
pub open spec fn split_point(s: Seq<char>, width: nat) -> int {
    let k = fit_scan(s, 0, 0, width);
    let p = if k < s.len() {
        let sp = last_space(s.take(k));
        if sp >= 0 { sp + 1 } else { k }
    } else {
        k
    };
    if p <= 0 { 1 } else { p }
}

/// `s` without leading white space.
pub open spec fn trim_start_white(s: Seq<char>) -> Seq<char>
    decreases s.len(),
{
    if s.len() > 0 && is_white_space(s[0]) {
        trim_start_white(s.drop_first())
    } else {
        s
    }
}

/// Trimming never lengthens a text.
pub proof fn lemma_trim_start_len(s: Seq<char>)
    ensures
        trim_start_white(s).len() <= s.len(),
    decreases s.len(),
{
    if s.len() > 0 && is_white_space(s[0]) {
        lemma_trim_start_len(s.drop_first());
    }
}

/// The rows a non-empty line is cut into at `width` columns; each row's
/// remainder starts after its leading white space.
pub open spec fn wrap_segments(s: Seq<char>, width: nat) -> Seq<Seq<char>>
    decreases s.len(),
{
    if s.len() == 0 || width == 0 {
        Seq::empty()
    } else {
        let p = split_point(s, width);
        if p > s.len() {
            seq![s]
        } else {
            proof {
                lemma_trim_start_len(s.skip(p));
            }
            seq![s.take(p)] + wrap_segments(trim_start_white(s.skip(p)), width)
        }
    }
}

/// Whether every row of `s` starts with a character that fits in
/// `width` columns (otherwise the row would be cut inside that character).
pub open spec fn wraps_cleanly(s: Seq<char>, width: nat) -> bool
    decreases s.len(),
{
    if s.len() == 0 || width == 0 {
        true
    } else {
        let p = split_point(s, width);
        if p > s.len() {
            false
        } else {
            proof {
                lemma_trim_start_len(s.skip(p));
            }
            char_cols(s[0]) <= width && wraps_cleanly(trim_start_white(s.skip(p)), width)
        }
    }
}

/// The displayed lines of one line of text.
pub open spec fn wrap_one(line: Seq<char>, width: nat, color: LineColor) -> Seq<LineView> {
    if line.len() == 0 {
        seq![(Seq::<char>::empty(), None::<LineColor>)]
    } else {
        wrap_segments(line, width).map_values(|seg: Seq<char>| (seg, Some(color)))
    }
}

/// The displayed lines of several lines of text.
pub open spec fn wrap_all(lines: Seq<Seq<char>>, width: nat, color: LineColor) -> Seq<LineView>
    decreases lines.len(),
{
    if lines.len() == 0 {
        Seq::empty()
    } else {
        wrap_all(lines.drop_last(), width, color) + wrap_one(lines.last(), width, color)
    }
}

/// The displayed lines of a text at `width` columns: each of its lines
/// wrapped (an empty one kept as an empty line), one empty line for a text
/// without lines, none at width zero.
pub open spec fn wrap_text(text: Seq<char>, width: nat, color: LineColor) -> Seq<LineView> {
    if width == 0 {
        Seq::empty()
    } else {
        let w = wrap_all(text_lines(text), width, color);
        if w.len() == 0 {
            seq![(Seq::<char>::empty(), None::<LineColor>)]
        } else {
            w
        }
    }
}

/// Whether every line of `text` wraps cleanly at `width` columns.
pub open spec fn text_wraps_cleanly(text: Seq<char>, width: nat) -> bool {
    forall|i: int| 0 <= i < text_lines(text).len() ==> wraps_cleanly(#[trigger] text_lines(text)[i], width)
}

proof fn lemma_fit_scan_bounds(s: Seq<char>, i: int, acc: nat, width: nat)
    requires
        0 <= i <= s.len(),
    ensures
        i <= fit_scan(s, i, acc, width) <= s.len(),
    decreases s.len() - i,
{
    if i < s.len() && acc + char_cols(s[i]) <= width {
        lemma_fit_scan_bounds(s, i + 1, acc + char_cols(s[i]), width);
    }
}

proof fn lemma_last_space_bounds(t: Seq<char>)
    ensures
        -1 <= last_space(t) < t.len(),
        last_space(t) >= 0 ==> t[last_space(t)] == ' ',
    decreases t.len(),
{
    if t.len() > 0 && t.last() != ' ' {
        lemma_last_space_bounds(t.drop_last());
    }
}

proof fn lemma_trim_start_skip(s: Seq<char>, n: int)
    requires
        0 <= n <= s.len(),
        forall|j: int| 0 <= j < n ==> is_white_space(s[j]),
        n == s.len() || !is_white_space(s[n]),
    ensures
        trim_start_white(s) == s.skip(n),
    decreases n,
{
    if n == 0 {
        assert(s.skip(0) =~= s);
    } else {
        lemma_trim_start_skip(s.drop_first(), n - 1);
        assert(s.drop_first().skip(n - 1) =~= s.skip(n));
    }
}

/// Cuts the line `v[..]` into rows, appending them to `out`.
fn wrap_line_into(v: &Vec<char>, width: u16, color: LineColor, out: &mut Vec<TextLine>) -> (ok: bool)
    requires
        width > 0,
        v@.len() > 0,
        v@.len() <= MAX_MEASURED,
    ensures
        ok == wraps_cleanly(v@, width as nat),
        ok ==> lines_view(final(out)@) == lines_view(old(out)@) + wrap_segments(v@, width as nat).map_values(
            |seg: Seq<char>| (seg, Some(color)),
        ),
{
    let ghost whole = wrap_segments(v@, width as nat).map_values(|seg: Seq<char>| (seg, Some(color)));
    let ghost base = lines_view(out@);
    let ghost w = width as nat;
    let mut start: usize = 0;
    proof {
        assert(v@.skip(0) =~= v@);
    }
    while start < v.len()
        invariant
            w == width as nat,
            width > 0,
            v@.len() <= MAX_MEASURED,
            start <= v@.len(),
            wraps_cleanly(v@.skip(start as int), w) == wraps_cleanly(v@, w),
            whole == wrap_segments(v@, w).map_values(|seg: Seq<char>| (seg, Some(color))),
            lines_view(out@) + wrap_segments(v@.skip(start as int), w).map_values(
                |seg: Seq<char>| (seg, Some(color)),
            ) == base + whole,
        decreases v@.len() - start,
    {
        let ghost s = v@.skip(start as int);
        // how many characters fit
        let mut cols: u64 = 0;
        let mut k: usize = start;
        while k < v.len()
            invariant
                start <= k <= v@.len(),
                s == v@.skip(start as int),
                cols <= width,
                k == start ==> cols == 0,
                fit_scan(s, (k - start) as int, cols as nat, w) == fit_scan(s, 0, 0, w),
                w == width as nat,
            ensures
                k == start ==> cols == 0,
                start <= k <= v@.len(),
                cols <= width,
                fit_scan(s, (k - start) as int, cols as nat, w) == fit_scan(s, 0, 0, w),
                k < v@.len() ==> cols + char_cols(v@[k as int]) > width,
            decreases v@.len() - k,
        {
            let c = cols_of(v[k]);
            assert(s[(k - start) as int] == v@[k as int]);
            if cols + c > width as u64 {
                break;
            }
            cols = cols + c;
            k += 1;
        }
        proof {
            lemma_fit_scan_bounds(s, 0, 0, w);
            if k < v.len() {
                assert(s[(k - start) as int] == v@[k as int]);
            }
        }
        let ghost kk = (k - start) as int;
        assert(kk == fit_scan(s, 0, 0, w));
        if k == start {
            assert(s[0] == v@[start as int]);
            assert(char_cols(s[0]) > w);
            return false;
        }
        // where the row ends
        let mut p: usize = k;
        if k < v.len() {
            let mut j: usize = k;
            while j > start && v[j - 1] != ' '
                invariant
                    start <= j <= k,
                    k <= v@.len(),
                    s == v@.skip(start as int),
                    kk == k - start,
                    last_space(s.take(kk)) == last_space(s.take((j - start) as int)),
                decreases j,
            {
                assert(s.take((j - start) as int).drop_last() =~= s.take((j - start) as int - 1));
                assert(s.take((j - start) as int).last() == v@[j - 1]);
                j -= 1;
            }
            if j > start {
                assert(s.take((j - start) as int).last() == v@[j - 1]);
                p = j;
            } else {
                assert(s.take(0) =~= Seq::<char>::empty());
            }
        }
        let ghost pp = (p - start) as int;
        proof {
            lemma_last_space_bounds(s.take(kk));
            assert(char_cols(s[0]) <= w) by {
                if char_cols(s[0]) > w {
                    assert(fit_scan(s, 0, 0, w) == 0);
                }
            }
            assert(pp == split_point(s, w));
            assert(1 <= pp <= s.len());
        }
        let mut text = String::new();
        push_chars(&mut text, v.as_slice(), start, p);
        let ghost seg = v@.subrange(start as int, p as int);
        assert(seg =~= s.take(pp));
        let ghost before = lines_view(out@);
        out.push(TextLine { text, color: Some(color) });
        assert(lines_view(out@) =~= before.push((seg, Some(color))));
        // skip the white space that follows
        let mut q: usize = p;
        while q < v.len() && is_white_space_char(v[q])
            invariant
                p <= q <= v@.len(),
                forall|j: int| p <= j < q ==> is_white_space(v@[j]),
            decreases v@.len() - q,
        {
            q += 1;
        }
        proof {
            let rest = s.skip(pp);
            assert(rest =~= v@.skip(p as int));
            lemma_trim_start_skip(rest, (q - p) as int);
            assert(rest.skip((q - p) as int) =~= v@.skip(q as int));
            assert(wrap_segments(s, w) == seq![s.take(pp)] + wrap_segments(trim_start_white(rest), w));
            assert(wrap_segments(s, w).map_values(|seg: Seq<char>| (seg, Some(color))) =~= seq![
                (s.take(pp), Some(color)),
            ] + wrap_segments(trim_start_white(rest), w).map_values(
                |seg: Seq<char>| (seg, Some(color)),
            ));
        }
        start = q;
    }
    proof {
        assert(v@.skip(start as int) =~= Seq::<char>::empty());
    }
    true
}


proof fn lemma_first_newline_bounds(t: Seq<char>)
    ensures
        0 <= crate::search::first_newline(t) <= t.len(),
    decreases t.len(),
{
    if t.len() > 0 && t[0] != '\n' {
        lemma_first_newline_bounds(t.drop_first());
    }
}

proof fn lemma_split_lines_short(s: Seq<char>)
    ensures
        forall|i: int| 0 <= i < crate::file_edit::split_lines(s).len() ==> (#[trigger] crate::file_edit::split_lines(s)[i]).len() <= s.len(),
    decreases s.len(),
{
    let k = crate::search::first_newline(s);
    lemma_first_newline_bounds(s);
    if 0 <= k < s.len() {
        lemma_split_lines_short(s.skip(k + 1));
        let rest = crate::file_edit::split_lines(s.skip(k + 1));
        assert(crate::file_edit::split_lines(s) == seq![s.take(k)] + rest);
        assert forall|i: int| 0 <= i < crate::file_edit::split_lines(s).len() implies (#[trigger] crate::file_edit::split_lines(s)[i]).len() <= s.len() by {
            if i > 0 {
                assert(crate::file_edit::split_lines(s)[i] == rest[i - 1]);
            }
        }
    }
}

/// No line of a text is longer than the text.
proof fn lemma_text_lines_short(s: Seq<char>)
    ensures
        forall|i: int| 0 <= i < text_lines(s).len() ==> (#[trigger] text_lines(s)[i]).len() <= s.len(),
{
    if s.len() > 0 {
        let parts = crate::file_edit::split_lines(s);
        lemma_split_lines_short(s);
        crate::file_edit::lemma_split_nonempty(s);
        assert forall|i: int| 0 <= i < text_lines(s).len() implies (#[trigger] text_lines(s)[i]).len() <= s.len() by {
            if i < parts.len() - 1 {
                assert(parts.take(parts.len() - 1).map_values(|l: Seq<char>| crate::xdiff::strip_cr(l))[i] == crate::xdiff::strip_cr(parts[i]));
            }
        }
    }
}

/// Wraps `text`, or nothing when some row would start with a character
/// wider than the panel.
fn try_wrap(text: &str, width: u16, color: LineColor) -> (r: Option<Vec<TextLine>>)
    requires
        text@.len() <= MAX_MEASURED,
    ensures
        r is Some == (width == 0 || text_wraps_cleanly(text@, width as nat)),
        r matches Some(v) ==> lines_view(v@) == wrap_text(text@, width as nat, color),
{
    if width == 0 {
        let v: Vec<TextLine> = Vec::new();
        assert(lines_view(v@) =~= Seq::<LineView>::empty());
        return Some(v);
    }
    let ghost w = width as nat;
    let lines = text_lines_of(text);
    let ghost ls = lines@.map_values(|x: String| x@);
    proof {
        lemma_text_lines_short(text@);
    }
    let mut out: Vec<TextLine> = Vec::new();
    let mut i: usize = 0;
    assert(ls.take(0) =~= Seq::<Seq<char>>::empty());
    while i < lines.len()
        invariant
            w == width as nat,
            width > 0,
            text@.len() <= MAX_MEASURED,
            ls == lines@.map_values(|x: String| x@),
            ls == text_lines(text@),
            forall|j: int| 0 <= j < ls.len() ==> (#[trigger] ls[j]).len() <= text@.len(),
            i <= ls.len(),
            forall|j: int| 0 <= j < i ==> wraps_cleanly(#[trigger] ls[j], w),
            lines_view(out@) == wrap_all(ls.take(i as int), w, color),
        decreases ls.len() - i,
    {
        let v = chars_of(lines[i].as_str());
        assert(v@ == ls[i as int]);
        assert(ls.take(i + 1).drop_last() =~= ls.take(i as int));
        assert(ls.take(i + 1).last() == ls[i as int]);
        if v.len() == 0 {
            let ghost before = lines_view(out@);
            out.push(TextLine { text: String::new(), color: None });
            assert(lines_view(out@) =~= before + seq![(Seq::<char>::empty(), None::<LineColor>)]);
        } else {
            if !wrap_line_into(&v, width, color, &mut out) {
                assert(!text_wraps_cleanly(text@, w));
                return None;
            }
        }
        i += 1;
    }
    assert(ls.take(ls.len() as int) =~= ls);
    if out.len() == 0 {
        out.push(TextLine { text: String::new(), color: None });
        assert(lines_view(out@) =~= seq![(Seq::<char>::empty(), None::<LineColor>)]);
    }
    Some(out)
}

/// The displayed lines of `text` at `width` columns in `color` (see
/// [`wrap_text`]).  A row that would start with a character wider than the
/// panel is left out by the precondition: it would be cut inside that
/// character.
pub fn wrap_text_to_lines(text: &str, width: u16, color: LineColor) -> (r: Vec<TextLine>)
    requires
        text@.len() <= MAX_MEASURED,
        width == 0 || text_wraps_cleanly(text@, width as nat),
    ensures
        lines_view(r@) == wrap_text(text@, width as nat, color),
{
    match try_wrap(text, width, color) {
        Some(v) => v,
        None => Vec::new(),
    }
}

/// Whether `text` can be wrapped at `width` columns: no row would start
/// with a character wider than the panel.
pub fn wraps_at(text: &str, width: u16) -> (r: bool)
    requires
        text@.len() <= MAX_MEASURED,
    ensures
        r == (width == 0 || text_wraps_cleanly(text@, width as nat)),
{
    try_wrap(text, width, LineColor::White).is_some()
}

/// The displayed lines of `text`, or nothing when it cannot be wrapped
/// at `width` columns.
pub fn wrap_text_checked(text: &str, width: u16, color: LineColor) -> (r: Option<Vec<TextLine>>)
    requires
        text@.len() <= MAX_MEASURED,
    ensures
        r is Some == (width == 0 || text_wraps_cleanly(text@, width as nat)),
        r matches Some(v) ==> lines_view(v@) == wrap_text(text@, width as nat, color),
{
    if wraps_at(text, width) {
        Some(wrap_text_to_lines(text, width, color))
    } else {
        None
    }
}


// ---------------------------------------------------------------------
// The cells
// ---------------------------------------------------------------------

fn concat(a: &str, b: &str) -> (r: String)
    ensures
        r@ == a@ + b@,
{
    let mut s = string_of(a);
    push_str(&mut s, b);
    s
}

/// A message the user sent.
#[derive(Debug)]
pub struct UserMessageCell {
    pub content: String,
}

/// The label before the user's messages.
pub open spec fn user_text(content: Seq<char>) -> Seq<char> {
    "[You] "@ + content
}

impl UserMessageCell {
    /// Its lines: the labelled message, wrapped, in cyan.
    pub fn display_lines(&self, width: u16) -> (r: Vec<TextLine>)
        requires
            self.content@.len() + 6 <= MAX_MEASURED,
            width == 0 || text_wraps_cleanly(user_text(self.content@), width as nat),
        ensures
            lines_view(r@) == wrap_text(user_text(self.content@), width as nat, LineColor::Cyan),
    {
        let full = concat("[You] ", self.content.as_str());
        proof {
            reveal_strlit("[You] ");
        }
        wrap_text_to_lines(full.as_str(), width, LineColor::Cyan)
    }

    /// The rows it takes: its label and message measured in columns.
    pub fn desired_height(&self, width: u16) -> (r: u16)
        requires
            self.content@.len() <= MAX_MEASURED,
        ensures
            r == rows_for(text_cols("[You] "@) + text_cols(self.content@), width),
    {
        proof {
            reveal_strlit("[You] ");
        }
        let a = text_cols_of("[You] ");
        let b = text_cols_of(self.content.as_str());
        rows_of(a + b, width)
    }

    /// A user's message is not streamed.
    pub fn is_stream_continuation(&self) -> (r: bool)
        ensures
            !r,
    {
        false
    }

    /// It is not a tool call.
    pub fn as_tool_call(&self) -> (r: Option<&ToolCallCell>)
        ensures
            r is None,
    {
        None
    }

    /// It is not a tool call.
    pub fn as_tool_call_mut(&mut self) -> (r: Option<&mut ToolCallCell>)
        ensures
            r is None,
            *final(self) == *old(self),
    {
        None
    }
}

/// The cursor shown after an answer still streaming.
pub const STREAM_CURSOR: char = '\u{258C}';

/// An answer of the assistant, possibly still streaming.
#[derive(Debug)]
pub struct AssistantMessageCell {
    pub content: String,
    pub is_streaming: bool,
}

/// The labelled answer, with the cursor while it streams.
pub open spec fn assistant_text(content: Seq<char>, streaming: bool) -> Seq<char> {
    let t = "[Assistant] "@ + content;
    if streaming { t.push(STREAM_CURSOR) } else { t }
}

impl AssistantMessageCell {
    /// An empty answer that is streaming.
    pub fn new_streaming() -> (r: Self)
        ensures
            r.content@.len() == 0,
            r.is_streaming,
    {
        AssistantMessageCell { content: String::new(), is_streaming: true }
    }

    /// Marks the answer complete.
    pub fn finish(&mut self)
        ensures
            final(self).content == old(self).content,
            !final(self).is_streaming,
    {
        self.is_streaming = false;
    }

    /// Its lines: the labelled answer (see [`assistant_text`]), wrapped,
    /// in green.
    pub fn display_lines(&self, width: u16) -> (r: Vec<TextLine>)
        requires
            self.content@.len() + 13 <= MAX_MEASURED,
            width == 0 || text_wraps_cleanly(assistant_text(self.content@, self.is_streaming), width as nat),
        ensures
            lines_view(r@) == wrap_text(assistant_text(self.content@, self.is_streaming), width as nat, LineColor::Green),
    {
        let mut full = concat("[Assistant] ", self.content.as_str());
        if self.is_streaming {
            crate::text::push_char(&mut full, STREAM_CURSOR);
        }
        proof {
            reveal_strlit("[Assistant] ");
        }
        wrap_text_to_lines(full.as_str(), width, LineColor::Green)
    }

    /// The rows it takes: label, answer and cursor measured in columns.
    pub fn desired_height(&self, width: u16) -> (r: u16)
        requires
            self.content@.len() <= MAX_MEASURED,
        ensures
            r == rows_for(text_cols("[Assistant] "@) + text_cols(self.content@) + if self.is_streaming { 1nat } else { 0nat }, width),
    {
        proof {
            reveal_strlit("[Assistant] ");
        }
        let a = text_cols_of("[Assistant] ");
        let b = text_cols_of(self.content.as_str());
        let c: u64 = if self.is_streaming { 1 } else { 0 };
        rows_of(a + b + c, width)
    }

    /// Whether more of the answer may come.
    pub fn is_stream_continuation(&self) -> (r: bool)
        ensures
            r == self.is_streaming,
    {
        self.is_streaming
    }

    /// Adds a streamed piece of the answer.
    pub fn append_delta(&mut self, delta: &str)
        ensures
            final(self).content@ == old(self).content@ + delta@,
            final(self).is_streaming == old(self).is_streaming,
    {
        push_str(&mut self.content, delta);
    }

    /// Marks the answer complete.
    pub fn finish_streaming(&mut self)
        ensures
            final(self).content == old(self).content,
            !final(self).is_streaming,
    {
        self.is_streaming = false;
    }

    /// It is not a tool call.
    pub fn as_tool_call(&self) -> (r: Option<&ToolCallCell>)
        ensures
            r is None,
    {
        None
    }
}

/// How a tool call stands.
#[derive(Debug, Clone, Copy, PartialEq, Eq, Structural)]
pub enum ToolCallStatus {
    Running,
    Success,
    Error,
}

/// A tool call and, once done, its output.
#[derive(Debug)]
pub struct ToolCallCell {
    pub call_id: String,
    pub name: String,
    pub arguments: String,
    pub arguments_summary: String,
    pub status: ToolCallStatus,
    pub output: Option<String>,
    pub expanded: bool,
    pub elapsed_ms: Option<u64>,
}

/// The mark of an expanded or folded call.
pub open spec fn fold_mark(expanded: bool) -> Seq<char> {
    if expanded { seq!['\u{25BC}'] } else { seq!['\u{25B6}'] }
}

/// The icon of a status.
pub open spec fn status_icon(s: ToolCallStatus) -> Seq<char> {
    match s {
        ToolCallStatus::Running => seq!['\u{27F3}'],
        ToolCallStatus::Success => seq!['\u{2713}'],
        ToolCallStatus::Error => seq!['\u{2717}'],
    }
}

/// The colour of a status.
pub open spec fn status_color(s: ToolCallStatus) -> LineColor {
    match s {
        ToolCallStatus::Running => LineColor::Yellow,
        ToolCallStatus::Success => LineColor::Green,
        ToolCallStatus::Error => LineColor::Red,
    }
}

/// The time a finished call took, or `running`.
pub open spec fn elapsed_text(s: ToolCallStatus, elapsed_ms: Option<u64>) -> Seq<char> {
    match elapsed_ms {
        Some(ms) if s != ToolCallStatus::Running => decimal(ms as nat) + "ms"@,
        _ => "running"@,
    }
}

/// The first part of a call's title: fold mark, tool, quoted arguments.
pub open spec fn tool_header(c: ToolCallCell) -> Seq<char> {
    fold_mark(c.expanded) + seq![' '] + c.name@ + " \""@ + c.arguments_summary@ + seq!['"']
}

/// The last part of a call's title: `[icon time]`.
pub open spec fn tool_tag(c: ToolCallCell) -> Seq<char> {
    seq!['['] + status_icon(c.status) + seq![' '] + elapsed_text(c.status, c.elapsed_ms) + seq![']']
}

/// `n` spaces.
pub open spec fn spaces(n: nat) -> Seq<char> {
    Seq::new(n, |i: int| ' ')
}

/// A call's title line: indented by two, with the tag pushed to the right
/// edge when there is room, else after one space.
pub open spec fn tool_title(c: ToolCallCell, width: u16) -> Seq<char> {
    let used = 2 + text_cols(tool_header(c)) + text_cols(tool_tag(c)) + 1;
    "  "@ + tool_header(c) + if used < width {
        spaces((width - used) as nat)
    } else {
        seq![' ']
    } + tool_tag(c)
}

/// Line `i` of a call's output, numbered from one.
pub open spec fn numbered_line(i: int, line: Seq<char>) -> Seq<char> {
    decimal((i + 1) as nat) + " | "@ + line
}

/// The displayed lines of the numbered output lines from the first up to
/// `n`.
pub open spec fn output_rows(lines: Seq<Seq<char>>, n: int, width: nat) -> Seq<LineView>
    decreases n,
{
    if n <= 0 {
        Seq::empty()
    } else {
        output_rows(lines, n - 1, width) + wrap_text(numbered_line(n - 1, lines[n - 1]), width, LineColor::Gray)
    }
}

/// The output lines a call shows: those of its output when expanded.
pub open spec fn shown_output(c: ToolCallCell) -> Seq<Seq<char>> {
    match c.output {
        Some(o) if c.expanded => text_lines(o@),
        _ => Seq::empty(),
    }
}

/// Whether every text of a call's display wraps cleanly.
pub open spec fn tool_wraps_cleanly(c: ToolCallCell, width: u16) -> bool {
    &&& (width == 0 || text_wraps_cleanly(tool_title(c, width), width as nat))
    &&& forall|i: int| 0 <= i < shown_output(c).len() ==> (width == 0 || text_wraps_cleanly(
        numbered_line(i, #[trigger] shown_output(c)[i]),
        width as nat,
    ))
}

/// The longest name, summary or output a call can be shown with.
pub const MAX_TOOL_TEXT: u64 = 0x1_0000_0000;

impl ToolCallCell {
    /// Its title text.
    fn title(&self, width: u16) -> (r: String)
        requires
            self.name@.len() <= MAX_TOOL_TEXT,
            self.arguments_summary@.len() <= MAX_TOOL_TEXT,
        ensures
            r@ == tool_title(*self, width),
    {
        let mut header = String::new();
        crate::text::push_char(&mut header, if self.expanded { '\u{25BC}' } else { '\u{25B6}' });
        crate::text::push_char(&mut header, ' ');
        push_str(&mut header, self.name.as_str());
        push_str(&mut header, " \"");
        push_str(&mut header, self.arguments_summary.as_str());
        crate::text::push_char(&mut header, '"');
        proof {
            reveal_strlit(" \"");
        }
        assert(header@ =~= tool_header(*self));
        let mut tag = String::new();
        crate::text::push_char(&mut tag, '[');
        crate::text::push_char(&mut tag, match self.status {
            ToolCallStatus::Running => '\u{27F3}',
            ToolCallStatus::Success => '\u{2713}',
            ToolCallStatus::Error => '\u{2717}',
        });
        crate::text::push_char(&mut tag, ' ');
        let ghost before_time = tag@;
        match self.elapsed_ms {
            Some(ms) if self.status != ToolCallStatus::Running => {
                push_decimal(&mut tag, ms);
                push_str(&mut tag, "ms");
            },
            _ => {
                push_str(&mut tag, "running");
            },
        }
        crate::text::push_char(&mut tag, ']');
        assert(tag@ =~= tool_tag(*self));
        proof {
            reveal_strlit("ms");
            reveal_strlit("running");
            if let Some(ms) = self.elapsed_ms {
                crate::text::lemma_decimal_short(ms as nat);
            }
            assert(tag@.len() <= 30);
        }
        let hc = text_cols_of(header.as_str());
        let tc = text_cols_of(tag.as_str());
        let used: u64 = 2 + hc + tc + 1;
        let mut title = string_of("  ");
        push_str(&mut title, header.as_str());
        if used < width as u64 {
            let pad = width as u64 - used;
            let ghost at = title@;
            let mut k: u64 = 0;
            while k < pad
                invariant
                    k <= pad,
                    title@ == at + spaces(k as nat),
                decreases pad - k,
            {
                crate::text::push_char(&mut title, ' ');
                assert(at + spaces((k + 1) as nat) =~= (at + spaces(k as nat)).push(' '));
                k += 1;
            }
        } else {
            crate::text::push_char(&mut title, ' ');
        }
        push_str(&mut title, tag.as_str());
        proof {
            reveal_strlit("  ");
        }
        assert(title@ =~= tool_title(*self, width));
        title
    }

    /// Its lines: the title, in the colour of its status; when expanded,
    /// each line of its output numbered, in grey.
    pub fn display_lines(&self, width: u16) -> (r: Vec<TextLine>)
        requires
            self.name@.len() <= MAX_TOOL_TEXT,
            self.arguments_summary@.len() <= MAX_TOOL_TEXT,
            self.output matches Some(o) ==> o@.len() <= MAX_TOOL_TEXT,
            tool_wraps_cleanly(*self, width),
        ensures
            lines_view(r@) == wrap_text(tool_title(*self, width), width as nat, status_color(self.status))
                + output_rows(shown_output(*self), shown_output(*self).len() as int, width as nat),
    {
        let title = self.title(width);
        proof {
            reveal_strlit("  ");
            reveal_strlit(" \"");
            assert(tool_header(*self).len() <= 2 * MAX_TOOL_TEXT + 5);
            assert(tool_tag(*self).len() <= 30) by {
                reveal_strlit("ms");
                reveal_strlit("running");
                if let Some(ms) = self.elapsed_ms {
                    crate::text::lemma_decimal_short(ms as nat);
                }
            }
            let used = 2 + text_cols(tool_header(*self)) + text_cols(tool_tag(*self)) + 1;
            if used < width {
                assert(spaces((width - used) as nat).len() <= 65535);
            }
            assert(title@.len() <= MAX_MEASURED);
        }
        let color = match self.status {
            ToolCallStatus::Running => LineColor::Yellow,
            ToolCallStatus::Success => LineColor::Green,
            ToolCallStatus::Error => LineColor::Red,
        };
        let mut lines = wrap_text_to_lines(title.as_str(), width, color);
        let ghost first = lines_view(lines@);
        let ghost shown = shown_output(*self);
        if self.expanded {
            if let Some(o) = &self.output {
                let ls = text_lines_of(o.as_str());
                proof {
                    lemma_text_lines_short(o@);
                }
                let mut i: usize = 0;
                while i < ls.len()
                    invariant
                        shown == shown_output(*self),
                        shown == ls@.map_values(|x: String| x@),
                        forall|j: int| 0 <= j < shown.len() ==> (#[trigger] shown[j]).len() <= MAX_TOOL_TEXT,
                        forall|j: int| 0 <= j < shown.len() ==> (width == 0 || text_wraps_cleanly(
                            numbered_line(j, #[trigger] shown[j]),
                            width as nat,
                        )),
                        i <= ls@.len(),
                        lines_view(lines@) == first + output_rows(shown, i as int, width as nat),
                    decreases ls@.len() - i,
                {
                    let mut row = String::new();
                    push_decimal(&mut row, (i as u64) + 1);
                    push_str(&mut row, " | ");
                    push_str(&mut row, ls[i].as_str());
                    assert(row@ == numbered_line(i as int, shown[i as int]));
                    proof {
                        reveal_strlit(" | ");
                        crate::text::lemma_decimal_short((i + 1) as nat);
                        assert(row@.len() <= MAX_MEASURED);
                    }
                    let mut more = wrap_text_to_lines(row.as_str(), width, LineColor::Gray);
                    let ghost before = lines_view(lines@);
                    let ghost add = lines_view(more@);
                    lines.append(&mut more);
                    assert(lines_view(lines@) =~= before + add);
                    i += 1;
                }
            }
        }
        lines
    }

    /// The rows it takes: one, and, when expanded, one per output line
    /// (the count cut to 16 bits).
    pub fn desired_height(&self, width: u16) -> (r: u16)
        requires
            !(self.expanded && self.output is Some && shown_output(*self).len() % 0x10000 == 0xFFFF),
        ensures
            r == 1 + (shown_output(*self).len() % 0x10000),
    {
        if self.expanded {
            let n: u16 = match &self.output {
                Some(o) => (text_lines_of(o.as_str()).len() % 0x10000) as u16,
                None => 0,
            };
            1 + n
        } else {
            1
        }
    }

    /// It is a tool call.
    pub fn as_tool_call(&self) -> (r: Option<&ToolCallCell>)
        ensures
            r == Some(self),
    {
        Some(self)
    }

    /// It is a tool call, which may be changed.
    pub fn as_tool_call_mut(&mut self) -> (r: Option<&mut ToolCallCell>)
        ensures
            r is Some,
    {
        Some(self)
    }
}

/// A notice of the application.
#[derive(Debug)]
pub struct SystemMessageCell {
    pub content: String,
}

impl SystemMessageCell {
    /// Its lines: the notice, wrapped, in dark grey.
    pub fn display_lines(&self, width: u16) -> (r: Vec<TextLine>)
        requires
            self.content@.len() <= MAX_MEASURED,
            width == 0 || text_wraps_cleanly(self.content@, width as nat),
        ensures
            lines_view(r@) == wrap_text(self.content@, width as nat, LineColor::DarkGray),
    {
        wrap_text_to_lines(self.content.as_str(), width, LineColor::DarkGray)
    }

    /// The rows it takes.
    pub fn desired_height(&self, width: u16) -> (r: u16)
        requires
            self.content@.len() <= MAX_MEASURED,
        ensures
            r == rows_for(text_cols(self.content@), width),
    {
        rows_of(text_cols_of(self.content.as_str()), width)
    }
}

/// An error reported to the user.
#[derive(Debug)]
pub struct ErrorCell {
    pub code: i32,
    pub message: String,
}

/// The label of an error.
pub open spec fn error_label(code: i32) -> Seq<char> {
    "[Error "@ + decimal_int(code as int) + "] "@
}

impl ErrorCell {
    /// Its lines: label and message, wrapped, in red.
    pub fn display_lines(&self, width: u16) -> (r: Vec<TextLine>)
        requires
            self.message@.len() <= MAX_TOOL_TEXT,
            width == 0 || text_wraps_cleanly(error_label(self.code) + self.message@, width as nat),
        ensures
            lines_view(r@) == wrap_text(error_label(self.code) + self.message@, width as nat, LineColor::Red),
    {
        let mut text = string_of("[Error ");
        push_decimal_i64(&mut text, self.code as i64);
        push_str(&mut text, "] ");
        push_str(&mut text, self.message.as_str());
        proof {
            reveal_strlit("[Error ");
            reveal_strlit("] ");
            crate::text::lemma_decimal_int_short(self.code as int);
            assert(text@ =~= error_label(self.code) + self.message@);
        }
        wrap_text_to_lines(text.as_str(), width, LineColor::Red)
    }

    /// The rows it takes.
    pub fn desired_height(&self, width: u16) -> (r: u16)
        requires
            self.message@.len() <= MAX_MEASURED,
        ensures
            r == rows_for(text_cols(error_label(self.code)) + text_cols(self.message@), width),
    {
        let mut label = string_of("[Error ");
        push_decimal_i64(&mut label, self.code as i64);
        push_str(&mut label, "] ");
        proof {
            reveal_strlit("[Error ");
            reveal_strlit("] ");
            crate::text::lemma_decimal_int_short(self.code as int);
        }
        let a = text_cols_of(label.as_str());
        let b = text_cols_of(self.message.as_str());
        rows_of(a + b, width)
    }
}

/// The first line of an answer shown as Markdown: the `[Assistant] ` label
/// in green.
pub open spec fn assistant_label_line() -> crate::markdown::LineV {
    (
        seq![("[Assistant] "@, crate::markdown::style_of(Some(crate::markdown::MdColor::Green), false, false, false, false))],
        crate::markdown::plain_style(),
    )
}

/// An answer of the assistant shown as Markdown, possibly still streaming.
#[derive(Debug)]
pub struct AgentMarkdownCell {
    pub markdown_source: String,
    pub is_streaming: bool,
}

impl AgentMarkdownCell {
    /// An empty answer that is streaming.
    pub fn new_streaming() -> (r: Self)
        ensures
            r.markdown_source@.len() == 0,
            r.is_streaming,
    {
        AgentMarkdownCell { markdown_source: String::new(), is_streaming: true }
    }

    /// Marks the answer complete.
    pub fn finish(&mut self)
        ensures
            final(self).markdown_source == old(self).markdown_source,
            !final(self).is_streaming,
    {
        self.is_streaming = false;
    }

    /// Whether more of the answer may come.
    pub fn is_stream_continuation(&self) -> (r: bool)
        ensures
            r == self.is_streaming,
    {
        self.is_streaming
    }

    /// Adds a streamed piece of the answer.
    pub fn append_delta(&mut self, delta: &str)
        ensures
            final(self).markdown_source@ == old(self).markdown_source@ + delta@,
            final(self).is_streaming == old(self).is_streaming,
    {
        push_str(&mut self.markdown_source, delta);
    }

    /// Marks the answer complete.
    pub fn finish_streaming(&mut self)
        ensures
            final(self).markdown_source == old(self).markdown_source,
            !final(self).is_streaming,
    {
        self.is_streaming = false;
    }

    /// Its lines at `width` columns: the `[Assistant] ` label in green,
    /// then the source (with the cursor while it streams) rendered as
    /// Markdown in the columns the label leaves.
    pub fn display_lines(&self, width: u16) -> (r: Vec<crate::markdown::MdLine>)
        ensures
            r@.len() >= 2,
            r@[0]@ == assistant_label_line(),
            crate::markdown::markdown_lines(
                (if width as int > text_cols("[Assistant] "@) { width - text_cols("[Assistant] "@) } else { 0 }) as u16,
                crate::markdown::lines_view(r@).skip(1),
            ),
    {
        let label = "[Assistant] ";
        proof {
            reveal_strlit("[Assistant] ");
        }
        let cols = text_cols_of(label);
        let content_width: u16 = if (width as u64) > cols { width - (cols as u16) } else { 0 };
        let source = self.source_text();
        let content = crate::markdown::render_markdown(source.as_str(), content_width);
        let label_span = crate::markdown::MdSpan {
            content: string_of(label),
            style: crate::markdown::MdStyle { fg: Some(crate::markdown::MdColor::Green), bold: false, italic: false, underlined: false, crossed_out: false },
        };
        let ghost lsv = label_span@;
        let head = crate::markdown::MdLine { spans: vec![label_span], style: crate::markdown::MdStyle::plain() };
        assert(head@.0 =~= seq![lsv]);
        let mut r = vec![head];
        let ghost cv = crate::markdown::lines_view(content@);
        let mut content = content;
        r.append(&mut content);
        assert(crate::markdown::lines_view(r@).skip(1) =~= cv);
        r
    }

    /// The rows it takes at `width` columns: the number of its lines, cut
    /// to 16 bits.
    pub fn desired_height(&self, width: u16) -> (r: u16)
        ensures
            exists|lines: Seq<crate::markdown::LineV>|
                lines.len() >= 2 && lines[0] == assistant_label_line() && crate::markdown::markdown_lines(
                    (if width as int > text_cols("[Assistant] "@) { width - text_cols("[Assistant] "@) } else { 0 }) as u16,
                    lines.skip(1),
                ) && r as int == lines.len() % 65536,
    {
        let lines = self.display_lines(width);
        let n = lines.len() % 65536;
        assert(crate::markdown::lines_view(lines@).len() == lines@.len());
        assert(crate::markdown::lines_view(lines@)[0] == lines@[0]@);
        n as u16
    }

    /// The text rendered: the source, with the cursor while it streams.
    pub fn source_text(&self) -> (r: String)
        ensures
            r@ == if self.is_streaming { self.markdown_source@.push(STREAM_CURSOR) } else { self.markdown_source@ },
    {
        let mut s = string_of(self.markdown_source.as_str());
        if self.is_streaming {
            crate::text::push_char(&mut s, STREAM_CURSOR);
        }
        s
    }
}


impl ToolCallCell {
    /// Whether its title and shown output can be wrapped at `width`.
    pub fn wraps_cleanly_at(&self, width: u16) -> (r: bool)
        requires
            self.name@.len() <= MAX_TOOL_TEXT,
            self.arguments_summary@.len() <= MAX_TOOL_TEXT,
            self.output matches Some(o) ==> o@.len() <= MAX_TOOL_TEXT,
        ensures
            r == tool_wraps_cleanly(*self, width),
    {
        if width == 0 {
            return true;
        }
        let title = self.title(width);
        proof {
            reveal_strlit("  ");
            reveal_strlit(" \"");
            reveal_strlit("ms");
            reveal_strlit("running");
            if let Some(ms) = self.elapsed_ms {
                crate::text::lemma_decimal_short(ms as nat);
            }
            let used = 2 + text_cols(tool_header(*self)) + text_cols(tool_tag(*self)) + 1;
            if used < width {
                assert(spaces((width - used) as nat).len() <= 65535);
            }
        }
        if !wraps_at(title.as_str(), width) {
            return false;
        }
        let ghost shown = shown_output(*self);
        if self.expanded {
            if let Some(o) = &self.output {
                let ls = text_lines_of(o.as_str());
                proof {
                    lemma_text_lines_short(o@);
                }
                let mut i: usize = 0;
                while i < ls.len()
                    invariant
                        width > 0,
                        shown == shown_output(*self),
                        shown == ls@.map_values(|x: String| x@),
                        forall|j: int| 0 <= j < shown.len() ==> (#[trigger] shown[j]).len() <= MAX_TOOL_TEXT,
                        i <= ls@.len(),
                        forall|j: int| 0 <= j < i ==> text_wraps_cleanly(numbered_line(j, #[trigger] shown[j]), width as nat),
                    decreases ls@.len() - i,
                {
                    let mut row = String::new();
                    push_decimal(&mut row, (i as u64) + 1);
                    push_str(&mut row, " | ");
                    push_str(&mut row, ls[i].as_str());
                    proof {
                        reveal_strlit(" | ");
                        crate::text::lemma_decimal_short((i + 1) as nat);
                    }
                    assert(row@ == numbered_line(i as int, shown[i as int]));
                    if !wraps_at(row.as_str(), width) {
                        return false;
                    }
                    i += 1;
                }
            }
        }
        true
    }
}


/// The rows a tool call takes (see [`ToolCallCell::desired_height`]).
pub fn tool_call_height(cell: &ToolCallCell, width: u16) -> (r: u16)
    requires
        !(cell.expanded && cell.output is Some && shown_output(*cell).len() % 0x10000 == 0xFFFF),
    ensures
        r == 1 + (shown_output(*cell).len() % 0x10000),
{
    cell.desired_height(width)
}

} // verus!
