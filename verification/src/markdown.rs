//! Markdown as styled terminal lines: headings, paragraphs, lists with
//! their markers, block quotes, code blocks, links and inline styles,
//! wrapped to a width with the list and quote prefixes kept on every line.
//! The Markdown parser and the code highlighter are outside crates; what
//! they give back is turned into lines here.
use vstd::prelude::*;
use crate::status_bar::{str_width, unicode_str_width};
use crate::text::{chars_of, decimal, push_decimal, push_str, string_from_chars, string_of};
use crate::xdiff::{text_lines, text_lines_of};
use crate::highlight::{code_block_lines, highlight_code_to_lines, is_bundled_table, too_large};
use pulldown_cmark::{CodeBlockKind, Event, Tag, TagEnd};

verus! {

// ---------------------------------------------------------------------
// Styles, spans and lines
// ---------------------------------------------------------------------

/// A terminal colour.
#[derive(Debug, Clone, Copy, PartialEq, Eq, Structural)]
pub enum MdColor {
    Black,
    Red,
    Green,
    Yellow,
    Blue,
    Magenta,
    Cyan,
    Gray,
    LightBlue,
    Indexed(u8),
    Rgb(u8, u8, u8),
}

/// A text style: a foreground colour and the modifiers added to the text.
#[derive(Debug, Clone, Copy, PartialEq, Eq, Structural)]
pub struct MdStyle {
    pub fg: Option<MdColor>,
    pub bold: bool,
    pub italic: bool,
    pub underlined: bool,
    pub crossed_out: bool,
}

/// The style with no colour and no modifier.
pub open spec fn plain_style() -> MdStyle {
    MdStyle { fg: None, bold: false, italic: false, underlined: false, crossed_out: false }
}

/// `b` laid over `a`: `b`'s colour where it has one, and the modifiers of both.
pub open spec fn patch(a: MdStyle, b: MdStyle) -> MdStyle {
    MdStyle {
        fg: if b.fg is Some { b.fg } else { a.fg },
        bold: a.bold || b.bold,
        italic: a.italic || b.italic,
        underlined: a.underlined || b.underlined,
        crossed_out: a.crossed_out || b.crossed_out,
    }
}

/// A style with the given colour and modifiers.
pub open spec fn style_of(fg: Option<MdColor>, bold: bool, italic: bool, underlined: bool, crossed_out: bool) -> MdStyle {
    MdStyle { fg, bold, italic, underlined, crossed_out }
}

/// The style of a heading of the given level: level 1 bold and
/// underlined, level 2 bold, level 3 bold and italic, deeper ones italic.
pub open spec fn heading_style(level: u8) -> MdStyle {
    if level == 1 {
        style_of(None, true, false, true, false)
    } else if level == 2 {
        style_of(None, true, false, false, false)
    } else if level == 3 {
        style_of(None, true, true, false, false)
    } else {
        style_of(None, false, true, false, false)
    }
}

pub open spec fn code_style() -> MdStyle {
    style_of(Some(MdColor::Cyan), false, false, false, false)
}

pub open spec fn emphasis_style() -> MdStyle {
    style_of(None, false, true, false, false)
}

pub open spec fn strong_style() -> MdStyle {
    style_of(None, true, false, false, false)
}

pub open spec fn strikethrough_style() -> MdStyle {
    style_of(None, false, false, false, true)
}

pub open spec fn ordered_marker_style() -> MdStyle {
    style_of(Some(MdColor::LightBlue), false, false, false, false)
}

pub open spec fn link_style() -> MdStyle {
    style_of(Some(MdColor::Cyan), false, false, true, false)
}

pub open spec fn quote_style() -> MdStyle {
    style_of(Some(MdColor::Green), false, false, false, false)
}

fn make_style(fg: Option<MdColor>, bold: bool, italic: bool, underlined: bool, crossed_out: bool) -> (r: MdStyle)
    ensures
        r == style_of(fg, bold, italic, underlined, crossed_out),
{
    MdStyle { fg, bold, italic, underlined, crossed_out }
}

impl MdStyle {
    /// The style with no colour and no modifier.
    pub fn plain() -> (r: MdStyle)
        ensures
            r == plain_style(),
    {
        make_style(None, false, false, false, false)
    }

    /// `other` laid over `self` (see [`patch`]).
    pub fn patched(self, other: MdStyle) -> (r: MdStyle)
        ensures
            r == patch(self, other),
    {
        MdStyle {
            fg: if other.fg.is_some() { other.fg } else { self.fg },
            bold: self.bold || other.bold,
            italic: self.italic || other.italic,
            underlined: self.underlined || other.underlined,
            crossed_out: self.crossed_out || other.crossed_out,
        }
    }
}

/// A run of text in one style.
#[derive(Debug)]
pub struct MdSpan {
    pub content: String,
    pub style: MdStyle,
}

/// A span as plain values: its text and its style.
pub type SpanV = (Seq<char>, MdStyle);

/// A line as plain values: its spans and its style.
pub type LineV = (Seq<SpanV>, MdStyle);

impl View for MdSpan {
    type V = SpanV;

    open spec fn view(&self) -> SpanV {
        (self.content@, self.style)
    }
}

/// A displayed line: its spans and the style laid under them.
#[derive(Debug)]
pub struct MdLine {
    pub spans: Vec<MdSpan>,
    pub style: MdStyle,
}

pub open spec fn spans_view(v: Seq<MdSpan>) -> Seq<SpanV> {
    v.map_values(|s: MdSpan| s@)
}

impl View for MdLine {
    type V = LineV;

    open spec fn view(&self) -> LineV {
        (spans_view(self.spans@), self.style)
    }
}

pub open spec fn rows_view(v: Seq<Vec<MdSpan>>) -> Seq<Seq<SpanV>> {
    v.map_values(|l: Vec<MdSpan>| spans_view(l@))
}

pub open spec fn lines_view(v: Seq<MdLine>) -> Seq<LineV> {
    v.map_values(|l: MdLine| l@)
}

fn span_of(text: &str, style: MdStyle) -> (r: MdSpan)
    ensures
        r@ == (text@, style),
{
    MdSpan { content: string_of(text), style }
}

fn copy_span(s: &MdSpan) -> (r: MdSpan)
    ensures
        r@ == s@,
{
    MdSpan { content: string_of(s.content.as_str()), style: s.style }
}

/// Appends copies of `src`'s spans to `dst`.
fn append_spans(dst: &mut Vec<MdSpan>, src: &Vec<MdSpan>)
    ensures
        spans_view(final(dst)@) == spans_view(old(dst)@) + spans_view(src@),
{
    let ghost start = spans_view(dst@);
    let mut i: usize = 0;
    while i < src.len()
        invariant
            i <= src@.len(),
            spans_view(dst@) == start + spans_view(src@.take(i as int)),
        decreases src@.len() - i,
    {
        let ghost before = dst@;
        dst.push(copy_span(&src[i]));
        assert(spans_view(dst@) =~= spans_view(before).push(src@[i as int]@));
        i += 1;
        assert(spans_view(src@.take(i as int)) =~= spans_view(src@.take(i - 1)).push(src@[i - 1]@));
    }
    assert(src@.take(src@.len() as int) =~= src@);
}

fn copy_spans(src: &Vec<MdSpan>) -> (r: Vec<MdSpan>)
    ensures
        spans_view(r@) == spans_view(src@),
{
    let mut r: Vec<MdSpan> = Vec::new();
    append_spans(&mut r, src);
    assert(spans_view(Seq::<MdSpan>::empty()) + spans_view(src@) =~= spans_view(src@));
    r
}

// ---------------------------------------------------------------------
// Wrapping one line of spans
// ---------------------------------------------------------------------

/// The text of a line's spans, one after the other.
pub open spec fn flat_text(spans: Seq<SpanV>) -> Seq<char>
    decreases spans.len(),
{
    if spans.len() == 0 {
        Seq::empty()
    } else {
        flat_text(spans.drop_last()) + spans.last().0
    }
}

/// The part of a span that starts at column `s` of the line and falls in
/// `[start, end)`, if any.
pub open spec fn slice_piece(sp: SpanV, s: int, start: int, end: int) -> Seq<SpanV> {
    let e = s + sp.0.len();
    let a = if start > s { start } else { s };
    let b = if end < e { end } else { e };
    if a < b {
        seq![(sp.0.subrange(a - s, b - s), sp.1)]
    } else {
        Seq::empty()
    }
}

/// The characters `[start, end)` of a line, each keeping its span's style.
pub open spec fn slice_spans(spans: Seq<SpanV>, start: int, end: int) -> Seq<SpanV>
    decreases spans.len(),
{
    if spans.len() == 0 {
        Seq::empty()
    } else {
        slice_spans(spans.drop_last(), start, end) + slice_piece(
            spans.last(),
            flat_text(spans.drop_last()).len() as int,
            start,
            end,
        )
    }
}

/// The columns a list of spans takes.
pub open spec fn spans_cols(spans: Seq<SpanV>) -> int
    decreases spans.len(),
{
    if spans.len() == 0 {
        0
    } else {
        spans_cols(spans.drop_last()) + unicode_str_width(spans.last().0) as int
    }
}

/// What `textwrap::wrap` of the `textwrap` crate gives for a text and a
/// width: the text broken into lines.
pub uninterp spec fn textwrap_lines(text: Seq<char>, width: usize) -> Seq<Seq<char>>;

/// `textwrap::wrap(text, width)`: the text broken into lines that fit the
/// width.  The contract names the lines and claims nothing else of them.
#[verifier::external_body]
fn wrap_words(text: &str, width: usize) -> (r: Vec<String>)
    ensures
        r@.map_values(|l: String| l@) == textwrap_lines(text@, width),
{
    textwrap::wrap(text, width).into_iter().map(|l| l.into_owned()).collect()
}

/// The room left for text on a line of `width` columns after a prefix of
/// `cols` columns; at least one column.
pub open spec fn room(width: nat, cols: int) -> usize {
    if width - cols >= 1 {
        (width - cols) as usize
    } else {
        1usize
    }
}

/// The next position after a wrapped piece that ends at `end`: one
/// further when a space follows.
pub open spec fn skip_space(text: Seq<char>, end: int) -> int {
    if end < text.len() && text[end] == ' ' {
        end + 1
    } else {
        end
    }
}

/// The continuation lines of a wrapped line: the first `k` pieces of
/// `wrapped` (the rest of the text from position `offset`, broken again),
/// each placed under `subsequent`, with the position reached in `rest`.
pub open spec fn continuation_scan(
    spans: Seq<SpanV>,
    subsequent: Seq<SpanV>,
    wrapped: Seq<Seq<char>>,
    offset: int,
    rest: Seq<char>,
    k: nat,
) -> (Seq<Seq<SpanV>>, int)
    decreases k,
{
    if k == 0 {
        (Seq::empty(), 0)
    } else {
        let (ls, so) = continuation_scan(spans, subsequent, wrapped, offset, rest, (k - 1) as nat);
        let w = wrapped[k - 1];
        if w.len() == 0 {
            (ls, so)
        } else {
            let end = so + w.len();
            (ls.push(subsequent + slice_spans(spans, offset + so, offset + end)), skip_space(rest, end))
        }
    }
}

/// A line of spans broken to `width` columns: the first piece after the
/// `initial` prefix, the others after the `subsequent` one.  At width zero,
/// or with no text, the line stays as it is.
pub open spec fn wrap_spans(spans: Seq<SpanV>, width: nat, initial: Seq<SpanV>, subsequent: Seq<SpanV>) -> Seq<Seq<SpanV>> {
    let flat = flat_text(spans);
    if width == 0 || flat.len() == 0 {
        seq![spans]
    } else {
        let first_lines = textwrap_lines(flat, room(width, spans_cols(initial)));
        if first_lines.len() == 0 {
            Seq::empty()
        } else {
            let first_end = first_lines[0].len() as int;
            let first = initial + slice_spans(spans, 0, first_end);
            let offset = skip_space(flat, first_end);
            if offset < flat.len() {
                let rest = flat.subrange(offset, flat.len() as int);
                let sub = textwrap_lines(rest, room(width, spans_cols(subsequent)));
                seq![first] + continuation_scan(spans, subsequent, sub, offset, rest, sub.len()).0
            } else {
                seq![first]
            }
        }
    }
}

proof fn lemma_flat_text_take(spans: Seq<SpanV>, k: int)
    requires
        0 <= k <= spans.len(),
    ensures
        flat_text(spans.take(k)).len() <= flat_text(spans).len(),
    decreases spans.len(),
{
    if k < spans.len() {
        assert(spans.drop_last().take(k) =~= spans.take(k));
        lemma_flat_text_take(spans.drop_last(), k);
    } else {
        assert(spans.take(k) =~= spans);
    }
}

proof fn lemma_slice_past_end(spans: Seq<SpanV>, start: int, end: int)
    requires
        start >= flat_text(spans).len(),
    ensures
        slice_spans(spans, start, end) =~= Seq::<SpanV>::empty(),
    decreases spans.len(),
{
    if spans.len() > 0 {
        lemma_slice_past_end(spans.drop_last(), start, end);
    }
}

proof fn lemma_slice_end_clamp(spans: Seq<SpanV>, start: int, end: int)
    requires
        end >= flat_text(spans).len(),
    ensures
        slice_spans(spans, start, end) == slice_spans(spans, start, flat_text(spans).len() as int),
    decreases spans.len(),
{
    if spans.len() > 0 {
        let n = flat_text(spans).len() as int;
        lemma_slice_end_clamp(spans.drop_last(), start, end);
        lemma_slice_end_clamp(spans.drop_last(), start, n);
    }
}

/// The text of a line's spans as characters.
fn flatten(spans: &Vec<MdSpan>) -> (r: Vec<char>)
    ensures
        r@ == flat_text(spans_view(spans@)),
{
    let mut out: Vec<char> = Vec::new();
    let mut i: usize = 0;
    while i < spans.len()
        invariant
            i <= spans@.len(),
            out@ == flat_text(spans_view(spans@.take(i as int))),
        decreases spans@.len() - i,
    {
        let cs = chars_of(spans[i].content.as_str());
        let mut j: usize = 0;
        let ghost before = out@;
        while j < cs.len()
            invariant
                j <= cs@.len(),
                out@ == before + cs@.take(j as int),
            decreases cs@.len() - j,
        {
            out.push(cs[j]);
            j += 1;
            assert(cs@.take(j as int) =~= cs@.take(j - 1).push(cs@[j - 1]));
        }
        i += 1;
        assert(spans_view(spans@.take(i as int)).drop_last() =~= spans_view(spans@.take(i - 1)));
        assert(cs@.take(cs@.len() as int) =~= cs@);
    }
    assert(spans@.take(spans@.len() as int) =~= spans@);
    out
}

/// The columns a list of spans takes, saturated at `usize::MAX`.
fn spans_width(spans: &Vec<MdSpan>) -> (r: usize)
    ensures
        r as int == if spans_cols(spans_view(spans@)) > usize::MAX { usize::MAX as int } else { spans_cols(spans_view(spans@)) },
{
    let mut total: usize = 0;
    let mut i: usize = 0;
    proof {
        lemma_spans_cols_nonneg(spans_view(spans@));
    }
    while i < spans.len()
        invariant
            i <= spans@.len(),
            total as int == if spans_cols(spans_view(spans@.take(i as int))) > usize::MAX { usize::MAX as int } else {
                spans_cols(spans_view(spans@.take(i as int)))
            },
        decreases spans@.len() - i,
    {
        let w = str_width(spans[i].content.as_str());
        proof {
            lemma_spans_cols_nonneg(spans_view(spans@.take(i as int)));
        }
        total = total.saturating_add(w);
        i += 1;
        assert(spans_view(spans@.take(i as int)).drop_last() =~= spans_view(spans@.take(i - 1)));
    }
    assert(spans@.take(spans@.len() as int) =~= spans@);
    total
}

proof fn lemma_spans_cols_nonneg(spans: Seq<SpanV>)
    ensures
        spans_cols(spans) >= 0,
    decreases spans.len(),
{
    if spans.len() > 0 {
        lemma_spans_cols_nonneg(spans.drop_last());
    }
}

/// The characters `[start, end)` of a line, each in its span's style.
fn slice_line(spans: &Vec<MdSpan>, start: usize, end: usize) -> (r: Vec<MdSpan>)
    requires
        flat_text(spans_view(spans@)).len() <= usize::MAX,
    ensures
        spans_view(r@) == slice_spans(spans_view(spans@), start as int, end as int),
{
    let ghost sv = spans_view(spans@);
    let mut out: Vec<MdSpan> = Vec::new();
    let mut pos: usize = 0;
    let mut i: usize = 0;
    while i < spans.len()
        invariant
            i <= spans@.len(),
            sv == spans_view(spans@),
            flat_text(sv).len() <= usize::MAX,
            pos as int == flat_text(sv.take(i as int)).len(),
            spans_view(out@) == slice_spans(sv.take(i as int), start as int, end as int),
        decreases spans@.len() - i,
    {
        let cs = chars_of(spans[i].content.as_str());
        proof {
            assert(sv.take(i + 1).drop_last() =~= sv.take(i as int));
            lemma_flat_text_take(sv, i + 1);
        }
        let e: usize = pos + cs.len();
        let a: usize = if start > pos { start } else { pos };
        let b: usize = if end < e { end } else { e };
        let ghost piece = slice_piece(sv[i as int], pos as int, start as int, end as int);
        if a < b {
            let sub = string_from_chars(&cs, a - pos, b - pos);
            out.push(MdSpan { content: sub, style: spans[i].style });
            assert(spans_view(out@) =~= spans_view(out@.drop_last()) + piece);
        } else {
            assert(piece =~= Seq::<SpanV>::empty());
            assert(spans_view(out@) =~= spans_view(out@) + piece);
        }
        pos = e;
        i += 1;
    }
    assert(sv.take(spans@.len() as int) =~= sv);
    out
}

/// Prefix spans followed by a slice of a line.
fn prefixed_slice(prefix: &Vec<MdSpan>, spans: &Vec<MdSpan>, start: usize, end: usize) -> (r: Vec<MdSpan>)
    requires
        flat_text(spans_view(spans@)).len() <= usize::MAX,
    ensures
        spans_view(r@) == spans_view(prefix@) + slice_spans(spans_view(spans@), start as int, end as int),
{
    let mut out = copy_spans(prefix);
    let sliced = slice_line(spans, start, end);
    append_spans(&mut out, &sliced);
    out
}

/// A line of spans broken to `width` columns (see [`wrap_spans`]).
fn wrap_line(spans: &Vec<MdSpan>, width: usize, initial: &Vec<MdSpan>, subsequent: &Vec<MdSpan>) -> (r: Vec<Vec<MdSpan>>)
    ensures
        rows_view(r@) == wrap_spans(
            spans_view(spans@),
            width as nat,
            spans_view(initial@),
            spans_view(subsequent@),
        ),
{
    let ghost sv = spans_view(spans@);
    let flat = flatten(spans);
    if width == 0 || flat.len() == 0 {
        let r = vec![copy_spans(spans)];
        assert(rows_view(r@) =~= seq![sv]);
        return r;
    }
    let iw = spans_width(initial);
    let sw = spans_width(subsequent);
    let initial_room: usize = if width > iw && width - iw >= 1 { width - iw } else { 1 };
    let subsequent_room: usize = if width > sw && width - sw >= 1 { width - sw } else { 1 };
    assert(initial_room == room(width as nat, spans_cols(spans_view(initial@))));
    assert(subsequent_room == room(width as nat, spans_cols(spans_view(subsequent@))));
    let flat_string = string_from_chars(&flat, 0, flat.len());
    assert(flat@.subrange(0, flat@.len() as int) =~= flat@);
    let first_lines = wrap_words(flat_string.as_str(), initial_room);
    let ghost fl = first_lines@.map_values(|l: String| l@);
    if first_lines.len() == 0 {
        let r: Vec<Vec<MdSpan>> = Vec::new();
        assert(rows_view(r@) =~= Seq::<Seq<SpanV>>::empty());
        return r;
    }
    let first_end: usize = first_lines[0].as_str().unicode_len();
    assert(first_end as int == fl[0].len());
    let mut out: Vec<Vec<MdSpan>> = Vec::new();
    out.push(prefixed_slice(initial, spans, 0, first_end));
    let mut offset: usize = first_end;
    if offset < flat.len() && flat[offset] == ' ' {
        offset = offset + 1;
    }
    assert(offset as int == skip_space(flat@, first_end as int));
    if offset < flat.len() {
        let rest = string_from_chars(&flat, offset, flat.len());
        let rl: usize = flat.len() - offset;
        let rest_chars = chars_of(rest.as_str());
        let ghost rs = rest@;
        let ghost subv = spans_view(subsequent@);
        let sub = wrap_words(rest.as_str(), subsequent_room);
        let ghost sb = sub@.map_values(|l: String| l@);
        let ghost first_view = rows_view(out@);
        let mut sub_offset: usize = 0;
        let mut k: usize = 0;
        while k < sub.len()
            invariant
                k <= sub@.len(),
                sb == sub@.map_values(|l: String| l@),
                rest_chars@ == rs,
                rs == flat@.subrange(offset as int, flat@.len() as int),
                rl == rs.len(),
                offset < flat@.len(),
                flat@.len() == offset + rl,
                offset + rl <= usize::MAX,
                sub_offset <= rl,
                flat@ == flat_text(sv),
                sv == spans_view(spans@),
                subv == spans_view(subsequent@),
                first_view.len() == 1,
                rows_view(out@) == first_view + continuation_scan(sv, subv, sb, offset as int, rs, k as nat).0,
                continuation_scan(sv, subv, sb, offset as int, rs, k as nat).1 >= 0,
                sub_offset as int == if continuation_scan(sv, subv, sb, offset as int, rs, k as nat).1 < rl {
                    continuation_scan(sv, subv, sb, offset as int, rs, k as nat).1
                } else {
                    rl as int
                },
            decreases sub@.len() - k,
        {
            let ghost so = continuation_scan(sv, subv, sb, offset as int, rs, k as nat).1;
            let ghost old_out = out@;
            let wlen: usize = sub[k].as_str().unicode_len();
            assert(wlen as int == sb[k as int].len());
            if wlen > 0 {
                let range_end: usize = if wlen <= rl - sub_offset { sub_offset + wlen } else { rl };
                let line = prefixed_slice(subsequent, spans, offset + sub_offset, offset + range_end);
                proof {
                    let true_end = so + wlen;
                    if so >= rl {
                        lemma_slice_past_end(sv, offset + so, offset + true_end);
                        lemma_slice_past_end(sv, (offset + sub_offset) as int, (offset + range_end) as int);
                    } else if true_end > rl {
                        lemma_slice_end_clamp(sv, offset + so, offset + true_end);
                    }
                    assert(spans_view(line@) == subv + slice_spans(sv, offset + so, offset + so + sb[k as int].len()));
                }
                let ghost lv = spans_view(line@);
                out.push(line);
                assert(rows_view(out@) =~= rows_view(old_out).push(lv));
                sub_offset = range_end;
                if sub_offset < rl && rest_chars[sub_offset] == ' ' {
                    sub_offset = sub_offset + 1;
                }
            }
            k += 1;
            proof {
                assert(sb[k - 1].len() == 0 ==> out@ == old_out);
                let prev = continuation_scan(sv, subv, sb, offset as int, rs, (k - 1) as nat);
                assert(continuation_scan(sv, subv, sb, offset as int, rs, k as nat) == if sb[k - 1].len() == 0 {
                    prev
                } else {
                    (prev.0.push(subv + slice_spans(sv, offset + prev.1, offset + prev.1 + sb[k - 1].len())), skip_space(rs, prev.1 + sb[k - 1].len()))
                });
                assert(rows_view(out@) =~= first_view + continuation_scan(sv, subv, sb, offset as int, rs, k as nat).0);
            }
        }
        assert(sub@.len() == sb.len());
    }
    out
}

// ---------------------------------------------------------------------
// Markdown events
// ---------------------------------------------------------------------

/// What opens a Markdown block or inline element.  A heading keeps its
/// level, a code block its language (none for an indented block), a list
/// the number of its first item (none for a bulleted list), a link its
/// destination.
#[derive(Debug)]
pub enum MdTag {
    Paragraph,
    Heading(u8),
    BlockQuote,
    CodeBlock(Option<String>),
    List(Option<u64>),
    Item,
    Link(String),
    Emphasis,
    Strong,
    Strikethrough,
    Other,
}

/// What closes a Markdown block or inline element.
#[derive(Debug, Clone, Copy, PartialEq, Eq, Structural)]
pub enum MdTagEnd {
    Paragraph,
    Heading,
    BlockQuote,
    CodeBlock,
    List,
    Item,
    Link,
    Emphasis,
    Strong,
    Strikethrough,
    Other,
}

/// One event of a parsed Markdown document.
#[derive(Debug)]
pub enum MdEvent {
    Start(MdTag),
    End(MdTagEnd),
    Text(String),
    Code(String),
    SoftBreak,
    HardBreak,
    Rule,
    Other,
}

// ---------------------------------------------------------------------
// The renderer's state and its steps
// ---------------------------------------------------------------------

/// One level of indentation: the prefix of its lines, the marker that
/// takes the prefix's place on the first line of a list item, and whether
/// it is a list item.
#[verifier::ext_equal]
pub struct IndentV {
    pub prefix: Seq<SpanV>,
    pub marker: Option<Seq<SpanV>>,
    pub is_list: bool,
}

/// The renderer between two events: the lines written so far, the
/// inline styles in force, the indentation levels, the open lists with
/// the number of their next item, the open link, the pending code block,
/// and the line being built with its prefixes and style.
#[verifier::ext_equal]
pub struct MdState {
    pub text: Seq<LineV>,
    pub inline: Seq<MdStyle>,
    pub indent: Seq<IndentV>,
    pub lists: Seq<Option<u64>>,
    pub link: Option<Seq<char>>,
    pub needs_newline: bool,
    pub pending_marker: bool,
    pub in_paragraph: bool,
    pub in_code: bool,
    pub code_lang: Option<Seq<char>>,
    pub code_buf: Seq<char>,
    pub width: u16,
    pub cur: Option<LineV>,
    pub cur_initial: Seq<SpanV>,
    pub cur_subsequent: Seq<SpanV>,
    pub cur_style: MdStyle,
    pub cur_in_code: bool,
    pub blocks_done: usize,
}

pub open spec fn empty_line() -> LineV {
    (Seq::empty(), plain_style())
}

pub open spec fn drop_last_or_keep<T>(q: Seq<T>) -> Seq<T> {
    if q.len() > 0 {
        q.drop_last()
    } else {
        q
    }
}

pub open spec fn styled_rows(rows: Seq<Seq<SpanV>>, st: MdStyle) -> Seq<LineV> {
    rows.map_values(|r: Seq<SpanV>| (r, st))
}

/// The line being built is written out: wrapped under its prefixes,
/// unless it belongs to a code block, which keeps it on one line.
pub open spec fn flush(s: MdState) -> MdState {
    match s.cur {
        None => s,
        Some(line) => {
            let rows = if !s.cur_in_code {
                wrap_spans(line.0, s.width as nat, s.cur_initial, s.cur_subsequent)
            } else {
                seq![s.cur_initial + line.0]
            };
            MdState {
                text: s.text + styled_rows(rows, s.cur_style),
                cur: None,
                cur_initial: Seq::empty(),
                cur_subsequent: Seq::empty(),
                cur_in_code: false,
                ..s
            }
        },
    }
}

/// The last level that has a marker, or -1.
pub open spec fn last_marker(indent: Seq<IndentV>) -> int
    decreases indent.len(),
{
    if indent.len() == 0 {
        -1
    } else if indent.last().marker is Some {
        indent.len() - 1
    } else {
        last_marker(indent.drop_last())
    }
}

/// The last level that is a list item, or -1.
pub open spec fn last_list(indent: Seq<IndentV>) -> int
    decreases indent.len(),
{
    if indent.len() == 0 {
        -1
    } else if indent.last().is_list {
        indent.len() - 1
    } else {
        last_list(indent.drop_last())
    }
}

/// What level `i` adds to a line's prefix.  On an item's first line
/// (`pending`) the innermost marker stands in for its level's prefix and
/// the list levels inside it add nothing; on other lines only the
/// innermost list level adds its prefix.
pub open spec fn prefix_part(c: IndentV, i: int, pending: bool, lm: int, ll: int) -> Seq<SpanV> {
    if pending {
        if i == lm && c.marker is Some {
            c.marker.unwrap()
        } else if c.is_list && lm > i {
            Seq::empty()
        } else {
            c.prefix
        }
    } else if c.is_list && i != ll {
        Seq::empty()
    } else {
        c.prefix
    }
}

pub open spec fn prefix_scan(indent: Seq<IndentV>, pending: bool, lm: int, ll: int, k: nat) -> Seq<SpanV>
    decreases k,
{
    if k == 0 {
        Seq::empty()
    } else {
        prefix_scan(indent, pending, lm, ll, (k - 1) as nat) + prefix_part(indent[k - 1], k - 1, pending, lm, ll)
    }
}

/// The prefix of a line at the current indentation.
pub open spec fn prefix_spans(indent: Seq<IndentV>, pending: bool) -> Seq<SpanV> {
    prefix_scan(indent, pending, if pending { last_marker(indent) } else { -1 }, last_list(indent), indent.len())
}

/// Whether a block quote is open: some prefix holds a `>`.
pub open spec fn quote_active(indent: Seq<IndentV>) -> bool {
    exists|i: int, j: int|
        0 <= i < indent.len() && 0 <= j < indent[i].prefix.len() && (#[trigger] indent[i].prefix[j]).0.contains('>')
}

/// A new line starts (the one being built is written out first), with
/// the prefixes of the current indentation.
pub open spec fn push_line(s: MdState, l: LineV) -> MdState {
    let f = flush(s);
    MdState {
        cur_initial: prefix_spans(f.indent, f.pending_marker),
        cur_subsequent: prefix_spans(f.indent, false),
        cur_style: if quote_active(f.indent) { quote_style() } else { l.1 },
        cur: Some(l),
        cur_in_code: f.in_code,
        pending_marker: false,
        ..f
    }
}

/// A span joins the line being built, or starts one.
pub open spec fn push_span(s: MdState, sp: SpanV) -> MdState {
    match s.cur {
        Some(l) => MdState { cur: Some((l.0.push(sp), l.1)), ..s },
        None => push_line(s, (seq![sp], plain_style())),
    }
}

/// An empty line: bare inside lists only, with the quote's style inside
/// a quote.
pub open spec fn push_blank(s: MdState) -> MdState {
    let f = flush(s);
    if forall|i: int| 0 <= i < f.indent.len() ==> #[trigger] f.indent[i].is_list {
        MdState { text: f.text.push(empty_line()), ..f }
    } else {
        flush(push_line(f, empty_line()))
    }
}

pub open spec fn inline_top(s: MdState) -> MdStyle {
    if s.inline.len() > 0 {
        s.inline.last()
    } else {
        plain_style()
    }
}

/// An inline style opens, laid over the one in force.
pub open spec fn push_inline(s: MdState, st: MdStyle) -> MdState {
    MdState { inline: s.inline.push(patch(inline_top(s), st)), ..s }
}

pub open spec fn pop_inline(s: MdState) -> MdState {
    MdState { inline: drop_last_or_keep(s.inline), ..s }
}

/// A link closes: its destination follows it in parentheses.
pub open spec fn pop_link(s: MdState) -> MdState {
    match s.link {
        None => s,
        Some(dest) => {
            let st = if s.inline.len() > 0 { patch(s.inline.last(), link_style()) } else { link_style() };
            push_span(MdState { link: None, ..s }, (" ("@ + dest + ")"@, st))
        },
    }
}

pub open spec fn spaces(n: nat) -> Seq<char> {
    Seq::new(n, |i: int| ' ')
}

/// The marker column of a list nested `depth` deep.
pub open spec fn list_width(depth: nat) -> int {
    (if depth * 4 > usize::MAX { usize::MAX as int } else { (depth * 4) as int }) - 3
}

/// A number right-aligned in `width` columns.
pub open spec fn padded_number(n: u64, width: int) -> Seq<char> {
    let d = decimal(n as nat);
    if d.len() < width {
        spaces((width - d.len()) as nat) + d
    } else {
        d
    }
}

pub open spec fn next_number(n: u64) -> u64 {
    if n == u64::MAX {
        0
    } else {
        (n + 1) as u64
    }
}

/// A list item starts: its marker (a dash, or its number right-aligned)
/// at the list's depth, and the indentation of its further lines.  An
/// item outside any list has neither.
pub open spec fn start_item(s: MdState) -> MdState {
    let f = flush(s);
    let depth = f.lists.len();
    if depth == 0 {
        MdState {
            indent: f.indent.push(IndentV { prefix: Seq::empty(), marker: None, is_list: true }),
            pending_marker: true,
            needs_newline: false,
            ..f
        }
    } else {
        let w = list_width(depth);
        let last = f.lists.last();
        let marker = match last {
            None => (spaces((w - 1) as nat) + "- "@, plain_style()),
            Some(n) => (padded_number(n, w) + ". "@, ordered_marker_style()),
        };
        let lists = match last {
            None => f.lists,
            Some(n) => f.lists.update(depth - 1, Some(next_number(n))),
        };
        let indent_len = if last is Some { w + 2 } else { w + 1 };
        MdState {
            indent: f.indent.push(
                IndentV { prefix: seq![(spaces(indent_len as nat), plain_style())], marker: Some(seq![marker]), is_list: true },
            ),
            lists,
            pending_marker: true,
            needs_newline: false,
            ..f
        }
    }
}

/// The lines of a text, each after the first on a line of its own.
pub open spec fn text_scan(s: MdState, ls: Seq<Seq<char>>, k: nat) -> MdState
    decreases k,
{
    if k == 0 {
        s
    } else {
        let p = text_scan(s, ls, (k - 1) as nat);
        let p1 = if p.needs_newline { MdState { needs_newline: false, ..push_line(p, empty_line()) } } else { p };
        let p2 = if k - 1 > 0 { push_line(p1, empty_line()) } else { p1 };
        push_span(p2, (ls[k - 1], inline_top(p2)))
    }
}

/// Text: kept for later inside a code block, otherwise written in the
/// inline style in force.
pub open spec fn on_text(s: MdState, t: Seq<char>) -> MdState {
    let s1 = if s.pending_marker { push_line(s, empty_line()) } else { s };
    let s2 = MdState { pending_marker: false, ..s1 };
    if s2.in_code {
        MdState { code_buf: s2.code_buf + t, ..s2 }
    } else {
        MdState { needs_newline: false, ..text_scan(s2, text_lines(t), text_lines(t).len()) }
    }
}

pub open spec fn spans_scan(s: MdState, spans: Seq<SpanV>, k: nat) -> MdState
    decreases k,
{
    if k == 0 {
        s
    } else {
        push_span(spans_scan(s, spans, (k - 1) as nat), spans[k - 1])
    }
}

/// Highlighted lines, each on a line of its own.
pub open spec fn hl_scan(s: MdState, lines: Seq<LineV>, k: nat) -> MdState
    decreases k,
{
    if k == 0 {
        s
    } else {
        let p = push_line(hl_scan(s, lines, (k - 1) as nat), empty_line());
        spans_scan(p, lines[k - 1].0, lines[k - 1].0.len())
    }
}

/// Code lines in the code style, each on a line of its own.
pub open spec fn code_lines_scan(s: MdState, ls: Seq<Seq<char>>, k: nat) -> MdState
    decreases k,
{
    if k == 0 {
        s
    } else {
        push_span(push_line(code_lines_scan(s, ls, (k - 1) as nat), empty_line()), (ls[k - 1], code_style()))
    }
}

/// The lines of a code block as the highlighter gives them when it knows
/// no syntax: each line as one unstyled span (none for an empty line).
pub open spec fn plain_lines(code: Seq<char>) -> Seq<LineV> {
    text_lines(code).map_values(
        |l: Seq<char>| (if l.len() == 0 { Seq::<SpanV>::empty() } else { seq![(l, plain_style())] }, plain_style()),
    )
}

pub open spec fn sat_inc(n: usize) -> usize {
    if n < usize::MAX {
        (n + 1) as usize
    } else {
        n
    }
}

/// A code block closes.  A block with a language and some code is written
/// as the next of the highlighted blocks in `hls` (as plain lines when
/// there are no more); one without a language in the code style.
pub open spec fn end_codeblock(s: MdState, hls: Seq<Seq<LineV>>) -> MdState {
    let s1 = match s.code_lang {
        Some(lang) => {
            let code = s.code_buf;
            let t = MdState { code_lang: None, code_buf: Seq::empty(), ..s };
            if code.len() > 0 {
                let lines = if (t.blocks_done as int) < hls.len() { hls[t.blocks_done as int] } else { plain_lines(code) };
                MdState { blocks_done: sat_inc(t.blocks_done), ..hl_scan(t, lines, lines.len()) }
            } else {
                t
            }
        },
        None => {
            let ls = text_lines(s.code_buf);
            code_lines_scan(MdState { code_buf: Seq::empty(), ..s }, ls, ls.len())
        },
    };
    MdState { needs_newline: true, in_code: false, indent: drop_last_or_keep(s1.indent), ..s1 }
}

/// The `#`s and the space that open a heading.
pub open spec fn heading_marker(level: u8) -> Seq<char> {
    Seq::new(level as nat, |i: int| '#') + " "@
}

pub open spec fn on_start(s: MdState, tag: MdTag) -> MdState {
    match tag {
        MdTag::Paragraph => {
            let s1 = if s.needs_newline { push_blank(s) } else { s };
            MdState { needs_newline: false, in_paragraph: true, ..push_line(s1, empty_line()) }
        },
        MdTag::Heading(level) => {
            let s1 = if s.needs_newline { MdState { needs_newline: false, ..push_line(s, empty_line()) } } else { s };
            let st = heading_style(level);
            let s2 = push_line(s1, (seq![(heading_marker(level), st)], plain_style()));
            MdState { needs_newline: false, ..push_inline(s2, st) }
        },
        MdTag::BlockQuote => {
            let s1 = if s.needs_newline { MdState { needs_newline: false, ..push_blank(s) } } else { s };
            MdState {
                indent: s1.indent.push(IndentV { prefix: seq![("> "@, plain_style())], marker: None, is_list: false }),
                ..s1
            }
        },
        MdTag::CodeBlock(lang) => {
            let f = flush(s);
            let s1 = if f.text.len() > 0 { push_blank(f) } else { f };
            MdState {
                in_code: true,
                code_lang: match lang {
                    Some(l) => Some(l@),
                    None => None,
                },
                code_buf: Seq::empty(),
                indent: s1.indent.push(IndentV { prefix: seq![("  "@, plain_style())], marker: None, is_list: false }),
                ..s1
            }
        },
        MdTag::List(idx) => {
            let s1 = if s.lists.len() == 0 && s.needs_newline { push_line(s, empty_line()) } else { s };
            MdState { lists: s1.lists.push(idx), ..s1 }
        },
        MdTag::Item => start_item(s),
        MdTag::Link(dest) => MdState { link: Some(dest@), ..s },
        MdTag::Emphasis => push_inline(s, emphasis_style()),
        MdTag::Strong => push_inline(s, strong_style()),
        MdTag::Strikethrough => push_inline(s, strikethrough_style()),
        MdTag::Other => s,
    }
}

pub open spec fn on_end(s: MdState, tag: MdTagEnd, hls: Seq<Seq<LineV>>) -> MdState {
    match tag {
        MdTagEnd::Paragraph => MdState { needs_newline: true, in_paragraph: false, pending_marker: false, ..s },
        MdTagEnd::Heading => MdState { needs_newline: true, ..pop_inline(s) },
        MdTagEnd::BlockQuote => MdState { indent: drop_last_or_keep(s.indent), needs_newline: true, ..s },
        MdTagEnd::CodeBlock => end_codeblock(s, hls),
        MdTagEnd::List => MdState { lists: drop_last_or_keep(s.lists), needs_newline: true, ..s },
        MdTagEnd::Item => {
            let f = flush(s);
            MdState { indent: drop_last_or_keep(f.indent), pending_marker: false, ..f }
        },
        MdTagEnd::Link => pop_link(s),
        MdTagEnd::Emphasis | MdTagEnd::Strong | MdTagEnd::Strikethrough => pop_inline(s),
        MdTagEnd::Other => s,
    }
}

/// What one event does to the renderer.
pub open spec fn on_event(s: MdState, e: MdEvent, hls: Seq<Seq<LineV>>) -> MdState {
    match e {
        MdEvent::Start(t) => on_start(s, t),
        MdEvent::End(t) => on_end(s, t, hls),
        MdEvent::Text(t) => on_text(s, t@),
        MdEvent::Code(c) => push_span(s, (c@, code_style())),
        MdEvent::SoftBreak => push_line(s, empty_line()),
        MdEvent::HardBreak => push_line(s, empty_line()),
        MdEvent::Rule => {
            let f = flush(s);
            let s1 = if f.text.len() > 0 { push_blank(f) } else { f };
            MdState { needs_newline: true, ..push_line(s1, (seq![("---"@, plain_style())], plain_style())) }
        },
        MdEvent::Other => s,
    }
}

/// The renderer before any event, for lines of `width` columns.
pub open spec fn initial_state(width: u16) -> MdState {
    MdState {
        text: Seq::empty(),
        inline: Seq::empty(),
        indent: Seq::empty(),
        lists: Seq::empty(),
        link: None,
        needs_newline: false,
        pending_marker: false,
        in_paragraph: false,
        in_code: false,
        code_lang: None,
        code_buf: Seq::empty(),
        width,
        cur: None,
        cur_initial: Seq::empty(),
        cur_subsequent: Seq::empty(),
        cur_style: plain_style(),
        cur_in_code: false,
        blocks_done: 0,
    }
}

/// The renderer after the first `k` events.
pub open spec fn run_events(events: Seq<MdEvent>, width: u16, hls: Seq<Seq<LineV>>, k: nat) -> MdState
    decreases k,
{
    if k == 0 {
        initial_state(width)
    } else {
        on_event(run_events(events, width, hls, (k - 1) as nat), events[k - 1], hls)
    }
}

/// The lines of a document: what the renderer wrote once every event was
/// handled, or one empty line when it wrote none.
pub open spec fn rendered(events: Seq<MdEvent>, width: u16, hls: Seq<Seq<LineV>>) -> Seq<LineV> {
    let t = flush(run_events(events, width, hls, events.len())).text;
    if t.len() == 0 {
        seq![empty_line()]
    } else {
        t
    }
}

pub open spec fn hl_view(v: Seq<Vec<MdLine>>) -> Seq<Seq<LineV>> {
    v.map_values(|l: Vec<MdLine>| lines_view(l@))
}

// ---------------------------------------------------------------------
// The renderer
// ---------------------------------------------------------------------

fn plain_line() -> (r: MdLine)
    ensures
        r@ == empty_line(),
{
    let r = MdLine { spans: Vec::new(), style: MdStyle::plain() };
    assert(r@.0 =~= Seq::<SpanV>::empty());
    r
}

fn heading_style_of(level: u8) -> (r: MdStyle)
    ensures
        r == heading_style(level),
{
    if level == 1 {
        make_style(None, true, false, true, false)
    } else if level == 2 {
        make_style(None, true, false, false, false)
    } else if level == 3 {
        make_style(None, true, true, false, false)
    } else {
        make_style(None, false, true, false, false)
    }
}

/// `n` spaces.
fn spaces_of(n: usize) -> (r: String)
    ensures
        r@ == spaces(n as nat),
{
    let mut r = String::new();
    let mut i: usize = 0;
    while i < n
        invariant
            i <= n,
            r@ == spaces(i as nat),
        decreases n - i,
    {
        push_str(&mut r, " ");
        proof {
            reveal_strlit(" ");
        }
        i += 1;
        assert(r@ =~= spaces(i as nat));
    }
    r
}

fn heading_marker_of(level: u8) -> (r: String)
    ensures
        r@ == heading_marker(level),
{
    let mut r = String::new();
    let mut i: u8 = 0;
    while i < level
        invariant
            i <= level,
            r@ == Seq::new(i as nat, |j: int| '#'),
        decreases level - i,
    {
        push_str(&mut r, "#");
        proof {
            reveal_strlit("#");
        }
        i += 1;
        assert(r@ =~= Seq::new(i as nat, |j: int| '#'));
    }
    push_str(&mut r, " ");
    r
}

fn padded_number_of(n: u64, width: usize) -> (r: String)
    ensures
        r@ == padded_number(n, width as int),
{
    let mut d = String::new();
    push_decimal(&mut d, n);
    assert(d@ =~= decimal(n as nat));
    let len = d.as_str().unicode_len();
    if len < width {
        let mut r = spaces_of(width - len);
        push_str(&mut r, d.as_str());
        r
    } else {
        d
    }
}

fn has_char(s: &str, c: char) -> (r: bool)
    ensures
        r == s@.contains(c),
{
    let cs = chars_of(s);
    let mut i: usize = 0;
    while i < cs.len()
        invariant
            i <= cs@.len(),
            cs@ == s@,
            forall|j: int| 0 <= j < i ==> cs@[j] != c,
        decreases cs@.len() - i,
    {
        if cs[i] == c {
            return true;
        }
        i += 1;
    }
    false
}

/// One level of indentation (see [`IndentV`]).
struct IndentCtx {
    prefix: Vec<MdSpan>,
    marker: Option<Vec<MdSpan>>,
    is_list: bool,
}

impl View for IndentCtx {
    type V = IndentV;

    closed spec fn view(&self) -> IndentV {
        IndentV {
            prefix: spans_view(self.prefix@),
            marker: match self.marker {
                Some(m) => Some(spans_view(m@)),
                None => None,
            },
            is_list: self.is_list,
        }
    }
}

spec fn indents_view(v: Seq<IndentCtx>) -> Seq<IndentV> {
    v.map_values(|c: IndentCtx| c@)
}

spec fn opt_text(o: Option<String>) -> Option<Seq<char>> {
    match o {
        Some(t) => Some(t@),
        None => None,
    }
}

/// Writes rows of spans as lines of one style.
fn push_rows(text: &mut Vec<MdLine>, rows: &Vec<Vec<MdSpan>>, style: MdStyle)
    ensures
        lines_view(final(text)@) == lines_view(old(text)@) + styled_rows(rows_view(rows@), style),
{
    let ghost start = lines_view(text@);
    let mut i: usize = 0;
    while i < rows.len()
        invariant
            i <= rows@.len(),
            lines_view(text@) == start + styled_rows(rows_view(rows@.take(i as int)), style),
        decreases rows@.len() - i,
    {
        let ghost before = text@;
        let line = MdLine { spans: copy_spans(&rows[i]), style };
        text.push(line);
        i += 1;
        assert(lines_view(text@) =~= lines_view(before).push((spans_view(rows@[i - 1]@), style)));
        assert(styled_rows(rows_view(rows@.take(i as int)), style) =~= styled_rows(rows_view(rows@.take(i - 1)), style).push(
            (spans_view(rows@[i - 1]@), style),
        ));
    }
    assert(rows@.take(rows@.len() as int) =~= rows@);
}

/// The last level with a marker (`None` for -1).
fn last_marker_of(indent: &Vec<IndentCtx>) -> (r: Option<usize>)
    ensures
        match r {
            Some(i) => i as int == last_marker(indents_view(indent@)),
            None => last_marker(indents_view(indent@)) == -1,
        },
{
    let ghost iv = indents_view(indent@);
    let mut r: Option<usize> = None;
    let mut i: usize = 0;
    while i < indent.len()
        invariant
            i <= indent@.len(),
            iv == indents_view(indent@),
            match r {
                Some(x) => x as int == last_marker(iv.take(i as int)),
                None => last_marker(iv.take(i as int)) == -1,
            },
        decreases indent@.len() - i,
    {
        assert(iv.take(i + 1).drop_last() =~= iv.take(i as int));
        if indent[i].marker.is_some() {
            r = Some(i);
        }
        i += 1;
    }
    assert(iv.take(indent@.len() as int) =~= iv);
    r
}

/// The last level that is a list item (`None` for -1).
fn last_list_of(indent: &Vec<IndentCtx>) -> (r: Option<usize>)
    ensures
        match r {
            Some(i) => i as int == last_list(indents_view(indent@)),
            None => last_list(indents_view(indent@)) == -1,
        },
{
    let ghost iv = indents_view(indent@);
    let mut r: Option<usize> = None;
    let mut i: usize = 0;
    while i < indent.len()
        invariant
            i <= indent@.len(),
            iv == indents_view(indent@),
            match r {
                Some(x) => x as int == last_list(iv.take(i as int)),
                None => last_list(iv.take(i as int)) == -1,
            },
        decreases indent@.len() - i,
    {
        assert(iv.take(i + 1).drop_last() =~= iv.take(i as int));
        if indent[i].is_list {
            r = Some(i);
        }
        i += 1;
    }
    assert(iv.take(indent@.len() as int) =~= iv);
    r
}

/// The prefix of a line at the current indentation (see [`prefix_spans`]).
fn prefix_of(indent: &Vec<IndentCtx>, pending: bool) -> (r: Vec<MdSpan>)
    ensures
        spans_view(r@) == prefix_spans(indents_view(indent@), pending),
{
    let ghost iv = indents_view(indent@);
    let lm = if pending { last_marker_of(indent) } else { None };
    let ll = last_list_of(indent);
    let ghost lmi: int = if pending { last_marker(iv) } else { -1 };
    let ghost lli: int = last_list(iv);
    let mut out: Vec<MdSpan> = Vec::new();
    let mut i: usize = 0;
    while i < indent.len()
        invariant
            i <= indent@.len(),
            iv == indents_view(indent@),
            match lm {
                Some(x) => x as int == lmi,
                None => lmi == -1,
            },
            match ll {
                Some(x) => x as int == lli,
                None => lli == -1,
            },
            spans_view(out@) == prefix_scan(iv, pending, lmi, lli, i as nat),
        decreases indent@.len() - i,
    {
        let ctx = &indent[i];
        let ghost part = prefix_part(iv[i as int], i as int, pending, lmi, lli);
        let at_marker = match lm {
            Some(x) => x == i,
            None => false,
        };
        let marker_after = match lm {
            Some(x) => x > i,
            None => false,
        };
        let at_list = match ll {
            Some(x) => x == i,
            None => false,
        };
        if pending {
            if at_marker && ctx.marker.is_some() {
                match &ctx.marker {
                    Some(m) => append_spans(&mut out, m),
                    None => {},
                }
            } else if ctx.is_list && marker_after {
                assert(part =~= Seq::<SpanV>::empty());
                assert(spans_view(out@) =~= spans_view(out@) + part);
            } else {
                append_spans(&mut out, &ctx.prefix);
            }
        } else if ctx.is_list && !at_list {
            assert(part =~= Seq::<SpanV>::empty());
            assert(spans_view(out@) =~= spans_view(out@) + part);
        } else {
            append_spans(&mut out, &ctx.prefix);
        }
        i += 1;
    }
    out
}

/// Whether a block quote is open (see [`quote_active`]).
fn quote_in(indent: &Vec<IndentCtx>) -> (r: bool)
    ensures
        r == quote_active(indents_view(indent@)),
{
    let ghost iv = indents_view(indent@);
    let mut i: usize = 0;
    while i < indent.len()
        invariant
            i <= indent@.len(),
            iv == indents_view(indent@),
            forall|a: int, b: int|
                0 <= a < i && 0 <= b < iv[a].prefix.len() ==> !(#[trigger] iv[a].prefix[b]).0.contains('>'),
        decreases indent@.len() - i,
    {
        let prefix = &indent[i].prefix;
        let mut j: usize = 0;
        while j < prefix.len()
            invariant
                j <= prefix@.len(),
                i < indent@.len(),
                prefix@ == indent@[i as int].prefix@,
                iv == indents_view(indent@),
                forall|a: int, b: int|
                    0 <= a < i && 0 <= b < iv[a].prefix.len() ==> !(#[trigger] iv[a].prefix[b]).0.contains('>'),
                forall|b: int| 0 <= b < j ==> !(#[trigger] iv[i as int].prefix[b]).0.contains('>'),
            decreases prefix@.len() - j,
        {
            if has_char(prefix[j].content.as_str(), '>') {
                assert(iv[i as int].prefix[j as int].0.contains('>'));
                return true;
            }
            j += 1;
        }
        i += 1;
    }
    false
}

fn all_lists(indent: &Vec<IndentCtx>) -> (r: bool)
    ensures
        r == forall|i: int| 0 <= i < indents_view(indent@).len() ==> #[trigger] indents_view(indent@)[i].is_list,
{
    let ghost iv = indents_view(indent@);
    let mut i: usize = 0;
    while i < indent.len()
        invariant
            i <= indent@.len(),
            iv == indents_view(indent@),
            forall|a: int| 0 <= a < i ==> #[trigger] iv[a].is_list,
        decreases indent@.len() - i,
    {
        if !indent[i].is_list {
            assert(!iv[i as int].is_list);
            return false;
        }
        i += 1;
    }
    true
}

/// The renderer's state (see [`MdState`]).
struct Writer {
    text: Vec<MdLine>,
    inline_styles: Vec<MdStyle>,
    indent_stack: Vec<IndentCtx>,
    list_indices: Vec<Option<u64>>,
    link: Option<String>,
    needs_newline: bool,
    pending_marker_line: bool,
    in_paragraph: bool,
    in_code_block: bool,
    code_block_lang: Option<String>,
    code_block_buffer: String,
    wrap_width: u16,
    current_line_content: Option<MdLine>,
    current_initial_indent: Vec<MdSpan>,
    current_subsequent_indent: Vec<MdSpan>,
    current_line_style: MdStyle,
    current_line_in_code_block: bool,
    blocks_done: usize,
}

impl View for Writer {
    type V = MdState;

    closed spec fn view(&self) -> MdState {
        MdState {
            text: lines_view(self.text@),
            inline: self.inline_styles@,
            indent: indents_view(self.indent_stack@),
            lists: self.list_indices@,
            link: opt_text(self.link),
            needs_newline: self.needs_newline,
            pending_marker: self.pending_marker_line,
            in_paragraph: self.in_paragraph,
            in_code: self.in_code_block,
            code_lang: opt_text(self.code_block_lang),
            code_buf: self.code_block_buffer@,
            width: self.wrap_width,
            cur: match self.current_line_content {
                Some(l) => Some(l@),
                None => None,
            },
            cur_initial: spans_view(self.current_initial_indent@),
            cur_subsequent: spans_view(self.current_subsequent_indent@),
            cur_style: self.current_line_style,
            cur_in_code: self.current_line_in_code_block,
            blocks_done: self.blocks_done,
        }
    }
}

impl Writer {
    fn new(width: u16) -> (r: Writer)
        ensures
            r@ == initial_state(width),
    {
        let r = Writer {
            text: Vec::new(),
            inline_styles: Vec::new(),
            indent_stack: Vec::new(),
            list_indices: Vec::new(),
            link: None,
            needs_newline: false,
            pending_marker_line: false,
            in_paragraph: false,
            in_code_block: false,
            code_block_lang: None,
            code_block_buffer: String::new(),
            wrap_width: width,
            current_line_content: None,
            current_initial_indent: Vec::new(),
            current_subsequent_indent: Vec::new(),
            current_line_style: MdStyle::plain(),
            current_line_in_code_block: false,
            blocks_done: 0,
        };
        assert(r@ =~= initial_state(width));
        r
    }

    fn flush(&mut self)
        ensures
            final(self)@ == flush(old(self)@),
    {
        let ghost s = self@;
        match self.current_line_content.take() {
            None => {
                assert(self@ =~= s);
            },
            Some(line) => {
                let style = self.current_line_style;
                let rows: Vec<Vec<MdSpan>> = if !self.current_line_in_code_block {
                    wrap_line(&line.spans, self.wrap_width as usize, &self.current_initial_indent, &self.current_subsequent_indent)
                } else {
                    let mut v = copy_spans(&self.current_initial_indent);
                    append_spans(&mut v, &line.spans);
                    let rows = vec![v];
                    assert(rows_view(rows@) =~= seq![s.cur_initial + s.cur.unwrap().0]);
                    rows
                };
                push_rows(&mut self.text, &rows, style);
                self.current_initial_indent = Vec::new();
                self.current_subsequent_indent = Vec::new();
                self.current_line_in_code_block = false;
                assert(self@ =~= flush(s));
            },
        }
    }

    fn push_line(&mut self, line: MdLine)
        ensures
            final(self)@ == push_line(old(self)@, line@),
    {
        let ghost lv = line@;
        self.flush();
        let ghost f = self@;
        let style = if quote_in(&self.indent_stack) { make_style(Some(MdColor::Green), false, false, false, false) } else { line.style };
        self.current_initial_indent = prefix_of(&self.indent_stack, self.pending_marker_line);
        self.current_subsequent_indent = prefix_of(&self.indent_stack, false);
        self.current_line_style = style;
        self.current_line_content = Some(line);
        self.current_line_in_code_block = self.in_code_block;
        self.pending_marker_line = false;
        assert(self@ =~= push_line(old(self)@, lv));
    }

    fn push_span(&mut self, span: MdSpan)
        ensures
            final(self)@ == push_span(old(self)@, span@),
    {
        let ghost sv = span@;
        let ghost s = self@;
        match self.current_line_content.take() {
            Some(mut line) => {
                let ghost lv = line@;
                line.spans.push(span);
                assert(line@.0 =~= lv.0.push(sv));
                self.current_line_content = Some(line);
                assert(self@ =~= push_span(s, sv));
            },
            None => {
                let spans = vec![span];
                let line = MdLine { spans, style: MdStyle::plain() };
                assert(line@.0 =~= seq![sv]);
                self.push_line(line);
            },
        }
    }

    fn push_blank(&mut self)
        ensures
            final(self)@ == push_blank(old(self)@),
    {
        self.flush();
        if all_lists(&self.indent_stack) {
            let ghost f = self@;
            self.text.push(plain_line());
            assert(self@ =~= MdState { text: f.text.push(empty_line()), ..f });
        } else {
            self.push_line(plain_line());
            self.flush();
        }
    }

    fn inline_top(&self) -> (r: MdStyle)
        ensures
            r == inline_top(self@),
    {
        if self.inline_styles.len() > 0 {
            self.inline_styles[self.inline_styles.len() - 1]
        } else {
            MdStyle::plain()
        }
    }

    fn push_inline(&mut self, st: MdStyle)
        ensures
            final(self)@ == push_inline(old(self)@, st),
    {
        let top = self.inline_top();
        self.inline_styles.push(top.patched(st));
        assert(self@ =~= push_inline(old(self)@, st));
    }

    fn pop_inline(&mut self)
        ensures
            final(self)@ == pop_inline(old(self)@),
    {
        let _ = self.inline_styles.pop();
        assert(self@ =~= pop_inline(old(self)@));
    }

    fn pop_link(&mut self)
        ensures
            final(self)@ == pop_link(old(self)@),
    {
        let ghost s = self@;
        match self.link.take() {
            None => {
                assert(self@ =~= s);
            },
            Some(dest) => {
                let st = if self.inline_styles.len() > 0 {
                    self.inline_styles[self.inline_styles.len() - 1].patched(make_style(Some(MdColor::Cyan), false, false, true, false))
                } else {
                    make_style(Some(MdColor::Cyan), false, false, true, false)
                };
                let mut content = string_of(" (");
                push_str(&mut content, dest.as_str());
                push_str(&mut content, ")");
                assert(self@ =~= MdState { link: None, ..s });
                self.push_span(MdSpan { content, style: st });
            },
        }
    }

    fn start_item(&mut self)
        ensures
            final(self)@ == start_item(old(self)@),
    {
        self.flush();
        let ghost f = self@;
        let depth = self.list_indices.len();
        if depth == 0 {
            self.indent_stack.push(IndentCtx { prefix: Vec::new(), marker: None, is_list: true });
            self.pending_marker_line = true;
            self.needs_newline = false;
            assert(spans_view(Seq::<MdSpan>::empty()) =~= Seq::<SpanV>::empty());
            assert(self@ =~= start_item(old(self)@));
        } else {
            let times_four: usize = if depth > usize::MAX / 4 { usize::MAX } else { depth * 4 };
            let w: usize = times_four - 3;
            assert(w as int == list_width(depth as nat));
            let last = self.list_indices[depth - 1];
            let marker_span;
            let indent_len: usize;
            match last {
                None => {
                    let mut m = spaces_of(w - 1);
                    push_str(&mut m, "- ");
                    marker_span = MdSpan { content: m, style: MdStyle::plain() };
                    indent_len = w + 1;
                },
                Some(n) => {
                    let mut m = padded_number_of(n, w);
                    push_str(&mut m, ". ");
                    marker_span = MdSpan { content: m, style: make_style(Some(MdColor::LightBlue), false, false, false, false) };
                    let next = if n == u64::MAX { 0 } else { n + 1 };
                    self.list_indices.set(depth - 1, Some(next));
                    indent_len = w + 2;
                },
            }
            let prefix = vec![MdSpan { content: spaces_of(indent_len), style: MdStyle::plain() }];
            let marker = vec![marker_span];
            let ghost pv = spans_view(prefix@);
            let ghost mv = spans_view(marker@);
            self.indent_stack.push(IndentCtx { prefix, marker: Some(marker), is_list: true });
            self.pending_marker_line = true;
            self.needs_newline = false;
            let ghost g = start_item(old(self)@);
            assert(pv =~= g.indent.last().prefix);
            assert(mv =~= g.indent.last().marker.unwrap());
            assert(indents_view(self.indent_stack@) =~= g.indent);
            assert(self@ =~= g);
        }
    }
}

impl Writer {
    fn on_text(&mut self, t: &str)
        ensures
            final(self)@ == on_text(old(self)@, t@),
    {
        if self.pending_marker_line {
            self.push_line(plain_line());
        }
        self.pending_marker_line = false;
        let ghost s2 = self@;
        if self.in_code_block {
            push_str(&mut self.code_block_buffer, t);
            assert(self@ =~= on_text(old(self)@, t@));
            return;
        }
        let ls = text_lines_of(t);
        let ghost lsv = ls@.map_values(|x: String| x@);
        let mut k: usize = 0;
        while k < ls.len()
            invariant
                k <= ls@.len(),
                lsv == ls@.map_values(|x: String| x@),
                self@ == text_scan(s2, lsv, k as nat),
            decreases ls@.len() - k,
        {
            if self.needs_newline {
                self.push_line(plain_line());
                self.needs_newline = false;
            }
            if k > 0 {
                self.push_line(plain_line());
            }
            let st = self.inline_top();
            self.push_span(span_of(ls[k].as_str(), st));
            k += 1;
            assert(self@ =~= text_scan(s2, lsv, k as nat));
        }
        self.needs_newline = false;
        assert(self@ =~= on_text(old(self)@, t@));
    }

    /// Highlighted lines, each on a line of its own (see [`hl_scan`]).
    fn write_lines(&mut self, lines: &Vec<MdLine>)
        ensures
            final(self)@ == hl_scan(old(self)@, lines_view(lines@), lines@.len()),
    {
        let ghost s0 = self@;
        let ghost lv = lines_view(lines@);
        let mut k: usize = 0;
        while k < lines.len()
            invariant
                k <= lines@.len(),
                lv == lines_view(lines@),
                self@ == hl_scan(s0, lv, k as nat),
            decreases lines@.len() - k,
        {
            self.push_line(plain_line());
            let ghost p = self@;
            let spans = &lines[k].spans;
            let mut j: usize = 0;
            while j < spans.len()
                invariant
                    j <= spans@.len(),
                    k < lines@.len(),
                    spans@ == lines@[k as int].spans@,
                    lv == lines_view(lines@),
                    self@ == spans_scan(p, lv[k as int].0, j as nat),
                decreases spans@.len() - j,
            {
                self.push_span(copy_span(&spans[j]));
                j += 1;
            }
            k += 1;
        }
    }

    fn end_codeblock(&mut self, hls: &Vec<Vec<MdLine>>)
        ensures
            final(self)@ == end_codeblock(old(self)@, hl_view(hls@)),
    {
        let ghost s = self@;
        let ghost hv = hl_view(hls@);
        let lang = self.code_block_lang.take();
        let mut code = String::new();
        std::mem::swap(&mut code, &mut self.code_block_buffer);
        match lang {
            Some(_) => {
                assert(self@ =~= MdState { code_lang: None, code_buf: Seq::empty(), ..s });
                if code.as_str().unicode_len() > 0 {
                    let bd = self.blocks_done;
                    if bd < hls.len() {
                        self.write_lines(&hls[bd]);
                    } else {
                        let fallback = plain_lines_of(code.as_str());
                        self.write_lines(&fallback);
                    }
                    self.blocks_done = if bd < usize::MAX { bd + 1 } else { bd };
                }
            },
            None => {
                let ghost t = self@;
                assert(t =~= MdState { code_buf: Seq::empty(), ..s });
                let ls = text_lines_of(code.as_str());
                let ghost lsv = ls@.map_values(|x: String| x@);
                let mut k: usize = 0;
                while k < ls.len()
                    invariant
                        k <= ls@.len(),
                        lsv == ls@.map_values(|x: String| x@),
                        self@ == code_lines_scan(t, lsv, k as nat),
                    decreases ls@.len() - k,
                {
                    self.push_line(plain_line());
                    self.push_span(span_of(ls[k].as_str(), make_style(Some(MdColor::Cyan), false, false, false, false)));
                    k += 1;
                }
            },
        }
        let ghost s1 = self@;
        self.needs_newline = true;
        self.in_code_block = false;
        let _ = self.indent_stack.pop();
        assert(indents_view(self.indent_stack@) =~= drop_last_or_keep(s1.indent));
        assert(self@ =~= end_codeblock(s, hv));
    }

    fn on_start(&mut self, tag: &MdTag)
        ensures
            final(self)@ == on_start(old(self)@, *tag),
    {
        let ghost s = self@;
        match tag {
            MdTag::Paragraph => {
                if self.needs_newline {
                    self.push_blank();
                }
                self.push_line(plain_line());
                self.needs_newline = false;
                self.in_paragraph = true;
            },
            MdTag::Heading(level) => {
                if self.needs_newline {
                    self.push_line(plain_line());
                    self.needs_newline = false;
                }
                let st = heading_style_of(*level);
                let marker = MdSpan { content: heading_marker_of(*level), style: st };
                let ghost mv = marker@;
                let line = MdLine { spans: vec![marker], style: MdStyle::plain() };
                assert(line@.0 =~= seq![mv]);
                self.push_line(line);
                self.push_inline(st);
                self.needs_newline = false;
            },
            MdTag::BlockQuote => {
                if self.needs_newline {
                    self.push_blank();
                    self.needs_newline = false;
                }
                let prefix = vec![span_of("> ", MdStyle::plain())];
                let ghost pv = spans_view(prefix@);
                let ghost s1 = self@;
                self.indent_stack.push(IndentCtx { prefix, marker: None, is_list: false });
                assert(indents_view(self.indent_stack@) =~= s1.indent.push(IndentV { prefix: pv, marker: None, is_list: false }));
                assert(pv =~= seq![("> "@, plain_style())]);
            },
            MdTag::CodeBlock(lang) => {
                self.flush();
                if self.text.len() > 0 {
                    self.push_blank();
                }
                let ghost s1 = self@;
                self.in_code_block = true;
                self.code_block_lang = match lang {
                    Some(l) => Some(string_of(l.as_str())),
                    None => None,
                };
                self.code_block_buffer = String::new();
                let prefix = vec![span_of("  ", MdStyle::plain())];
                let ghost pv = spans_view(prefix@);
                self.indent_stack.push(IndentCtx { prefix, marker: None, is_list: false });
                assert(indents_view(self.indent_stack@) =~= s1.indent.push(IndentV { prefix: pv, marker: None, is_list: false }));
                assert(pv =~= seq![("  "@, plain_style())]);
            },
            MdTag::List(idx) => {
                if self.list_indices.len() == 0 && self.needs_newline {
                    self.push_line(plain_line());
                }
                self.list_indices.push(*idx);
            },
            MdTag::Item => {
                self.start_item();
            },
            MdTag::Link(dest) => {
                self.link = Some(string_of(dest.as_str()));
            },
            MdTag::Emphasis => {
                self.push_inline(make_style(None, false, true, false, false));
            },
            MdTag::Strong => {
                self.push_inline(make_style(None, true, false, false, false));
            },
            MdTag::Strikethrough => {
                self.push_inline(make_style(None, false, false, false, true));
            },
            MdTag::Other => {},
        }
        assert(self@ =~= on_start(s, *tag));
    }

    fn on_end(&mut self, tag: MdTagEnd, hls: &Vec<Vec<MdLine>>)
        ensures
            final(self)@ == on_end(old(self)@, tag, hl_view(hls@)),
    {
        let ghost s = self@;
        match tag {
            MdTagEnd::Paragraph => {
                self.needs_newline = true;
                self.in_paragraph = false;
                self.pending_marker_line = false;
            },
            MdTagEnd::Heading => {
                self.pop_inline();
                self.needs_newline = true;
            },
            MdTagEnd::BlockQuote => {
                let _ = self.indent_stack.pop();
                self.needs_newline = true;
                assert(indents_view(self.indent_stack@) =~= drop_last_or_keep(s.indent));
            },
            MdTagEnd::CodeBlock => {
                self.end_codeblock(hls);
            },
            MdTagEnd::List => {
                let _ = self.list_indices.pop();
                self.needs_newline = true;
                assert(self.list_indices@ =~= drop_last_or_keep(s.lists));
            },
            MdTagEnd::Item => {
                self.flush();
                let ghost f = self@;
                let _ = self.indent_stack.pop();
                self.pending_marker_line = false;
                assert(indents_view(self.indent_stack@) =~= drop_last_or_keep(f.indent));
            },
            MdTagEnd::Link => {
                self.pop_link();
            },
            MdTagEnd::Emphasis | MdTagEnd::Strong | MdTagEnd::Strikethrough => {
                self.pop_inline();
            },
            MdTagEnd::Other => {},
        }
        assert(self@ =~= on_end(s, tag, hl_view(hls@)));
    }

    fn on_event(&mut self, e: &MdEvent, hls: &Vec<Vec<MdLine>>)
        ensures
            final(self)@ == on_event(old(self)@, *e, hl_view(hls@)),
    {
        let ghost s = self@;
        match e {
            MdEvent::Start(t) => self.on_start(t),
            MdEvent::End(t) => self.on_end(*t, hls),
            MdEvent::Text(t) => self.on_text(t.as_str()),
            MdEvent::Code(c) => self.push_span(span_of(c.as_str(), make_style(Some(MdColor::Cyan), false, false, false, false))),
            MdEvent::SoftBreak => self.push_line(plain_line()),
            MdEvent::HardBreak => self.push_line(plain_line()),
            MdEvent::Rule => {
                self.flush();
                if self.text.len() > 0 {
                    self.push_blank();
                }
                let rule = span_of("---", MdStyle::plain());
                let ghost rv = rule@;
                let line = MdLine { spans: vec![rule], style: MdStyle::plain() };
                assert(line@.0 =~= seq![rv]);
                self.push_line(line);
                self.needs_newline = true;
                assert(self@ =~= on_event(s, *e, hl_view(hls@)));
            },
            MdEvent::Other => {},
        }
    }
}

/// The lines of a code block when no syntax is known (see [`plain_lines`]).
pub(crate) fn plain_lines_of(code: &str) -> (r: Vec<MdLine>)
    ensures
        lines_view(r@) == plain_lines(code@),
{
    let ls = text_lines_of(code);
    let ghost lsv = ls@.map_values(|x: String| x@);
    let mut out: Vec<MdLine> = Vec::new();
    let mut k: usize = 0;
    while k < ls.len()
        invariant
            k <= ls@.len(),
            lsv == ls@.map_values(|x: String| x@),
            lines_view(out@) == plain_lines(code@).take(k as int),
            lsv == text_lines(code@),
        decreases ls@.len() - k,
    {
        let ghost before = out@;
        let spans = if ls[k].as_str().unicode_len() == 0 { Vec::new() } else { vec![span_of(ls[k].as_str(), MdStyle::plain())] };
        let line = MdLine { spans, style: MdStyle::plain() };
        assert(line@ =~= plain_lines(code@)[k as int]);
        let ghost lv = line@;
        out.push(line);
        assert(lines_view(out@) =~= lines_view(before).push(lv));
        k += 1;
        assert(lines_view(out@) =~= plain_lines(code@).take(k as int));
    }
    out
}

/// The lines of a Markdown document given as events, at `width` columns.
/// A code block with a language and some code is written as the next of
/// the `highlights`, in order (as plain lines once they run out).
pub fn render_events(events: &Vec<MdEvent>, width: u16, highlights: &Vec<Vec<MdLine>>) -> (r: Vec<MdLine>)
    ensures
        lines_view(r@) == rendered(events@, width, hl_view(highlights@)),
{
    let ghost hv = hl_view(highlights@);
    let mut w = Writer::new(width);
    let mut k: usize = 0;
    while k < events.len()
        invariant
            k <= events@.len(),
            hv == hl_view(highlights@),
            w@ == run_events(events@, width, hv, k as nat),
        decreases events@.len() - k,
    {
        w.on_event(&events[k], highlights);
        k += 1;
    }
    w.flush();
    if w.text.len() == 0 {
        let r = vec![plain_line()];
        assert(lines_view(r@) =~= seq![empty_line()]);
        r
    } else {
        w.text
    }
}

// ---------------------------------------------------------------------
// Parsing and rendering a Markdown text
// ---------------------------------------------------------------------

#[verifier::external_type_specification]
#[verifier::external_body]
pub struct ExTag<'a>(pulldown_cmark::Tag<'a>);

#[verifier::external_type_specification]
#[verifier::external_body]
pub struct ExTagEnd(pulldown_cmark::TagEnd);

/// A Markdown event as plain values: its tag, or the text of a text or
/// code event.
pub enum ParsedView {
    Start(MdTag),
    End(MdTagEnd),
    Text(Seq<char>),
    Code(Seq<char>),
    SoftBreak,
    HardBreak,
    Rule,
    Other,
}

/// The plain values of an event.
pub open spec fn event_view(e: MdEvent) -> ParsedView {
    match e {
        MdEvent::Start(t) => ParsedView::Start(t),
        MdEvent::End(t) => ParsedView::End(t),
        MdEvent::Text(t) => ParsedView::Text(t@),
        MdEvent::Code(t) => ParsedView::Code(t@),
        MdEvent::SoftBreak => ParsedView::SoftBreak,
        MdEvent::HardBreak => ParsedView::HardBreak,
        MdEvent::Rule => ParsedView::Rule,
        MdEvent::Other => ParsedView::Other,
    }
}

/// The events that `pulldown_cmark` gives for a Markdown text (strikethrough
/// enabled), each with its tag read (see [`read_tag`], [`read_tag_end`]),
/// as plain values.
pub uninterp spec fn parser_events(source: Seq<char>) -> Seq<ParsedView>;

/// `pulldown_cmark::Parser::new_ext` with strikethrough enabled, run to the
/// end: the events of a Markdown text, each tag read by [`read_tag`] or
/// [`read_tag_end`], the text of text and code events kept, every other
/// kind of event counted as `Other`.  The events, taken as plain values,
/// are claimed to be a function of the source alone (the parser and the
/// tag reading keep no other state); which events those are is left
/// unsaid.
#[verifier::external_body]
fn parse_events(source: &str) -> (r: Vec<MdEvent>)
    ensures
        r@.map_values(|e: MdEvent| event_view(e)) == parser_events(source@),
{
    pulldown_cmark::Parser::new_ext(source, pulldown_cmark::Options::ENABLE_STRIKETHROUGH).map(|e| match e {
        Event::Start(t) => MdEvent::Start(read_tag(&t)),
        Event::End(t) => MdEvent::End(read_tag_end(&t)),
        Event::Text(t) => MdEvent::Text(t.to_string()),
        Event::Code(t) => MdEvent::Code(t.to_string()),
        Event::SoftBreak => MdEvent::SoftBreak,
        Event::HardBreak => MdEvent::HardBreak,
        Event::Rule => MdEvent::Rule,
        _ => MdEvent::Other,
    }).collect()
}

/// Reads a `pulldown_cmark::Tag`: its kind, a heading's level, a fenced
/// code block's language, a list's first number, a link's destination.
/// Used by [`parse_events`], whose contract covers what it gives.
#[verifier::external_body]
fn read_tag(tag: &pulldown_cmark::Tag<'_>) -> MdTag {
    match tag {
        Tag::Paragraph => MdTag::Paragraph,
        Tag::Heading { level, .. } => MdTag::Heading(*level as u8),
        Tag::BlockQuote(_) => MdTag::BlockQuote,
        Tag::CodeBlock(CodeBlockKind::Fenced(lang)) => MdTag::CodeBlock(Some(lang.to_string())),
        Tag::CodeBlock(CodeBlockKind::Indented) => MdTag::CodeBlock(None),
        Tag::List(start) => MdTag::List(*start),
        Tag::Item => MdTag::Item,
        Tag::Link { dest_url, .. } => MdTag::Link(dest_url.to_string()),
        Tag::Emphasis => MdTag::Emphasis,
        Tag::Strong => MdTag::Strong,
        Tag::Strikethrough => MdTag::Strikethrough,
        _ => MdTag::Other,
    }
}

/// Reads a `pulldown_cmark::TagEnd`: the kind of element it closes.
/// Used by [`parse_events`], whose contract covers what it gives.
#[verifier::external_body]
fn read_tag_end(tag: &pulldown_cmark::TagEnd) -> MdTagEnd {
    match tag {
        TagEnd::Paragraph => MdTagEnd::Paragraph,
        TagEnd::Heading(_) => MdTagEnd::Heading,
        TagEnd::BlockQuote(_) => MdTagEnd::BlockQuote,
        TagEnd::CodeBlock => MdTagEnd::CodeBlock,
        TagEnd::List(_) => MdTagEnd::List,
        TagEnd::Item => MdTagEnd::Item,
        TagEnd::Link => MdTagEnd::Link,
        TagEnd::Emphasis => MdTagEnd::Emphasis,
        TagEnd::Strong => MdTagEnd::Strong,
        TagEnd::Strikethrough => MdTagEnd::Strikethrough,
        _ => MdTagEnd::Other,
    }
}

/// Whether a library event stands for a parsed one: the same kind with the
/// same tag, or the same text for a text or code event.
pub open spec fn reads_as(e: MdEvent, p: ParsedView) -> bool {
    event_view(e) == p
}

/// The events of a Markdown text (strikethrough enabled), as the parser
/// gives them: one for each, in order, each tag read by [`read_tag`] or
/// [`read_tag_end`].
fn parse_markdown(source: &str) -> (out: Vec<MdEvent>)
    ensures
        out@.len() == parser_events(source@).len(),
        forall|i: int| 0 <= i < out@.len() ==> reads_as(#[trigger] out@[i], parser_events(source@)[i]),
{
    let out = parse_events(source);
    assert forall|i: int| 0 <= i < out@.len() implies reads_as(#[trigger] out@[i], parser_events(source@)[i]) by {
        assert(out@.map_values(|e: MdEvent| event_view(e))[i] == event_view(out@[i]));
    }
    out
}

/// What the renderer knows of code blocks after the first `k` events:
/// whether one is open, its language, the code gathered so far, and the
/// blocks with a language and some code closed so far (language, code).
pub open spec fn code_scan(events: Seq<MdEvent>, k: nat) -> (bool, Option<Seq<char>>, Seq<char>, Seq<(Seq<char>, Seq<char>)>)
    decreases k,
{
    if k == 0 {
        (false, None, Seq::empty(), Seq::empty())
    } else {
        let (in_code, lang, buf, blocks) = code_scan(events, (k - 1) as nat);
        match events[k - 1] {
            MdEvent::Start(MdTag::CodeBlock(l)) => (
                true,
                match l {
                    Some(x) => Some(x@),
                    None => None,
                },
                Seq::empty(),
                blocks,
            ),
            MdEvent::End(MdTagEnd::CodeBlock) => (
                false,
                None,
                Seq::empty(),
                match lang {
                    Some(la) => if buf.len() > 0 { blocks.push((la, buf)) } else { blocks },
                    None => blocks,
                },
            ),
            MdEvent::Text(t) => if in_code { (in_code, lang, buf + t@, blocks) } else { (in_code, lang, buf, blocks) },
            _ => (in_code, lang, buf, blocks),
        }
    }
}

/// The code blocks of a document that get highlighted, in order: those
/// with a language and some code (language, code).
pub open spec fn code_blocks(events: Seq<MdEvent>) -> Seq<(Seq<char>, Seq<char>)> {
    code_scan(events, events.len()).3
}

/// The code blocks of a document that get highlighted (see [`code_blocks`]).
pub fn code_blocks_of(events: &Vec<MdEvent>) -> (r: Vec<(String, String)>)
    ensures
        r@.map_values(|b: (String, String)| (b.0@, b.1@)) == code_blocks(events@),
{
    let mut in_code = false;
    let mut lang: Option<String> = None;
    let mut buf = String::new();
    let mut blocks: Vec<(String, String)> = Vec::new();
    let mut k: usize = 0;
    while k < events.len()
        invariant
            k <= events@.len(),
            code_scan(events@, k as nat) == (
                in_code,
                match lang {
                    Some(x) => Some(x@),
                    None => None::<Seq<char>>,
                },
                buf@,
                blocks@.map_values(|b: (String, String)| (b.0@, b.1@)),
            ),
        decreases events@.len() - k,
    {
        let ghost before = blocks@;
        match &events[k] {
            MdEvent::Start(MdTag::CodeBlock(l)) => {
                in_code = true;
                lang = match l {
                    Some(x) => Some(string_of(x.as_str())),
                    None => None,
                };
                buf = String::new();
            },
            MdEvent::End(MdTagEnd::CodeBlock) => {
                match &lang {
                    Some(la) => {
                        if buf.as_str().unicode_len() > 0 {
                            blocks.push((string_of(la.as_str()), string_of(buf.as_str())));
                            assert(blocks@.map_values(|b: (String, String)| (b.0@, b.1@)) =~= before.map_values(
                                |b: (String, String)| (b.0@, b.1@),
                            ).push((la@, buf@)));
                        }
                    },
                    None => {},
                }
                in_code = false;
                lang = None;
                buf = String::new();
            },
            MdEvent::Text(t) => {
                if in_code {
                    push_str(&mut buf, t.as_str());
                }
            },
            _ => {},
        }
        k += 1;
    }
    blocks
}

/// What the highlighter gives for a code block in language `lang`: one
/// empty line for no code, plain lines for code too large to highlight,
/// and otherwise the block's lines for the bundled syntaxes (see
/// [`code_block_lines`]).
pub open spec fn highlight_ok(lang: Seq<char>, code: Seq<char>, lines: Seq<LineV>) -> bool {
    if code.len() == 0 {
        lines == seq![(Seq::<SpanV>::empty(), plain_style())]
    } else if too_large(code) {
        lines == plain_lines(code)
    } else {
        exists|t: Seq<(Seq<char>, Seq<Seq<char>>)>| is_bundled_table(t) && lines == #[trigger] code_block_lines(t, lang, code)
    }
}

/// Lines that render some Markdown events at `width` columns, each code
/// block with a language and some code highlighted as the highlighter may
/// give it.
pub open spec fn markdown_lines(width: u16, lines: Seq<LineV>) -> bool {
    exists|events: Seq<MdEvent>, hls: Seq<Seq<LineV>>|
        hls.len() == code_blocks(events).len() && (forall|k: int|
            0 <= k < hls.len() ==> highlight_ok(code_blocks(events)[k].0, #[trigger] code_blocks(events)[k].1, hls[k])) && lines == rendered(
            events,
            width,
            hls,
        )
}

/// Whether `events` stand, one for one and in order, for the events the
/// parser gives for `source` (see [`reads_as`]).
pub open spec fn reads_source(events: Seq<MdEvent>, source: Seq<char>) -> bool {
    &&& events.len() == parser_events(source).len()
    &&& forall|i: int| 0 <= i < events.len() ==> reads_as(#[trigger] events[i], parser_events(source)[i])
}

/// Lines that render, at `width` columns, events that stand for those the
/// parser gives for `source`, each code block with a language and some
/// code highlighted as the highlighter may give it.
pub open spec fn source_lines(source: Seq<char>, width: u16, lines: Seq<LineV>) -> bool {
    exists|events: Seq<MdEvent>, hls: Seq<Seq<LineV>>|
        reads_source(events, source) && hls.len() == code_blocks(events).len() && (forall|k: int|
            0 <= k < hls.len() ==> highlight_ok(code_blocks(events)[k].0, #[trigger] code_blocks(events)[k].1, hls[k])) && lines == rendered(
            events,
            width,
            hls,
        )
}

/// A Markdown text as lines of `width` columns: the lines of the events the
/// parser gives (see [`render_events`]), each code block with a language
/// and some code highlighted (see [`highlight_code_to_lines`]).
pub fn render_markdown(source: &str, width: u16) -> (r: Vec<MdLine>)
    ensures
        source_lines(source@, width, lines_view(r@)),
        markdown_lines(width, lines_view(r@)),
        r@.len() >= 1,
{
    let events = parse_markdown(source);
    let blocks = code_blocks_of(&events);
    let ghost bv = blocks@.map_values(|b: (String, String)| (b.0@, b.1@));
    let mut highlights: Vec<Vec<MdLine>> = Vec::new();
    let mut k: usize = 0;
    while k < blocks.len()
        invariant
            k <= blocks@.len(),
            bv == blocks@.map_values(|b: (String, String)| (b.0@, b.1@)),
            bv == code_blocks(events@),
            highlights@.len() == k,
            forall|j: int| 0 <= j < k ==> highlight_ok(bv[j].0, #[trigger] bv[j].1, hl_view(highlights@)[j]),
        decreases blocks@.len() - k,
    {
        let lines = highlight_code_to_lines(blocks[k].1.as_str(), blocks[k].0.as_str());
        let ghost lv = lines_view(lines@);
        let ghost lang = bv[k as int].0;
        let ghost code = bv[k as int].1;
        assert(lang == blocks@[k as int].0@ && code == blocks@[k as int].1@);
        proof {
            if code.len() > 0 && !too_large(code) {
                let t = choose|t: Seq<(Seq<char>, Seq<Seq<char>>)>| is_bundled_table(t);
                assert(lv == code_block_lines(t, lang, code));
            }
        }
        assert(highlight_ok(lang, code, lv));
        let ghost before = highlights@;
        highlights.push(lines);
        assert(hl_view(highlights@)[k as int] == lv);
        assert forall|j: int| 0 <= j < k implies hl_view(highlights@)[j] == hl_view(before)[j] by {}
        k += 1;
    }
    let r = render_events(&events, width, &highlights);
    assert(hl_view(highlights@).len() == code_blocks(events@).len());
    assert(reads_source(events@, source@));
    assert(lines_view(r@).len() >= 1);
    r
}

// ---------------------------------------------------------------------
// Wrapping, flattening and slicing one line
// ---------------------------------------------------------------------

pub open spec fn line_rows(v: Seq<MdLine>) -> Seq<Seq<SpanV>> {
    v.map_values(|l: MdLine| spans_view(l.spans@))
}

/// A line broken to `width` columns: the first piece after the `initial`
/// spans, the others after the `subsequent` ones (see [`wrap_spans`]).  The
/// pieces have no style of their own; a line kept whole (width zero, no
/// text) keeps its style.
pub fn word_wrap_line_with_indent(line: &MdLine, width: usize, initial: &Vec<MdSpan>, subsequent: &Vec<MdSpan>) -> (r: Vec<MdLine>)
    ensures
        line_rows(r@) == wrap_spans(spans_view(line.spans@), width as nat, spans_view(initial@), spans_view(subsequent@)),
        forall|i: int|
            0 <= i < r@.len() ==> (#[trigger] r@[i]).style == if width == 0 || flat_text(spans_view(line.spans@)).len() == 0 {
                line.style
            } else {
                plain_style()
            },
{
    let rows = wrap_line(&line.spans, width, initial, subsequent);
    let flat = flatten(&line.spans);
    let style = if width == 0 || flat.len() == 0 { line.style } else { MdStyle::plain() };
    let mut out: Vec<MdLine> = Vec::new();
    let mut i: usize = 0;
    while i < rows.len()
        invariant
            i <= rows@.len(),
            line_rows(out@) == rows_view(rows@).take(i as int),
            forall|j: int| 0 <= j < out@.len() ==> (#[trigger] out@[j]).style == style,
        decreases rows@.len() - i,
    {
        let ghost before = out@;
        let l = MdLine { spans: copy_spans(&rows[i]), style };
        let ghost lv = spans_view(l.spans@);
        out.push(l);
        i += 1;
        assert(line_rows(out@) =~= line_rows(before).push(lv));
        assert(line_rows(out@) =~= rows_view(rows@).take(i as int));
    }
    assert(rows_view(rows@).take(rows@.len() as int) =~= rows_view(rows@));
    out
}

/// Where each span of a line starts and ends in the line's text, with its
/// style.
pub open spec fn span_bounds(spans: Seq<SpanV>) -> Seq<(usize, usize, MdStyle)> {
    Seq::new(
        spans.len(),
        |i: int| (flat_text(spans.take(i)).len() as usize, flat_text(spans.take(i + 1)).len() as usize, spans[i].1),
    )
}

/// A line's text, and where each of its spans lies in it.
pub fn flatten_line(line: &MdLine) -> (r: (String, Vec<(usize, usize, MdStyle)>))
    ensures
        r.0@ == flat_text(spans_view(line.spans@)),
        r.1@ == span_bounds(spans_view(line.spans@)),
{
    let ghost sv = spans_view(line.spans@);
    let flat = flatten(&line.spans);
    let total: usize = flat.len();
    let mut bounds: Vec<(usize, usize, MdStyle)> = Vec::new();
    let mut acc: usize = 0;
    let mut i: usize = 0;
    while i < line.spans.len()
        invariant
            i <= line.spans@.len(),
            sv == spans_view(line.spans@),
            flat@ == flat_text(sv),
            total as int == flat@.len(),
            acc as int == flat_text(sv.take(i as int)).len(),
            bounds@ == span_bounds(sv).take(i as int),
        decreases line.spans@.len() - i,
    {
        let n = line.spans[i].content.as_str().unicode_len();
        proof {
            assert(sv.take(i + 1).drop_last() =~= sv.take(i as int));
            lemma_flat_text_take(sv, i + 1);
        }
        let end = acc + n;
        bounds.push((acc, end, line.spans[i].style));
        acc = end;
        i += 1;
        assert(bounds@ =~= span_bounds(sv).take(i as int));
    }
    assert(span_bounds(sv).take(line.spans@.len() as int) =~= span_bounds(sv));
    assert(flat@.subrange(0, flat@.len() as int) =~= flat@);
    (string_from_chars(&flat, 0, flat.len()), bounds)
}

/// The characters `[start, end)` of a line, each in its span's style, given
/// the line's span bounds (as [`flatten_line`] gives them).
pub fn slice_line_spans(line: &MdLine, bounds: &Vec<(usize, usize, MdStyle)>, start: usize, end: usize) -> (r: MdLine)
    requires
        bounds@ == span_bounds(spans_view(line.spans@)),
    ensures
        spans_view(r.spans@) == slice_spans(spans_view(line.spans@), start as int, end as int),
        r.style == line.style,
{
    let flat = flatten(&line.spans);
    let _total: usize = flat.len();
    MdLine { spans: slice_line(&line.spans, start, end), style: line.style }
}

} // verus!
