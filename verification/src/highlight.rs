//! Highlighting of Markdown code blocks: the language a block names is
//! matched to a syntax of the bundled set, the code is cut into lines that
//! keep their endings, and each highlighted piece of a line becomes a styled
//! span.  The syntax set, the lookups and the highlighter are those of the
//! `syntect` and `two-face` crates.
use vstd::prelude::*;
use crate::markdown::{lines_view, plain_lines, plain_style, spans_view, LineV, MdColor, MdLine, MdSpan, MdStyle, SpanV};
use crate::text::{chars_of, push_char, string_from_chars, string_of};
use crate::xdiff::{text_lines, text_lines_of};

verus! {

/// The style of a highlighted piece as plain values: the red, green, blue
/// and alpha of its foreground colour, and the bits of its font style.
#[derive(Debug, Clone, Copy, PartialEq, Eq, Structural)]
pub struct SynStyle {
    pub r: u8,
    pub g: u8,
    pub b: u8,
    pub a: u8,
    pub font: u8,
}

/// The `i`-th syntax of the set that `two_face::syntax::extra_newlines`
/// builds from its compiled-in data, as its name and the file extensions
/// it is for; nothing past the last one.
pub uninterp spec fn bundled_syntax(i: nat) -> Option<(Seq<char>, Seq<Seq<char>>)>;

/// What highlighting `lines` one after the other (each with its line
/// ending) gives, with the `syntax`-th syntax of that set and the theme
/// named `theme` of `ThemeSet::load_defaults`: for each line its pieces,
/// or nothing when the syntax's patterns failed on it; nothing at all when
/// there is no such syntax or theme.
pub uninterp spec fn bundled_highlight(
    syntax: nat,
    theme: Seq<char>,
    lines: Seq<Seq<char>>,
) -> Option<Seq<Option<Seq<(SynStyle, Seq<char>)>>>>;

/// Whether `t` lists the bundled syntaxes, all of them, in order.
pub open spec fn is_bundled_table(t: Seq<(Seq<char>, Seq<Seq<char>>)>) -> bool {
    &&& forall|i: int| 0 <= i < t.len() ==> bundled_syntax(i as nat) == Some(#[trigger] t[i])
    &&& bundled_syntax(t.len()) is None
}

/// The plain values of a syntax table.
pub open spec fn entries_view(v: Seq<(String, Vec<String>)>) -> Seq<(Seq<char>, Seq<Seq<char>>)> {
    v.map_values(|e: (String, Vec<String>)| (e.0@, e.1@.map_values(|x: String| x@)))
}

/// `two_face::syntax::extra_newlines`, read as the name and the file
/// extensions of each syntax, in the set's order.  The contract claims that
/// this table is the fixed bundled one (it is built from data compiled into
/// `two-face`); what it holds is left unsaid.
#[verifier::external_body]
fn bundled_syntax_table() -> (r: Vec<(String, Vec<String>)>)
    ensures
        forall|i: int| 0 <= i < r@.len() ==> bundled_syntax(i as nat) == Some(#[trigger] entries_view(r@)[i]),
        bundled_syntax(r@.len() as nat) is None,
{
    two_face::syntax::extra_newlines().syntaxes().iter().map(|s| (s.name.clone(), s.file_extensions.clone())).collect()
}

/// The plain values of what the highlighter gave for all lines.
pub open spec fn all_pieces_view(
    r: Option<Vec<Option<Vec<(SynStyle, String)>>>>,
) -> Option<Seq<Option<Seq<(SynStyle, Seq<char>)>>>> {
    match r {
        Some(v) => Some(v@.map_values(|p: Option<Vec<(SynStyle, String)>>| pieces_view(p))),
        None => None,
    }
}

/// `HighlightLines::new` for the `syntax`-th bundled syntax and the theme
/// named `theme`, then `HighlightLines::highlight_line` on each line in
/// turn, each piece's style read as its foreground colour and font bits.
/// The contract names the outcome (see [`bundled_highlight`]) and claims
/// one line of outcome per line given.
#[verifier::external_body]
fn highlight_with_bundled(syntax: usize, theme: &str, lines: &Vec<String>) -> (r: Option<Vec<Option<Vec<(SynStyle, String)>>>>)
    ensures
        all_pieces_view(r) == bundled_highlight(syntax as nat, theme@, lines@.map_values(|l: String| l@)),
        r matches Some(v) ==> v@.len() == lines@.len(),
{
    let ss = two_face::syntax::extra_newlines();
    let themes = syntect::highlighting::ThemeSet::load_defaults();
    let mut h = syntect::easy::HighlightLines::new(ss.syntaxes().get(syntax)?, themes.themes.get(theme)?);
    Some(lines.iter().map(|l| match h.highlight_line(l, &ss) {
        Ok(rs) => Some(rs.into_iter().map(|(st, t)| {
            let c = st.foreground;
            (SynStyle { r: c.r, g: c.g, b: c.b, a: c.a, font: st.font_style.bits() }, t.to_string())
        }).collect()),
        Err(_) => None,
    }).collect())
}

// ---------------------------------------------------------------------
// Languages
// ---------------------------------------------------------------------

pub open spec fn ascii_lower(c: char) -> char {
    if 'A' <= c <= 'Z' {
        ((c as int) + 32) as char
    } else {
        c
    }
}

pub open spec fn ascii_lowercase(s: Seq<char>) -> Seq<char> {
    s.map_values(|c: char| ascii_lower(c))
}

fn lower_char(c: char) -> (r: char)
    ensures
        r == ascii_lower(c),
{
    if 'A' <= c && c <= 'Z' {
        let b: u8 = c as u8;
        let l: u8 = b + 32;
        l as char
    } else {
        c
    }
}

/// The text with its ASCII capitals made small.
pub fn ascii_lowercase_of(s: &str) -> (r: String)
    ensures
        r@ == ascii_lowercase(s@),
{
    let cs = chars_of(s);
    let mut r = String::new();
    let mut i: usize = 0;
    while i < cs.len()
        invariant
            i <= cs@.len(),
            cs@ == s@,
            r@ == ascii_lowercase(s@.take(i as int)),
        decreases cs@.len() - i,
    {
        push_char(&mut r, lower_char(cs[i]));
        i += 1;
        assert(ascii_lowercase(s@.take(i as int)) =~= ascii_lowercase(s@.take(i - 1)).push(ascii_lower(s@[i - 1])));
    }
    assert(s@.take(s@.len() as int) =~= s@);
    r
}

/// The token looked up for a code block's language: a few common aliases
/// (`csharp`, `c-sharp`, `cppm`, `cxxm`, `ixx`, `golang`, `python3`,
/// `shell`, in any ASCII case) are replaced by the names the syntaxes know;
/// any other language is kept as written.
pub open spec fn syntax_token(lang: Seq<char>) -> Seq<char> {
    let n = ascii_lowercase(lang);
    if n == "csharp"@ || n == "c-sharp"@ {
        "c#"@
    } else if n == "cppm"@ || n == "cxxm"@ || n == "ixx"@ {
        "cpp"@
    } else if n == "golang"@ {
        "go"@
    } else if n == "python3"@ {
        "python"@
    } else if n == "shell"@ {
        "bash"@
    } else {
        lang
    }
}

fn same_text(a: &str, b: &str) -> (r: bool)
    ensures
        r == (a@ == b@),
{
    let x = chars_of(a);
    let y = chars_of(b);
    if x.len() != y.len() {
        return false;
    }
    let mut i: usize = 0;
    while i < x.len()
        invariant
            i <= x@.len(),
            x@.len() == y@.len(),
            x@ == a@,
            y@ == b@,
            forall|j: int| 0 <= j < i ==> x@[j] == y@[j],
        decreases x@.len() - i,
    {
        if x[i] != y[i] {
            return false;
        }
        i += 1;
    }
    assert(x@ =~= y@);
    true
}

/// The token looked up for a code block's language (see [`syntax_token`]).
pub fn syntax_token_of(lang: &str) -> (r: String)
    ensures
        r@ == syntax_token(lang@),
{
    let n = ascii_lowercase_of(lang);
    let t = n.as_str();
    proof {
        reveal_strlit("csharp");
        reveal_strlit("c-sharp");
        reveal_strlit("cppm");
        reveal_strlit("cxxm");
        reveal_strlit("ixx");
        reveal_strlit("golang");
        reveal_strlit("python3");
        reveal_strlit("shell");
    }
    if same_text(t, "csharp") || same_text(t, "c-sharp") {
        string_of("c#")
    } else if same_text(t, "cppm") || same_text(t, "cxxm") || same_text(t, "ixx") {
        string_of("cpp")
    } else if same_text(t, "golang") {
        string_of("go")
    } else if same_text(t, "python3") {
        string_of("python")
    } else if same_text(t, "shell") {
        string_of("bash")
    } else {
        string_of(lang)
    }
}

/// ASCII case-insensitive equality of two texts.
pub open spec fn same_ignoring_case(a: Seq<char>, b: Seq<char>) -> bool {
    ascii_lowercase(a) == ascii_lowercase(b)
}

/// Whether one of the extensions `exts` equals `x`, ignoring ASCII case.
pub open spec fn has_extension(exts: Seq<Seq<char>>, x: Seq<char>) -> bool {
    exists|k: int| 0 <= k < exts.len() && same_ignoring_case(#[trigger] exts[k], x)
}

/// The last of the first `n` syntaxes with extension `x` (ignoring ASCII
/// case): `SyntaxSet::find_syntax_by_extension` on the first `n`.
pub open spec fn last_with_extension(t: Seq<(Seq<char>, Seq<Seq<char>>)>, x: Seq<char>, n: nat) -> Option<nat>
    decreases n,
{
    if n == 0 {
        None
    } else if has_extension(t[n - 1].1, x) {
        Some((n - 1) as nat)
    } else {
        last_with_extension(t, x, (n - 1) as nat)
    }
}

/// The last of the first `n` syntaxes named `name` (exactly, or ignoring
/// ASCII case when `ic`): `SyntaxSet::find_syntax_by_name`, and the name
/// part of `SyntaxSet::find_syntax_by_token`.
pub open spec fn last_with_name(t: Seq<(Seq<char>, Seq<Seq<char>>)>, name: Seq<char>, ic: bool, n: nat) -> Option<nat>
    decreases n,
{
    if n == 0 {
        None
    } else if (if ic { same_ignoring_case(t[n - 1].0, name) } else { t[n - 1].0 == name }) {
        Some((n - 1) as nat)
    } else {
        last_with_name(t, name, ic, (n - 1) as nat)
    }
}

/// The first syntax from the `i`-th on whose ASCII-lowercase name is `lower`.
pub open spec fn first_with_lower_name(t: Seq<(Seq<char>, Seq<Seq<char>>)>, lower: Seq<char>, i: nat) -> Option<nat>
    decreases t.len() - i,
{
    if i >= t.len() {
        None
    } else if ascii_lowercase(t[i as int].0) == lower {
        Some(i)
    } else {
        first_with_lower_name(t, lower, i + 1)
    }
}

/// `SyntaxSet::find_syntax_by_token`: by extension first, then by name
/// ignoring ASCII case, the last match each time.
pub open spec fn by_token(t: Seq<(Seq<char>, Seq<Seq<char>>)>, s: Seq<char>) -> Option<nat> {
    match last_with_extension(t, s, t.len()) {
        Some(i) => Some(i),
        None => last_with_name(t, s, true, t.len()),
    }
}

/// The syntax for a code block's language among `t`: looked up by the
/// token (see [`syntax_token`]), then by name, then by a name equal to it in
/// ASCII lowercase, and last by the language as a file extension.
pub open spec fn syntax_lookup(t: Seq<(Seq<char>, Seq<Seq<char>>)>, lang: Seq<char>) -> Option<nat> {
    let tok = syntax_token(lang);
    match by_token(t, tok) {
        Some(i) => Some(i),
        None => match last_with_name(t, tok, false, t.len()) {
            Some(i) => Some(i),
            None => match first_with_lower_name(t, ascii_lowercase(tok), 0) {
                Some(i) => Some(i),
                None => last_with_extension(t, lang, t.len()),
            },
        },
    }
}

fn same_ignoring_case_of(a: &str, b: &str) -> (r: bool)
    ensures
        r == same_ignoring_case(a@, b@),
{
    let x = ascii_lowercase_of(a);
    let y = ascii_lowercase_of(b);
    same_text(x.as_str(), y.as_str())
}

fn find_last_extension(t: &Vec<(String, Vec<String>)>, x: &str) -> (r: Option<usize>)
    ensures
        match r {
            Some(i) => last_with_extension(entries_view(t@), x@, t@.len() as nat) == Some(i as nat),
            None => last_with_extension(entries_view(t@), x@, t@.len() as nat) is None,
        },
{
    let ghost tv = entries_view(t@);
    let mut n: usize = t.len();
    while n > 0
        invariant
            n <= t@.len(),
            tv == entries_view(t@),
            last_with_extension(tv, x@, t@.len() as nat) == last_with_extension(tv, x@, n as nat),
        decreases n,
    {
        let exts = &t[n - 1].1;
        let ghost ev = tv[n - 1].1;
        assert(ev == exts@.map_values(|e: String| e@));
        let mut k: usize = 0;
        while k < exts.len()
            invariant
                0 < n <= t@.len(),
                tv == entries_view(t@),
                ev == tv[n - 1].1,
                last_with_extension(tv, x@, t@.len() as nat) == last_with_extension(tv, x@, n as nat),
                k <= exts@.len(),
                ev == exts@.map_values(|e: String| e@),
                forall|j: int| 0 <= j < k ==> !same_ignoring_case(ev[j], x@),
            decreases exts@.len() - k,
        {
            if same_ignoring_case_of(exts[k].as_str(), x) {
                assert(same_ignoring_case(ev[k as int], x@));
                assert(has_extension(ev, x@));
                return Some(n - 1);
            }
            k += 1;
        }
        assert(!has_extension(ev, x@));
        n -= 1;
    }
    None
}

fn find_last_name(t: &Vec<(String, Vec<String>)>, name: &str, ic: bool) -> (r: Option<usize>)
    ensures
        match r {
            Some(i) => last_with_name(entries_view(t@), name@, ic, t@.len() as nat) == Some(i as nat),
            None => last_with_name(entries_view(t@), name@, ic, t@.len() as nat) is None,
        },
{
    let ghost tv = entries_view(t@);
    let mut n: usize = t.len();
    while n > 0
        invariant
            n <= t@.len(),
            tv == entries_view(t@),
            last_with_name(tv, name@, ic, t@.len() as nat) == last_with_name(tv, name@, ic, n as nat),
        decreases n,
    {
        let nm = t[n - 1].0.as_str();
        assert(tv[n - 1].0 == nm@);
        let hit = if ic { same_ignoring_case_of(nm, name) } else { same_text(nm, name) };
        if hit {
            return Some(n - 1);
        }
        n -= 1;
    }
    None
}

fn find_first_lower_name(t: &Vec<(String, Vec<String>)>, lower: &str) -> (r: Option<usize>)
    ensures
        match r {
            Some(i) => first_with_lower_name(entries_view(t@), lower@, 0) == Some(i as nat),
            None => first_with_lower_name(entries_view(t@), lower@, 0) is None,
        },
{
    let ghost tv = entries_view(t@);
    let mut i: usize = 0;
    while i < t.len()
        invariant
            i <= t@.len(),
            tv == entries_view(t@),
            first_with_lower_name(tv, lower@, 0) == first_with_lower_name(tv, lower@, i as nat),
        decreases t@.len() - i,
    {
        let nm = ascii_lowercase_of(t[i].0.as_str());
        assert(tv[i as int].0 == t[i as int].0@);
        if same_text(nm.as_str(), lower) {
            return Some(i);
        }
        i += 1;
    }
    None
}

/// The syntax for a code block's language among the syntaxes `t` (see
/// [`syntax_lookup`]).
fn find_syntax(t: &Vec<(String, Vec<String>)>, lang: &str) -> (r: Option<usize>)
    ensures
        match r {
            Some(i) => syntax_lookup(entries_view(t@), lang@) == Some(i as nat),
            None => syntax_lookup(entries_view(t@), lang@) is None,
        },
{
    let token = syntax_token_of(lang);
    if let Some(i) = find_last_extension(t, token.as_str()) {
        return Some(i);
    }
    if let Some(i) = find_last_name(t, token.as_str(), true) {
        return Some(i);
    }
    if let Some(i) = find_last_name(t, token.as_str(), false) {
        return Some(i);
    }
    let lower = ascii_lowercase_of(token.as_str());
    if let Some(i) = find_first_lower_name(t, lower.as_str()) {
        return Some(i);
    }
    find_last_extension(t, lang)
}

// ---------------------------------------------------------------------
// Lines and styles
// ---------------------------------------------------------------------

/// The index of the first `\n` of `s`, or its length.
pub open spec fn newline_at(s: Seq<char>) -> int
    decreases s.len(),
{
    if s.len() == 0 {
        0
    } else if s[0] == '\n' {
        0
    } else {
        1 + newline_at(s.drop_first())
    }
}

/// The lines of `s`, each with its `\n` (the last one may have none).
pub open spec fn lines_with_endings(s: Seq<char>) -> Seq<Seq<char>>
    decreases s.len(),
{
    if s.len() == 0 {
        Seq::empty()
    } else {
        let k = newline_at(s);
        let end = if k < s.len() { k + 1 } else { k };
        proof {
            lemma_newline_at_bound(s);
        }
        seq![s.take(end)] + lines_with_endings(s.skip(end))
    }
}

pub proof fn lemma_newline_at_bound(s: Seq<char>)
    ensures
        0 <= newline_at(s) <= s.len(),
        newline_at(s) < s.len() ==> s[newline_at(s)] == '\n',
        forall|j: int| 0 <= j < newline_at(s) ==> s[j] != '\n',
    decreases s.len(),
{
    if s.len() > 0 && s[0] != '\n' {
        lemma_newline_at_bound(s.drop_first());
        assert forall|j: int| 0 <= j < newline_at(s) implies s[j] != '\n' by {
            if j > 0 {
                assert(s[j] == s.drop_first()[j - 1]);
            }
        }
    }
}

proof fn lemma_newline_at_is(s: Seq<char>, k: int)
    requires
        0 <= k <= s.len(),
        forall|j: int| 0 <= j < k ==> s[j] != '\n',
        k == s.len() || s[k] == '\n',
    ensures
        newline_at(s) == k,
    decreases s.len(),
{
    if s.len() > 0 && k > 0 {
        lemma_newline_at_is(s.drop_first(), k - 1);
    }
}

/// The lines of a text, each with its `\n` (see [`lines_with_endings`]).
fn lines_with_endings_of(s: &str) -> (r: Vec<String>)
    ensures
        r@.map_values(|l: String| l@) == lines_with_endings(s@),
{
    let cs = chars_of(s);
    let ghost full = s@;
    let mut out: Vec<String> = Vec::new();
    let mut start: usize = 0;
    let mut i: usize = 0;
    assert(full.skip(0) =~= full);
    while start < cs.len()
        invariant
            start <= cs@.len(),
            cs@ == full,
            out@.map_values(|l: String| l@) + lines_with_endings(full.skip(start as int)) == lines_with_endings(full),
        decreases cs@.len() - start,
    {
        let ghost rest = full.skip(start as int);
        let mut j: usize = start;
        while j < cs.len() && cs[j] != '\n'
            invariant
                start <= j <= cs@.len(),
                cs@ == full,
                forall|m: int| start <= m < j ==> full[m] != '\n',
            decreases cs@.len() - j,
        {
            j += 1;
        }
        let end: usize = if j < cs.len() { j + 1 } else { j };
        proof {
            lemma_newline_at_is(rest, j - start);
            assert(rest.take(end - start) =~= full.subrange(start as int, end as int));
            assert(rest.skip(end - start) =~= full.skip(end as int));
            assert(lines_with_endings(rest) == seq![rest.take(end - start)] + lines_with_endings(rest.skip(end - start)));
        }
        let line = string_from_chars(&cs, start, end);
        let ghost before = out@.map_values(|l: String| l@);
        out.push(line);
        assert(out@.map_values(|l: String| l@) =~= before.push(full.subrange(start as int, end as int)));
        assert(out@.map_values(|l: String| l@) + lines_with_endings(full.skip(end as int)) =~= before + lines_with_endings(rest));
        start = end;
    }
    assert(full.skip(start as int) =~= Seq::<char>::empty());
    assert(out@.map_values(|l: String| l@) + Seq::<Seq<char>>::empty() =~= out@.map_values(|l: String| l@));
    out
}

/// The text without its trailing `\n` and `\r` characters.
pub open spec fn trim_line_end(s: Seq<char>) -> Seq<char>
    decreases s.len(),
{
    if s.len() > 0 && (s.last() == '\n' || s.last() == '\r') {
        trim_line_end(s.drop_last())
    } else {
        s
    }
}

fn trim_line_end_of(s: &str) -> (r: String)
    ensures
        r@ == trim_line_end(s@),
{
    let cs = chars_of(s);
    let mut n: usize = cs.len();
    assert(s@.take(s@.len() as int) =~= s@);
    while n > 0 && (cs[n - 1] == '\n' || cs[n - 1] == '\r')
        invariant
            n <= cs@.len(),
            cs@ == s@,
            trim_line_end(s@) == trim_line_end(s@.take(n as int)),
        decreases n,
    {
        assert(s@.take(n as int).drop_last() =~= s@.take(n - 1));
        n -= 1;
    }
    assert(s@.take(n as int) =~= cs@.subrange(0, n as int));
    string_from_chars(&cs, 0, n)
}

/// The terminal colour of a palette index: the first eight named, the
/// others by number.
pub open spec fn palette_color(i: u8) -> MdColor {
    if i == 0 {
        MdColor::Black
    } else if i == 1 {
        MdColor::Red
    } else if i == 2 {
        MdColor::Green
    } else if i == 3 {
        MdColor::Yellow
    } else if i == 4 {
        MdColor::Blue
    } else if i == 5 {
        MdColor::Magenta
    } else if i == 6 {
        MdColor::Cyan
    } else if i == 7 {
        MdColor::Gray
    } else {
        MdColor::Indexed(i)
    }
}

/// The colour a highlighter colour stands for: alpha 0 names a palette
/// entry (in red), alpha 1 the terminal's own colour, any other alpha the
/// red, green and blue given.
pub open spec fn syn_color(st: SynStyle) -> Option<MdColor> {
    if st.a == 0 {
        Some(palette_color(st.r))
    } else if st.a == 1 {
        None
    } else {
        Some(MdColor::Rgb(st.r, st.g, st.b))
    }
}

/// The style of a highlighted piece: its colour, and bold when the font
/// style's bold bit is set.
pub open spec fn syn_style(st: SynStyle) -> MdStyle {
    MdStyle { fg: syn_color(st), bold: st.font % 2 == 1, italic: false, underlined: false, crossed_out: false }
}

fn palette_color_of(i: u8) -> (r: MdColor)
    ensures
        r == palette_color(i),
{
    if i == 0 {
        MdColor::Black
    } else if i == 1 {
        MdColor::Red
    } else if i == 2 {
        MdColor::Green
    } else if i == 3 {
        MdColor::Yellow
    } else if i == 4 {
        MdColor::Blue
    } else if i == 5 {
        MdColor::Magenta
    } else if i == 6 {
        MdColor::Cyan
    } else if i == 7 {
        MdColor::Gray
    } else {
        MdColor::Indexed(i)
    }
}

/// The style of a highlighted piece (see [`syn_style`]).
pub fn syn_style_of(st: SynStyle) -> (r: MdStyle)
    ensures
        r == syn_style(st),
{
    let fg = if st.a == 0 {
        Some(palette_color_of(st.r))
    } else if st.a == 1 {
        None
    } else {
        Some(MdColor::Rgb(st.r, st.g, st.b))
    };
    MdStyle { fg, bold: st.font % 2 == 1, italic: false, underlined: false, crossed_out: false }
}

/// The spans of a highlighted line: each piece without its line ending,
/// in its style, leaving out pieces left empty; one empty span when none
/// is left.
pub open spec fn piece_spans(pieces: Seq<(SynStyle, Seq<char>)>) -> Seq<SpanV> {
    let kept = piece_scan(pieces, pieces.len());
    if kept.len() == 0 {
        seq![(Seq::<char>::empty(), plain_style())]
    } else {
        kept
    }
}

pub open spec fn piece_scan(pieces: Seq<(SynStyle, Seq<char>)>, k: nat) -> Seq<SpanV>
    decreases k,
{
    if k == 0 {
        Seq::empty()
    } else {
        let t = trim_line_end(pieces[k - 1].1);
        let prev = piece_scan(pieces, (k - 1) as nat);
        if t.len() == 0 {
            prev
        } else {
            prev.push((t, syn_style(pieces[k - 1].0)))
        }
    }
}

/// A line of code as a displayed line: its highlighted pieces when the
/// highlighter gave some, otherwise the line itself, unstyled, without its
/// ending (no span when nothing is left).
pub open spec fn highlighted_line(line: Seq<char>, pieces: Option<Seq<(SynStyle, Seq<char>)>>) -> LineV {
    match pieces {
        Some(p) => (piece_spans(p), plain_style()),
        None => {
            let t = trim_line_end(line);
            (if t.len() == 0 { Seq::<SpanV>::empty() } else { seq![(t, plain_style())] }, plain_style())
        },
    }
}

/// The displayed lines of highlighted code: one per line of the code with
/// its ending, from what the highlighter gave for it; one empty line when
/// there is none.
pub open spec fn highlighted_lines(code: Seq<char>, got: Seq<Option<Seq<(SynStyle, Seq<char>)>>>) -> Seq<LineV> {
    let ls = lines_with_endings(code);
    if ls.len() == 0 {
        seq![(Seq::<SpanV>::empty(), plain_style())]
    } else {
        Seq::new(ls.len(), |i: int| highlighted_line(ls[i], got[i]))
    }
}

pub open spec fn pieces_view(p: Option<Vec<(SynStyle, String)>>) -> Option<Seq<(SynStyle, Seq<char>)>> {
    match p {
        Some(v) => Some(v@.map_values(|x: (SynStyle, String)| (x.0, x.1@))),
        None => None,
    }
}

fn highlighted_line_of(line: &str, pieces: &Option<Vec<(SynStyle, String)>>) -> (r: MdLine)
    ensures
        r@ == highlighted_line(line@, pieces_view(*pieces)),
{
    let ghost pv = pieces_view(*pieces);
    match pieces {
        Some(p) => {
            let ghost ps = p@.map_values(|x: (SynStyle, String)| (x.0, x.1@));
            let mut spans: Vec<MdSpan> = Vec::new();
            let mut i: usize = 0;
            while i < p.len()
                invariant
                    i <= p@.len(),
                    ps == p@.map_values(|x: (SynStyle, String)| (x.0, x.1@)),
                    spans_view(spans@) == piece_scan(ps, i as nat),
                decreases p@.len() - i,
            {
                let t = trim_line_end_of(p[i].1.as_str());
                if t.as_str().unicode_len() > 0 {
                    let ghost before = spans@;
                    let sp = MdSpan { content: t, style: syn_style_of(p[i].0) };
                    let ghost sv = sp@;
                    spans.push(sp);
                    assert(spans_view(spans@) =~= spans_view(before).push(sv));
                }
                i += 1;
            }
            if spans.len() == 0 {
                spans.push(MdSpan { content: String::new(), style: MdStyle::plain() });
                assert(spans_view(spans@) =~= seq![(Seq::<char>::empty(), plain_style())]);
            }
            MdLine { spans, style: MdStyle::plain() }
        },
        None => {
            let t = trim_line_end_of(line);
            let spans = if t.as_str().unicode_len() == 0 {
                Vec::new()
            } else {
                vec![MdSpan { content: t, style: MdStyle::plain() }]
            };
            let r = MdLine { spans, style: MdStyle::plain() };
            assert(r@.0 =~= highlighted_line(line@, pv).0);
            r
        },
    }
}

// ---------------------------------------------------------------------
// Code blocks
// ---------------------------------------------------------------------

/// The bytes a character takes in UTF-8.
pub open spec fn utf8_width(c: char) -> nat {
    if (c as u32) < 0x80 {
        1
    } else if (c as u32) < 0x800 {
        2
    } else if (c as u32) < 0x10000 {
        3
    } else {
        4
    }
}

/// The bytes a text takes in UTF-8.
pub open spec fn utf8_len(s: Seq<char>) -> nat
    decreases s.len(),
{
    if s.len() == 0 {
        0
    } else {
        utf8_len(s.drop_last()) + utf8_width(s.last())
    }
}

/// The most bytes of code that get highlighted.
pub const MAX_HIGHLIGHT_BYTES: usize = 524288;

/// The most lines of code that get highlighted.
pub const MAX_HIGHLIGHT_LINES: usize = 10000;

/// Whether code is too large to highlight: more than
/// [`MAX_HIGHLIGHT_BYTES`] bytes or [`MAX_HIGHLIGHT_LINES`] lines.
pub open spec fn too_large(code: Seq<char>) -> bool {
    utf8_len(code) > MAX_HIGHLIGHT_BYTES || text_lines(code).len() > MAX_HIGHLIGHT_LINES
}

proof fn lemma_utf8_len_take(s: Seq<char>, i: int)
    requires
        0 <= i < s.len(),
    ensures
        utf8_len(s.take(i + 1)) == utf8_len(s.take(i)) + utf8_width(s[i]),
{
    assert(s.take(i + 1).drop_last() =~= s.take(i));
}

proof fn lemma_utf8_len_mono(s: Seq<char>, i: int)
    requires
        0 <= i <= s.len(),
    ensures
        utf8_len(s.take(i)) <= utf8_len(s),
    decreases s.len() - i,
{
    if i < s.len() {
        lemma_utf8_len_take(s, i);
        lemma_utf8_len_mono(s, i + 1);
    } else {
        assert(s.take(i) =~= s);
    }
}

fn more_bytes_than(s: &str, limit: usize) -> (r: bool)
    ensures
        r == (utf8_len(s@) > limit),
{
    let cs = chars_of(s);
    let mut total: usize = 0;
    let mut i: usize = 0;
    while i < cs.len()
        invariant
            i <= cs@.len(),
            cs@ == s@,
            total as int == utf8_len(s@.take(i as int)),
            total <= limit,
        decreases cs@.len() - i,
    {
        let c = cs[i];
        let w: usize = if (c as u32) < 0x80 {
            1
        } else if (c as u32) < 0x800 {
            2
        } else if (c as u32) < 0x10000 {
            3
        } else {
            4
        };
        proof {
            lemma_utf8_len_take(s@, i as int);
        }
        if w > limit - total {
            proof {
                lemma_utf8_len_mono(s@, i + 1);
            }
            return true;
        }
        total = total + w;
        i += 1;
    }
    assert(s@.take(s@.len() as int) =~= s@);
    false
}

/// The theme code blocks are highlighted with.
pub open spec fn code_theme() -> Seq<char> {
    "base16-ocean.dark"@
}

/// The lines of a non-empty code block that is not too large, for a
/// language, given the bundled syntaxes `t`: plain lines when the language
/// finds no syntax (or the highlighter has no such syntax or theme),
/// otherwise each line of the code as the highlighter gave it.
pub open spec fn code_block_lines(t: Seq<(Seq<char>, Seq<Seq<char>>)>, lang: Seq<char>, code: Seq<char>) -> Seq<LineV> {
    match syntax_lookup(t, lang) {
        None => plain_lines(code),
        Some(i) => match bundled_highlight(i, code_theme(), lines_with_endings(code)) {
            Some(got) => highlighted_lines(code, got),
            None => plain_lines(code),
        },
    }
}

/// The lines of a code block highlighted for a language.  Empty code is
/// one empty line; code that is too large, or whose language matches no
/// syntax, is given as plain lines; otherwise each line of the code is
/// highlighted in turn (see [`code_block_lines`]).
pub fn highlight_code_to_lines(code: &str, lang: &str) -> (r: Vec<MdLine>)
    ensures
        code@.len() == 0 ==> lines_view(r@) == seq![(Seq::<SpanV>::empty(), plain_style())],
        code@.len() > 0 && too_large(code@) ==> lines_view(r@) == plain_lines(code@),
        code@.len() > 0 && !too_large(code@) ==> exists|t: Seq<(Seq<char>, Seq<Seq<char>>)>| #[trigger]
            is_bundled_table(t),
        code@.len() > 0 && !too_large(code@) ==> forall|t: Seq<(Seq<char>, Seq<Seq<char>>)>|
            is_bundled_table(t) ==> lines_view(r@) == #[trigger] code_block_lines(t, lang@, code@),
        code@.len() > 0 && !too_large(code@) ==> lines_view(r@) == plain_lines(code@) || exists|got: Seq<Option<Seq<(SynStyle, Seq<char>)>>>|
            got.len() == lines_with_endings(code@).len() && lines_view(r@) == highlighted_lines(code@, got),
{
    if code.unicode_len() == 0 {
        let l = MdLine { spans: Vec::new(), style: MdStyle::plain() };
        assert(l@.0 =~= Seq::<SpanV>::empty());
        let r = vec![l];
        assert(lines_view(r@) =~= seq![(Seq::<SpanV>::empty(), plain_style())]);
        return r;
    }
    if more_bytes_than(code, MAX_HIGHLIGHT_BYTES) || text_lines_of(code).len() > MAX_HIGHLIGHT_LINES {
        return plain_code(code);
    }
    let table = bundled_syntax_table();
    let ghost tv = entries_view(table@);
    assert(is_bundled_table(tv));
    proof {
        lemma_bundled_table_unique(tv);
    }
    let found = find_syntax(&table, lang);
    let i = match found {
        None => return plain_code(code),
        Some(i) => i,
    };
    let ls = lines_with_endings_of(code);
    let ghost lsv = ls@.map_values(|l: String| l@);
    let theme = "base16-ocean.dark";
    proof {
        reveal_strlit("base16-ocean.dark");
    }
    assert(theme@ == code_theme());
    let all = match highlight_with_bundled(i, theme, &ls) {
        None => return plain_code(code),
        Some(all) => all,
    };
    let ghost got = all@.map_values(|p: Option<Vec<(SynStyle, String)>>| pieces_view(p));
    assert(got.len() == lsv.len());
    let mut out: Vec<MdLine> = Vec::new();
    let mut k: usize = 0;
    while k < ls.len()
        invariant
            k <= ls@.len(),
            all@.len() == ls@.len(),
            lsv == ls@.map_values(|l: String| l@),
            lsv == lines_with_endings(code@),
            got == all@.map_values(|p: Option<Vec<(SynStyle, String)>>| pieces_view(p)),
            lines_view(out@) == Seq::new(k as nat, |j: int| highlighted_line(lsv[j], got[j])),
        decreases ls@.len() - k,
    {
        let line = highlighted_line_of(ls[k].as_str(), &all[k]);
        let ghost lv = line@;
        let ghost before = out@;
        out.push(line);
        k += 1;
        assert(lv == highlighted_line(lsv[k - 1], got[k - 1]));
        assert(lines_view(out@) =~= lines_view(before).push(lv));
        assert(lines_view(out@) =~= Seq::new(k as nat, |j: int| highlighted_line(lsv[j], got[j])));
    }
    assert(lines_with_endings(code@).len() > 0);
    assert(lines_view(out@) =~= highlighted_lines(code@, got));
    out
}

proof fn lemma_bundled_table_unique(t: Seq<(Seq<char>, Seq<Seq<char>>)>)
    requires
        is_bundled_table(t),
    ensures
        forall|u: Seq<(Seq<char>, Seq<Seq<char>>)>| #[trigger] is_bundled_table(u) ==> u == t,
{
    assert forall|u: Seq<(Seq<char>, Seq<Seq<char>>)>| #[trigger] is_bundled_table(u) implies u == t by {
        if u.len() < t.len() {
            assert(bundled_syntax(u.len()) == Some(t[u.len() as int]));
        } else if u.len() > t.len() {
            assert(bundled_syntax(t.len()) == Some(u[t.len() as int]));
        } else {
            assert forall|i: int| 0 <= i < t.len() implies u[i] == t[i] by {
                assert(bundled_syntax(i as nat) == Some(t[i]));
                assert(bundled_syntax(i as nat) == Some(u[i]));
            }
            assert(u =~= t);
        }
    }
}

fn plain_code(code: &str) -> (r: Vec<MdLine>)
    ensures
        lines_view(r@) == plain_lines(code@),
{
    crate::markdown::plain_lines_of(code)
}

} // verus!
