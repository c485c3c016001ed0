//! Line arithmetic over searched text, and the record of one match.
use vstd::prelude::*;
use vstd::string::StringSliceAdditionalSpecFns;
use crate::text::{chars_of, string_from_chars, string_of};

verus! {

pub const NEWLINE: u8 = 0x0A;

/// One search hit: where it is and the line that holds it.
#[derive(Debug, Clone)]
pub struct Match {
    pub line_number: usize,
    pub column_start: usize,
    pub column_end: usize,
    pub line: String,
    pub path: String,
}

/// The number of newline bytes in `b`.
pub open spec fn count_newline_bytes(b: Seq<u8>) -> nat
    decreases b.len(),
{
    if b.len() == 0 {
        0
    } else {
        count_newline_bytes(b.drop_last()) + if b.last() == NEWLINE {
            1nat
        } else {
            0nat
        }
    }
}

/// The 1-based number of the line holding byte `offset` of `text`
/// (offsets past the end count as the end).
pub open spec fn line_number_at(text: Seq<u8>, offset: int) -> nat {
    let end = if offset < text.len() {
        offset
    } else {
        text.len() as int
    };
    1 + count_newline_bytes(text.take(end))
}

/// The 1-based line number of byte `offset` in `text`.
pub fn calc_line_number(text: &str, offset: usize) -> (r: usize)
    requires
        text.spec_bytes().len() < usize::MAX,
    ensures
        r == line_number_at(text.spec_bytes(), offset as int),
        1 <= r <= text.spec_bytes().len() + 1,
{
    let bytes = text.as_bytes();
    if bytes.len() == 0 {
        assert(bytes@.take(0) =~= Seq::<u8>::empty());
        return 1;
    }
    let end = if offset < bytes.len() {
        offset
    } else {
        bytes.len()
    };
    let mut line: usize = 1;
    let mut i: usize = 0;
    while i < end
        invariant
            end <= bytes@.len(),
            bytes@.len() < usize::MAX,
            i <= end,
            line == 1 + count_newline_bytes(bytes@.take(i as int)),
            line <= i + 1,
        decreases end - i,
    {
        assert(bytes@.take(i + 1).drop_last() =~= bytes@.take(i as int));
        if bytes[i] == NEWLINE {
            line += 1;
        }
        i += 1;
    }
    line
}

/// The index of the first `'\n'` in `t`, or its length.
pub open spec fn first_newline(t: Seq<char>) -> int
    decreases t.len(),
{
    if t.len() == 0 {
        0
    } else if t[0] == '\n' {
        0
    } else {
        1 + first_newline(t.drop_first())
    }
}

/// The index of the first `'\n'` or `'\r'` in `t`, or its length.
pub open spec fn first_line_break(t: Seq<char>) -> int
    decreases t.len(),
{
    if t.len() == 0 {
        0
    } else if t[0] == '\n' || t[0] == '\r' {
        0
    } else {
        1 + first_line_break(t.drop_first())
    }
}

/// Line `n` (1-based) of `t`: lines are separated by `'\n'`; the returned
/// line also stops at a `'\r'`.  There is no line `n` when `n` is zero or
/// when line `n` would start at the very end of the text.
pub open spec fn nth_line(t: Seq<char>, n: int) -> Option<Seq<char>>
    decreases t.len(),
{
    if t.len() == 0 || n < 1 {
        None
    } else if n == 1 {
        Some(t.take(first_line_break(t)))
    } else {
        let k = first_newline(t);
        if 0 <= k < t.len() {
            nth_line(t.skip(k + 1), n - 1)
        } else {
            None
        }
    }
}

proof fn lemma_first_newline_is(t: Seq<char>, k: int)
    requires
        0 <= k <= t.len(),
        forall|j: int| 0 <= j < k ==> t[j] != '\n',
        k == t.len() || t[k] == '\n',
    ensures
        first_newline(t) == k,
    decreases k,
{
    if k > 0 {
        lemma_first_newline_is(t.drop_first(), k - 1);
    }
}

proof fn lemma_first_line_break_is(t: Seq<char>, k: int)
    requires
        0 <= k <= t.len(),
        forall|j: int| 0 <= j < k ==> t[j] != '\n' && t[j] != '\r',
        k == t.len() || t[k] == '\n' || t[k] == '\r',
    ensures
        first_line_break(t) == k,
    decreases k,
{
    if k > 0 {
        lemma_first_line_break_is(t.drop_first(), k - 1);
    }
}

/// Line `line_number` (1-based) of `text`, without its line break.
pub fn get_line(text: &str, line_number: usize) -> (r: Option<String>)
    ensures
        r matches Some(l) ==> nth_line(text@, line_number as int) == Some(l@),
        r is None ==> nth_line(text@, line_number as int) is None,
{
    let chars = chars_of(text);
    let ghost t = chars@;
    let n = chars.len();
    if n == 0 || line_number < 1 {
        return None;
    }
    let mut current_line: usize = 1;
    let mut line_start: usize = 0;
    let mut i: usize = 0;
    assert(t.skip(0) =~= t);
    while i < n
        invariant
            n == t.len(),
            chars@ == t,
            t == text@,
            line_start <= i <= n,
            1 <= current_line <= line_number,
            forall|j: int| line_start <= j < i ==> t[j] != '\n',
            nth_line(t.skip(line_start as int), line_number - current_line + 1) == nth_line(
                t,
                line_number as int,
            ),
            current_line == line_number ==> line_start == i,
        decreases n - i,
    {
        if current_line == line_number {
            let mut line_end = i;
            while line_end < n && chars[line_end] != '\n' && chars[line_end] != '\r'
                invariant
                    i <= line_end <= n,
                    n == t.len(),
                    chars@ == t,
                    forall|j: int| i <= j < line_end ==> t[j] != '\n' && t[j] != '\r',
                decreases n - line_end,
            {
                line_end += 1;
            }
            proof {
                let tail = t.skip(line_start as int);
                assert(line_start == i);
                assert forall|j: int| 0 <= j < line_end - line_start implies tail[j] != '\n'
                    && tail[j] != '\r' by {
                    assert(tail[j] == t[line_start + j]);
                }
                lemma_first_line_break_is(tail, (line_end - line_start) as int);
                assert(tail.take((line_end - line_start) as int) =~= t.subrange(
                    line_start as int,
                    line_end as int,
                ));
                assert(nth_line(tail, 1) == Some(tail.take(first_line_break(tail))));
            }
            return Some(string_from_chars(&chars, line_start, line_end));
        }
        if chars[i] == '\n' {
            proof {
                let tail = t.skip(line_start as int);
                lemma_first_newline_is(tail, (i - line_start) as int);
                assert(tail.skip((i - line_start) + 1) =~= t.skip(i + 1));
            }
            current_line += 1;
            line_start = i + 1;
        }
        i += 1;
    }
    if current_line == line_number && line_start < n {
        proof {
            let tail = t.skip(line_start as int);
            lemma_first_line_break_is(tail, (n - line_start) as int);
            assert(tail.take((n - line_start) as int) =~= t.subrange(line_start as int, n as int));
            assert(nth_line(tail, 1) == Some(tail.take(first_line_break(tail))));
        }
        return Some(string_from_chars(&chars, line_start, n));
    }
    proof {
        let tail = t.skip(line_start as int);
        if current_line == line_number {
            assert(tail.len() == 0);
        } else {
            lemma_first_newline_is(tail, (n - line_start) as int);
        }
    }
    None
}


// ---------------------------------------------------------------------
// Regular-expression search
// ---------------------------------------------------------------------

pub const CARRIAGE_RETURN: u8 = 0x0D;

/// The error `regex` reports for a pattern with these options, if any.
pub uninterp spec fn regex_build_error(pattern: Seq<char>, case_insensitive: bool, multi_line: bool, dot_all: bool) -> Option<Seq<char>>;

/// Where `regex` finds the pattern in `text` searching from byte `start`:
/// the byte range of the leftmost-first match, if any.
pub uninterp spec fn regex_find_at(
    pattern: Seq<char>,
    case_insensitive: bool,
    multi_line: bool,
    dot_all: bool,
    text: Seq<char>,
    start: usize,
) -> Option<(usize, usize)>;

/// Builds the pattern with `regex::RegexBuilder` and these options and
/// returns the error's message when `build` fails.  The contract names
/// the outcome and claims nothing else of it.
#[verifier::external_body]
fn regex_error(pattern: &str, case_insensitive: bool, multi_line: bool, dot_all: bool) -> (r: Option<String>)
    ensures
        match r {
            Some(m) => regex_build_error(pattern@, case_insensitive, multi_line, dot_all) == Some(m@),
            None => regex_build_error(pattern@, case_insensitive, multi_line, dot_all) is None,
        },
{
    match regex::RegexBuilder::new(pattern).case_insensitive(case_insensitive).multi_line(
        multi_line,
    ).dot_matches_new_line(dot_all).build() {
        Ok(_) => None,
        Err(e) => Some(e.to_string()),
    }
}

/// `regex::Regex::find_at` for the pattern built with these options: the
/// match's byte range.  Besides naming the result, the contract states
/// what the crate's source shows: the search runs over `start..` of the
/// text (so the match lies there) and a match's start is not after its
/// end.  `find_at` panics for a start past the end, which `requires`
/// leaves out.
#[verifier::external_body]
fn regex_find(
    pattern: &str,
    case_insensitive: bool,
    multi_line: bool,
    dot_all: bool,
    text: &str,
    start: usize,
) -> (r: Option<(usize, usize)>)
    requires
        regex_build_error(pattern@, case_insensitive, multi_line, dot_all) is None,
        start <= text.spec_bytes().len(),
    ensures
        r == regex_find_at(pattern@, case_insensitive, multi_line, dot_all, text@, start),
        r matches Some((s, e)) ==> start <= s <= e <= text.spec_bytes().len(),
{
    let re = regex::RegexBuilder::new(pattern).case_insensitive(case_insensitive).multi_line(
        multi_line,
    ).dot_matches_new_line(dot_all).build().ok()?;
    re.find_at(text, start).map(|m| (m.start(), m.end()))
}

/// A compiled search: a pattern that builds, with its options.
pub struct Search {
    pattern: String,
    case_insensitive: bool,
    multi_line: bool,
    dot_all: bool,
}

/// Why a search could not be built: the regex crate's message.
#[derive(Debug, Clone)]
pub struct SearchError {
    pub message: String,
}

impl Search {
    #[verifier::type_invariant]
    spec fn builds(self) -> bool {
        regex_build_error(self.pattern@, self.case_insensitive, self.multi_line, self.dot_all) is None
    }

    /// The pattern searched for.
    pub closed spec fn pattern_text(self) -> Seq<char> {
        self.pattern@
    }

    /// The options: case-insensitive, multi-line, dot matches newline.
    pub closed spec fn options(self) -> (bool, bool, bool) {
        (self.case_insensitive, self.multi_line, self.dot_all)
    }

    /// Where this search finds a match in `text` from byte `start`.
    pub open spec fn find_from(self, text: Seq<char>, start: usize) -> Option<(usize, usize)> {
        regex_find_at(
            self.pattern_text(),
            self.options().0,
            self.options().1,
            self.options().2,
            text,
            start,
        )
    }
}

/// Compiles `pattern` with the given options.
pub fn new_search(pattern: &str, case_insensitive: bool, multi_line: bool, dot_all: bool) -> (r: Result<Search, SearchError>)
    ensures
        match regex_build_error(pattern@, case_insensitive, multi_line, dot_all) {
            Some(m) => r matches Err(e) && e.message@ == m,
            None => r matches Ok(s) && s.pattern_text() == pattern@ && s.options() == (
                case_insensitive,
                multi_line,
                dot_all,
            ),
        },
{
    match regex_error(pattern, case_insensitive, multi_line, dot_all) {
        Some(m) => Err(SearchError { message: m }),
        None => Ok(Search { pattern: string_of(pattern), case_insensitive, multi_line, dot_all }),
    }
}

/// The start of the line holding byte `off`: just after the last `\n`
/// before it, or 0.
pub open spec fn line_start_before(b: Seq<u8>, off: int) -> int
    decreases off,
{
    if off <= 0 {
        0
    } else if b[off - 1] == NEWLINE {
        off
    } else {
        line_start_before(b, off - 1)
    }
}

/// The end of the line holding byte `off`: the first `\n` or `\r` at or
/// after it, or the end.
pub open spec fn line_end_after(b: Seq<u8>, off: int) -> int
    decreases b.len() - off,
{
    if off >= b.len() {
        b.len() as int
    } else if b[off] == NEWLINE || b[off] == CARRIAGE_RETURN {
        off
    } else {
        line_end_after(b, off + 1)
    }
}

proof fn lemma_line_start_at(b: Seq<u8>, off: int, k: int)
    requires
        0 <= k <= off <= b.len(),
        forall|j: int| k <= j < off ==> b[j] != NEWLINE,
        k == 0 || b[k - 1] == NEWLINE,
    ensures
        line_start_before(b, off) == k,
    decreases off,
{
    if off > k {
        lemma_line_start_at(b, off - 1, k);
    }
}

proof fn lemma_line_end_at(b: Seq<u8>, off: int, k: int)
    requires
        0 <= off <= k <= b.len(),
        forall|j: int| off <= j < k ==> b[j] != NEWLINE && b[j] != CARRIAGE_RETURN,
        k == b.len() || b[k] == NEWLINE || b[k] == CARRIAGE_RETURN,
    ensures
        line_end_after(b, off) == k,
    decreases b.len() - off,
{
    if off < k {
        lemma_line_end_at(b, off + 1, k);
    }
}

/// The byte range of the line holding byte `offset`.
fn find_line_range(b: &[u8], offset: usize) -> (r: (usize, usize))
    requires
        offset <= b@.len(),
    ensures
        r.0 == line_start_before(b@, offset as int),
        r.1 == line_end_after(b@, offset as int),
        r.0 <= offset <= r.1 <= b@.len(),
        r.0 == 0 || b@[r.0 - 1] == NEWLINE,
        r.1 == b@.len() || b@[r.1 as int] == NEWLINE || b@[r.1 as int] == CARRIAGE_RETURN,
{
    let mut start = offset;
    while start > 0 && b[start - 1] != NEWLINE
        invariant
            start <= offset <= b@.len(),
            forall|j: int| start <= j < offset ==> b@[j] != NEWLINE,
        decreases start,
    {
        start -= 1;
    }
    let mut end = offset;
    while end < b.len() && b[end] != NEWLINE && b[end] != CARRIAGE_RETURN
        invariant
            offset <= end <= b@.len(),
            forall|j: int| offset <= j < end ==> b@[j] != NEWLINE && b@[j] != CARRIAGE_RETURN,
        decreases b@.len() - end,
    {
        end += 1;
    }
    proof {
        lemma_line_start_at(b@, offset as int, start as int);
        lemma_line_end_at(b@, offset as int, end as int);
    }
    (start, end)
}

proof fn lemma_boundary_after_ascii(bytes: Seq<u8>, k: int)
    requires
        vstd::utf8::valid_utf8(bytes),
        vstd::utf8::is_char_boundary(bytes, k),
        0 <= k < bytes.len(),
        bytes[k] < 0x80,
    ensures
        vstd::utf8::is_char_boundary(bytes, k + 1),
    decreases bytes.len(),
{
    let l = vstd::utf8::length_of_first_scalar(bytes);
    let pop = vstd::utf8::pop_first_scalar(bytes);
    assert(vstd::utf8::valid_utf8(pop));
    assert(pop.len() == bytes.len() - l);
    if k == 0 {
        assert(l == 1);
        assert(vstd::utf8::is_char_boundary(pop, 0));
    } else {
        assert(vstd::utf8::is_char_boundary(pop, k - l));
        if k - l < 0 {
            assert(false);
        }
        assert(pop[k - l] == bytes[k]);
        lemma_boundary_after_ascii(pop, k - l);
    }
}

proof fn lemma_line_boundaries(b: Seq<u8>, ls: int, le: int)
    requires
        vstd::utf8::valid_utf8(b),
        0 <= ls <= le <= b.len(),
        ls == 0 || b[ls - 1] == NEWLINE,
        le == b.len() || b[le] == NEWLINE || b[le] == CARRIAGE_RETURN,
    ensures
        vstd::utf8::is_char_boundary(b, ls),
        vstd::utf8::is_char_boundary(b.subrange(ls, b.len() as int), le - ls),
{
    broadcast use vstd::utf8::is_char_boundary_start_end_of_seq,
        vstd::utf8::is_char_boundary_iff_not_is_continuation_byte,
        vstd::utf8::valid_utf8_split;

    if ls > 0 {
        vstd::utf8::is_char_boundary_iff_not_is_continuation_byte(b, ls - 1);
        lemma_boundary_after_ascii(b, ls - 1);
    }
    let rest = b.subrange(ls, b.len() as int);
    vstd::utf8::valid_utf8_split(b, ls);
    if le < b.len() {
        assert(rest[le - ls] == b[le]);
        vstd::utf8::is_char_boundary_iff_not_is_continuation_byte(rest, le - ls);
    } else {
        assert(rest.len() == le - ls);
    }
}

/// Whether `m` records the match `s..e` in text `t`: its line number, its
/// byte columns, the whole line that holds its start (without the line
/// break), and no path.
pub open spec fn is_match_record(m: Match, t: Seq<char>, s: usize, e: usize) -> bool {
    let b = vstd::utf8::encode_utf8(t);
    &&& m.line_number == line_number_at(b, s as int)
    &&& m.column_start == s
    &&& m.column_end == e
    &&& vstd::utf8::encode_utf8(m.line@) == b.subrange(
        line_start_before(b, s as int),
        line_end_after(b, s as int),
    )
    &&& m.path@.len() == 0
}

/// The record of the match `s..e` in `text`.
pub fn match_record(text: &str, s: usize, e: usize) -> (m: Match)
    requires
        s <= text.spec_bytes().len() < usize::MAX,
    ensures
        is_match_record(m, text@, s, e),
        m.line_number <= text.spec_bytes().len() + 1,
        vstd::utf8::encode_utf8(m.line@).len() <= text.spec_bytes().len(),
{
    broadcast use vstd::utf8::encode_utf8_valid_utf8;

    let b = text.as_bytes();
    let (ls, le) = find_line_range(b, s);
    proof {
        lemma_line_boundaries(b@, ls as int, le as int);
    }
    let (_, rest) = text.split_at(ls);
    let (line, _) = rest.split_at(le - ls);
    assert(line.spec_bytes() =~= b@.subrange(ls as int, le as int));
    Match {
        line_number: calc_line_number(text, s),
        column_start: s,
        column_end: e,
        line: line.to_owned(),
        path: String::new(),
    }
}

/// The matches that a scan from byte `pos` finds: each search starts at
/// the end of the previous match, or one byte further when that match was
/// empty, and the scan stops at the end of the text.
pub open spec fn scan_matches(search: Search, t: Seq<char>, pos: int) -> Seq<(usize, usize)>
    decreases vstd::utf8::encode_utf8(t).len() - pos,
{
    let len = vstd::utf8::encode_utf8(t).len();
    if pos < 0 || pos > len {
        Seq::empty()
    } else {
        match search.find_from(t, pos as usize) {
            None => Seq::empty(),
            Some((s, e)) => {
                let next = if e > pos + 1 {
                    e as int
                } else {
                    pos + 1
                };
                if next >= len {
                    seq![(s, e)]
                } else {
                    seq![(s, e)] + scan_matches(search, t, next)
                }
            },
        }
    }
}

impl Search {
    /// The first match in `text` from byte `offset`, with its line.
    pub fn match_first(&self, text: &str, offset: usize) -> (r: Option<Match>)
        requires
            text.spec_bytes().len() < usize::MAX,
        ensures
            text@.len() == 0 || offset > text.spec_bytes().len() ==> r is None,
            text@.len() != 0 && offset <= text.spec_bytes().len() ==> match self.find_from(
                text@,
                offset,
            ) {
                None => r is None,
                Some((s, e)) => r matches Some(m) && is_match_record(m, text@, s, e),
            },
    {
        proof {
            use_type_invariant(self);
        }
        if text.is_empty() || offset > text.len() {
            return None;
        }
        match regex_find(
            self.pattern.as_str(),
            self.case_insensitive,
            self.multi_line,
            self.dot_all,
            text,
            offset,
        ) {
            None => None,
            Some((s, e)) => Some(match_record(text, s, e)),
        }
    }

    /// Every match in `text` from byte `offset` on (see [`scan_matches`]).
    pub fn match_all(&self, text: &str, offset: usize) -> (r: Vec<Match>)
        requires
            text.spec_bytes().len() < usize::MAX,
        ensures
            text@.len() == 0 || offset >= text.spec_bytes().len() ==> r@.len() == 0,
            text@.len() != 0 && offset < text.spec_bytes().len() ==> {
                let spans = scan_matches(*self, text@, offset as int);
                &&& r@.len() == spans.len()
                &&& forall|i: int|
                    0 <= i < spans.len() ==> is_match_record(
                        #[trigger] r@[i],
                        text@,
                        spans[i].0,
                        spans[i].1,
                    )
            },
            forall|i: int|
                0 <= i < r@.len() ==> #[trigger] r@[i].line_number <= text.spec_bytes().len() + 1
                    && vstd::utf8::encode_utf8(r@[i].line@).len() <= text.spec_bytes().len(),
    {
        proof {
            use_type_invariant(self);
        }
        let mut results: Vec<Match> = Vec::new();
        if text.is_empty() || offset >= text.len() {
            return results;
        }
        let len = text.len();
        let ghost t = text@;
        let ghost all = scan_matches(*self, t, offset as int);
        let mut pos = offset;
        loop
            invariant_except_break
                all == results@.map_values(|m: Match| (m.column_start, m.column_end))
                    + scan_matches(*self, t, pos as int),
            invariant
                len == text.spec_bytes().len() < usize::MAX,
                t == text@,
                pos <= len,
                regex_build_error(
                    self.pattern@,
                    self.case_insensitive,
                    self.multi_line,
                    self.dot_all,
                ) is None,
                all == scan_matches(*self, t, offset as int),
                forall|i: int|
                    0 <= i < results@.len() ==> is_match_record(
                        #[trigger] results@[i],
                        t,
                        results@[i].column_start,
                        results@[i].column_end,
                    ),
                forall|i: int|
                    0 <= i < results@.len() ==> #[trigger] results@[i].line_number <= len + 1
                        && vstd::utf8::encode_utf8(results@[i].line@).len() <= len,
            ensures
                forall|i: int|
                    0 <= i < results@.len() ==> #[trigger] results@[i].line_number <= len + 1
                        && vstd::utf8::encode_utf8(results@[i].line@).len() <= len,
                all == results@.map_values(|m: Match| (m.column_start, m.column_end)),
                forall|i: int|
                    0 <= i < results@.len() ==> is_match_record(
                        #[trigger] results@[i],
                        t,
                        results@[i].column_start,
                        results@[i].column_end,
                    ),
            decreases len - pos,
        {
            let ghost before = results@.map_values(|m: Match| (m.column_start, m.column_end));
            match regex_find(
                self.pattern.as_str(),
                self.case_insensitive,
                self.multi_line,
                self.dot_all,
                text,
                pos,
            ) {
                None => {
                    assert(scan_matches(*self, t, pos as int) =~= Seq::<(usize, usize)>::empty());
                    assert(all =~= before);
                    break;
                },
                Some((s, e)) => {
                    let m = match_record(text, s, e);
                    results.push(m);
                    let next = if e > pos + 1 {
                        e
                    } else {
                        pos + 1
                    };
                    assert(results@.map_values(|m: Match| (m.column_start, m.column_end))
                        =~= before.push((s, e)));
                    if next >= len {
                        assert(scan_matches(*self, t, pos as int) =~= seq![(s, e)]);
                        assert(all =~= before.push((s, e)));
                        break;
                    }
                    assert(scan_matches(*self, t, pos as int) =~= seq![(s, e)] + scan_matches(
                        *self,
                        t,
                        next as int,
                    ));
                    assert(all =~= before.push((s, e)) + scan_matches(*self, t, next as int));
                    pos = next;
                },
            }
        }
        proof {
            assert forall|i: int| 0 <= i < all.len() implies is_match_record(
                #[trigger] results@[i],
                t,
                all[i].0,
                all[i].1,
            ) by {
                assert(all[i] == (results@[i].column_start, results@[i].column_end));
            }
        }
        results
    }
}

} // verus!
