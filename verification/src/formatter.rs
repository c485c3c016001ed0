//! Whitespace clean-up of a file's content: trailing blanks are removed
//! from every line, and a line indented with at least one tab gets its
//! indentation replaced by four spaces (other indentation is dropped).
use vstd::prelude::*;
use vstd::string::StringSliceAdditionalSpecFns;
use crate::pathutils::{resolve_workspace_path, workspace_path};
use crate::text::{push_char, push_str, string_of};
use crate::search::first_newline;
use crate::file_edit::split_lines;

verus! {

/// How formatting a file ended.
#[derive(Debug, Clone, Copy, PartialEq, Eq, Structural)]
pub enum FormatterError {
    Success,
    NullPath,
    ReadFailed,
}

/// The outcome of formatting a file.
#[derive(Debug, Clone)]
pub struct FormatterResult {
    pub error: FormatterError,
    pub error_message: String,
}

pub const SPACE: u8 = 0x20;
pub const TAB: u8 = 0x09;
pub const LF: u8 = 0x0A;

pub open spec fn is_blank_byte(b: u8) -> bool {
    b == SPACE || b == TAB
}

/// `l` without trailing spaces and tabs.
pub open spec fn trim_end_blank_bytes(l: Seq<u8>) -> Seq<u8>
    decreases l.len(),
{
    if l.len() > 0 && is_blank_byte(l.last()) {
        trim_end_blank_bytes(l.drop_last())
    } else {
        l
    }
}

/// The number of leading spaces and tabs of `l`.
pub open spec fn leading_blanks(l: Seq<u8>) -> nat
    decreases l.len(),
{
    if l.len() > 0 && is_blank_byte(l[0]) {
        1 + leading_blanks(l.drop_first())
    } else {
        0
    }
}

/// Each byte read as the character with that code.
pub open spec fn bytes_as_chars(b: Seq<u8>) -> Seq<char> {
    b.map_values(|x: u8| x as char)
}

/// One line (without its newline) after clean-up.
pub open spec fn format_line(l: Seq<u8>) -> Seq<char> {
    let t = trim_end_blank_bytes(l);
    let k = leading_blanks(t) as int;
    (if t.take(k).contains(TAB) {
        seq![' ', ' ', ' ', ' ']
    } else {
        Seq::empty()
    }) + bytes_as_chars(t.skip(k))
}

/// The index of the first newline byte in `b`, or its length.
pub open spec fn first_lf(b: Seq<u8>) -> int
    decreases b.len(),
{
    if b.len() == 0 || b[0] == LF {
        0
    } else {
        1 + first_lf(b.drop_first())
    }
}

/// The whole content after clean-up; newlines are kept.
pub open spec fn format_bytes(b: Seq<u8>) -> Seq<char>
    decreases b.len(),
{
    if b.len() == 0 {
        Seq::empty()
    } else {
        let k = first_lf(b);
        if 0 <= k < b.len() {
            format_line(b.take(k)) + seq!['\n'] + format_bytes(b.skip(k + 1))
        } else {
            format_line(b)
        }
    }
}

proof fn lemma_first_lf_at(b: Seq<u8>, k: int)
    requires
        0 <= k <= b.len(),
        forall|j: int| 0 <= j < k ==> b[j] != LF,
        k == b.len() || b[k] == LF,
    ensures
        first_lf(b) == k,
    decreases k,
{
    if k > 0 {
        lemma_first_lf_at(b.drop_first(), k - 1);
    }
}

proof fn lemma_trim_end_at(l: Seq<u8>, e: int)
    requires
        0 <= e <= l.len(),
        forall|j: int| e <= j < l.len() ==> is_blank_byte(l[j]),
        e == 0 || !is_blank_byte(l[e - 1]),
    ensures
        trim_end_blank_bytes(l) == l.take(e),
    decreases l.len(),
{
    if e < l.len() {
        lemma_trim_end_at(l.drop_last(), e);
        assert(l.drop_last().take(e) =~= l.take(e));
    } else {
        assert(l.take(e) =~= l);
    }
}

proof fn lemma_leading_at(t: Seq<u8>, k: int)
    requires
        0 <= k <= t.len(),
        forall|j: int| 0 <= j < k ==> is_blank_byte(t[j]),
        k == t.len() || !is_blank_byte(t[k]),
    ensures
        leading_blanks(t) == k,
    decreases k,
{
    if k > 0 {
        lemma_leading_at(t.drop_first(), k - 1);
    }
}

/// Cleans up whitespace line by line (see [`format_bytes`]).  Each byte is
/// kept as the character with that code.
pub fn process_content(content: &str) -> (r: String)
    ensures
        r@ == format_bytes(content.spec_bytes()),
{
    let bytes = content.as_bytes();
    let ghost b = bytes@;
    let len = bytes.len();
    let mut result = String::new();
    let mut i: usize = 0;
    assert(b.skip(0) =~= b);
    while i < len
        invariant
            i <= len == b.len(),
            bytes@ == b,
            result@ + format_bytes(b.skip(i as int)) == format_bytes(b),
        decreases len - i,
    {
        let ghost before = result@;
        let ghost rest = b.skip(i as int);
        let line_start = i;
        while i < len && bytes[i] != LF
            invariant
                line_start <= i <= len == b.len(),
                bytes@ == b,
                forall|j: int| line_start <= j < i ==> b[j] != LF,
            decreases len - i,
        {
            i += 1;
        }
        let line_end = i;
        let ghost line = b.subrange(line_start as int, line_end as int);
        proof {
            lemma_first_lf_at(rest, (line_end - line_start) as int);
            assert(rest.take((line_end - line_start) as int) =~= line);
        }
        let mut trim_end = line_end;
        while trim_end > line_start && (bytes[trim_end - 1] == SPACE || bytes[trim_end - 1] == TAB)
            invariant
                line_start <= trim_end <= line_end <= len == b.len(),
                bytes@ == b,
                forall|j: int| trim_end <= j < line_end ==> is_blank_byte(b[j]),
            decreases trim_end,
        {
            trim_end -= 1;
        }
        let ghost t = b.subrange(line_start as int, trim_end as int);
        proof {
            lemma_trim_end_at(line, (trim_end - line_start) as int);
            assert(line.take((trim_end - line_start) as int) =~= t);
        }
        let mut wp = line_start;
        let mut has_leading_tabs = false;
        while wp < trim_end && (bytes[wp] == SPACE || bytes[wp] == TAB)
            invariant
                line_start <= wp <= trim_end <= len == b.len(),
                bytes@ == b,
                forall|j: int| line_start <= j < wp ==> is_blank_byte(b[j]),
                has_leading_tabs == b.subrange(line_start as int, wp as int).contains(TAB),
            decreases trim_end - wp,
        {
            if bytes[wp] == TAB {
                has_leading_tabs = true;
            }
            wp += 1;
            proof {
                let s2 = b.subrange(line_start as int, wp as int);
                let s1 = b.subrange(line_start as int, wp - 1);
                assert(s2 =~= s1.push(b[wp - 1]));
                if s1.contains(TAB) {
                    let j = choose|j: int| 0 <= j < s1.len() && s1[j] == TAB;
                    assert(s2[j] == TAB);
                }
                if b[wp - 1] == TAB {
                    assert(s2[s2.len() - 1] == TAB);
                }
                if s2.contains(TAB) && !s1.contains(TAB) {
                    let j = choose|j: int| 0 <= j < s2.len() && s2[j] == TAB;
                    if j < s1.len() {
                        assert(s1[j] == TAB);
                    }
                }
            }
        }
        let ghost k = (wp - line_start) as int;
        proof {
            lemma_leading_at(t, k);
            assert(t.take(k) =~= b.subrange(line_start as int, wp as int));
        }
        if has_leading_tabs {
            push_char(&mut result, ' ');
            push_char(&mut result, ' ');
            push_char(&mut result, ' ');
            push_char(&mut result, ' ');
        }
        let ghost prefix = result@;
        while wp < trim_end
            invariant
                0 <= k,
                line_start + k <= wp <= trim_end <= len == b.len(),
                bytes@ == b,
                result@ == prefix + bytes_as_chars(b.subrange(line_start + k, wp as int)),
            decreases trim_end - wp,
        {
            push_char(&mut result, bytes[wp] as char);
            wp += 1;
            proof {
                let x = b.subrange(line_start + k, wp as int);
                let y = b.subrange(line_start + k, wp - 1);
                assert(x =~= y.push(b[wp - 1]));
                assert(bytes_as_chars(x) =~= bytes_as_chars(y).push(b[wp - 1] as char)) by {
                    assert forall|j: int| 0 <= j < x.len() implies bytes_as_chars(x)[j]
                        == bytes_as_chars(y).push(b[wp - 1] as char)[j] by {
                        if j < y.len() {
                            assert(x[j] == y[j]);
                        }
                    }
                }
            }
        }
        assert(t.skip(k) =~= b.subrange(line_start + k, trim_end as int));
        assert(result@ == before + format_line(line));
        if i < len && bytes[i] == LF {
            push_char(&mut result, '\n');
            i += 1;
            assert(rest.skip((line_end - line_start) + 1) =~= b.skip(i as int));
            assert(result@ + format_bytes(b.skip(i as int)) =~= before + format_bytes(rest));
        } else {
            assert(rest.take((line_end - line_start) as int) =~= rest);
            assert(b.skip(i as int).len() == 0);
            assert(result@ + format_bytes(b.skip(i as int)) =~= before + format_bytes(rest));
        }
    }
    assert(b.skip(len as int).len() == 0);
    assert(result@ + format_bytes(b.skip(len as int)) =~= result@);
    result
}


/// What to do about formatting a file: report at once, or write the
/// formatted content to the resolved path and then call
/// [`finish_format`].
pub enum FormatStep {
    Done(FormatterResult),
    Write { absolute_path: String, content: String },
}

/// Whether a format step reports at once with this outcome and message.
pub open spec fn format_done_with(r: FormatStep, e: FormatterError, msg: Seq<char>) -> bool {
    match r {
        FormatStep::Done(f) => f.error == e && f.error_message@ == msg,
        _ => false,
    }
}

/// Formats the file at `path` (resolved against `current_dir`), given what
/// reading the resolved path gave: a missing path, an unresolvable one and
/// a failed read are reported; otherwise the formatted content is to be
/// written back.
pub fn format_file(path: &str, current_dir: &str, read: Result<String, String>) -> (r: FormatStep)
    ensures
        ({
            let abs = workspace_path(path@, current_dir@);
            if path@.len() == 0 {
                format_done_with(r, FormatterError::NullPath, "Path parameter is required"@)
            } else if abs.len() == 0 {
                format_done_with(r, FormatterError::ReadFailed, "Could not resolve path"@)
            } else {
                match read {
                    Err(e) => format_done_with(
                        r,
                        FormatterError::ReadFailed,
                        "Error reading file: "@ + e@,
                    ),
                    Ok(c) => r matches FormatStep::Write { absolute_path, content }
                        && absolute_path@ == abs && content@ == format_bytes(
                        vstd::utf8::encode_utf8(c@),
                    ),
                }
            }
        }),
{
    if path.is_empty() {
        return FormatStep::Done(
            FormatterResult {
                error: FormatterError::NullPath,
                error_message: string_of("Path parameter is required"),
            },
        );
    }
    let absolute_path = resolve_workspace_path(path, current_dir);
    if absolute_path.as_str().is_empty() {
        return FormatStep::Done(
            FormatterResult {
                error: FormatterError::ReadFailed,
                error_message: string_of("Could not resolve path"),
            },
        );
    }
    match read {
        Err(e) => {
            let mut msg = string_of("Error reading file: ");
            push_str(&mut msg, e.as_str());
            FormatStep::Done(FormatterResult { error: FormatterError::ReadFailed, error_message: msg })
        },
        Ok(c) => {
            let content = process_content(c.as_str());
            FormatStep::Write { absolute_path, content }
        },
    }
}

/// The outcome of writing the formatted content back (a failed write is
/// reported as `ReadFailed`, with the system's reason).
pub fn finish_format(outcome: Result<(), String>) -> (r: FormatterResult)
    ensures
        match outcome {
            Ok(_) => r.error == FormatterError::Success && r.error_message@.len() == 0,
            Err(e) => r.error == FormatterError::ReadFailed && r.error_message@
                == "Error writing file: "@ + e@,
        },
{
    match outcome {
        Ok(_) => FormatterResult { error: FormatterError::Success, error_message: String::new() },
        Err(e) => {
            let mut msg = string_of("Error writing file: ");
            push_str(&mut msg, e.as_str());
            FormatterResult { error: FormatterError::ReadFailed, error_message: msg }
        },
    }
}

proof fn lemma_trim_end_prefix(l: Seq<u8>)
    ensures
        trim_end_blank_bytes(l).len() <= l.len(),
        forall|j: int| 0 <= j < trim_end_blank_bytes(l).len() ==> trim_end_blank_bytes(l)[j] == l[j],
    decreases l.len(),
{
    if l.len() > 0 && is_blank_byte(l.last()) {
        lemma_trim_end_prefix(l.drop_last());
        assert forall|j: int| 0 <= j < trim_end_blank_bytes(l).len() implies trim_end_blank_bytes(l)[j] == l[j] by {
            assert(l.drop_last()[j] == l[j]);
        }
    }
}

proof fn lemma_leading_bound(t: Seq<u8>)
    ensures
        leading_blanks(t) <= t.len(),
    decreases t.len(),
{
    if t.len() > 0 && is_blank_byte(t[0]) {
        lemma_leading_bound(t.drop_first());
    }
}

proof fn lemma_filter_none<A>(s: Seq<A>, pred: spec_fn(A) -> bool)
    requires
        forall|j: int| 0 <= j < s.len() ==> !pred(#[trigger] s[j]),
    ensures
        s.filter(pred).len() == 0,
{
    if s.filter(pred).len() > 0 {
        let x = s.filter(pred)[0];
        s.lemma_filter_pred(pred, 0);
        assert(s.filter(pred).contains(x));
        s.lemma_filter_contains_rev(pred, x);
        let j = choose|j: int| 0 <= j < s.len() && s[j] == x;
        assert(!pred(s[j]));
    }
}

proof fn lemma_format_line_no_newline(l: Seq<u8>)
    requires
        !l.contains(LF),
    ensures
        format_line(l).filter(|c: char| c == '\n').len() == 0,
        forall|j: int| 0 <= j < format_line(l).len() ==> format_line(l)[j] != '\n',
{
    broadcast use vstd::seq_lib::group_filter_ensures;

    let t = trim_end_blank_bytes(l);
    lemma_trim_end_prefix(l);
    lemma_leading_bound(t);
    let k = leading_blanks(t) as int;
    let f = format_line(l);
    assert forall|j: int| 0 <= j < f.len() implies f[j] != '\n' by {
        let pre = if t.take(k).contains(TAB) { seq![' ', ' ', ' ', ' '] } else { Seq::<char>::empty() };
        if j >= pre.len() {
            let y = t.skip(k)[j - pre.len()];
            assert(y == t[k + j - pre.len()]);
            assert(y == l[k + j - pre.len()]);
            assert(y != LF) by {
                if y == LF {
                    assert(l.contains(LF));
                }
            }
            assert(f[j] == (y as char));
        }
    }
    lemma_filter_none(f, |c: char| c == '\n');
}

/// Clean-up keeps the lines: the result has exactly as many newlines as
/// the content has newline bytes.
pub proof fn law_format_keeps_line_count(b: Seq<u8>)
    ensures
        format_bytes(b).filter(|c: char| c == '\n').len() == b.filter(|x: u8| x == LF).len(),
    decreases b.len(),
{
    broadcast use vstd::seq_lib::group_filter_ensures;

    if b.len() > 0 {
        let k = first_lf(b);
        lemma_first_lf_bounds(b);
        if 0 <= k < b.len() {
            let head = b.take(k);
            let tail = b.skip(k + 1);
            law_format_keeps_line_count(tail);
            assert(!head.contains(LF)) by {
                if head.contains(LF) {
                    let j = choose|j: int| 0 <= j < head.len() && head[j] == LF;
                    assert(b[j] == LF);
                }
            }
            lemma_format_line_no_newline(head);
            assert(b =~= head + seq![LF] + tail);
            Seq::filter_distributes_over_add(head + seq![LF], tail, |x: u8| x == LF);
            Seq::filter_distributes_over_add(head, seq![LF], |x: u8| x == LF);
            let fh = format_line(head);
            Seq::filter_distributes_over_add(fh + seq!['\n'], format_bytes(tail), |c: char| c == '\n');
            Seq::filter_distributes_over_add(fh, seq!['\n'], |c: char| c == '\n');
            assert forall|j: int| 0 <= j < head.len() implies head[j] != LF by {
                assert(head[j] == b[j]);
            }
            lemma_filter_none(head, |x: u8| x == LF);
            assert(seq![LF].filter(|x: u8| x == LF) =~= seq![LF]) by {
                reveal_with_fuel(Seq::filter, 2);
            }
            assert(seq!['\n'].filter(|c: char| c == '\n') =~= seq!['\n']) by {
                reveal_with_fuel(Seq::filter, 2);
            }
        } else {
            assert(!b.contains(LF)) by {
                if b.contains(LF) {
                    let j = choose|j: int| 0 <= j < b.len() && b[j] == LF;
                }
            }
            lemma_format_line_no_newline(b);
            lemma_filter_none(b, |x: u8| x == LF);
        }
    }
}

proof fn lemma_first_lf_bounds(b: Seq<u8>)
    ensures
        0 <= first_lf(b) <= b.len(),
        forall|j: int| 0 <= j < first_lf(b) ==> b[j] != LF,
        first_lf(b) < b.len() ==> b[first_lf(b)] == LF,
    decreases b.len(),
{
    if b.len() > 0 && b[0] != LF {
        lemma_first_lf_bounds(b.drop_first());
        assert forall|j: int| 0 <= j < first_lf(b) implies b[j] != LF by {
            if j > 0 {
                assert(b[j] == b.drop_first()[j - 1]);
            }
        }
        if first_lf(b) < b.len() {
            assert(b[first_lf(b)] == b.drop_first()[first_lf(b) - 1]);
        }
    }
}

/// The newline-separated lines of `b` (the bytes after the last newline
/// are a line too, so there is always one).
pub open spec fn byte_lines(b: Seq<u8>) -> Seq<Seq<u8>>
    decreases b.len(),
{
    let k = first_lf(b);
    if 0 <= k < b.len() {
        seq![b.take(k)] + byte_lines(b.skip(k + 1))
    } else {
        seq![b]
    }
}

proof fn lemma_first_newline_after(x: Seq<char>, y: Seq<char>)
    requires
        forall|j: int| 0 <= j < x.len() ==> x[j] != '\n',
    ensures
        first_newline(x + seq!['\n'] + y) == x.len(),
    decreases x.len(),
{
    let z = x + seq!['\n'] + y;
    if x.len() > 0 {
        assert(z[0] == x[0]);
        assert(z.drop_first() =~= x.drop_first() + seq!['\n'] + y);
        lemma_first_newline_after(x.drop_first(), y);
    } else {
        assert(z[0] == '\n');
    }
}

proof fn lemma_first_newline_none(x: Seq<char>)
    requires
        forall|j: int| 0 <= j < x.len() ==> x[j] != '\n',
    ensures
        first_newline(x) == x.len(),
    decreases x.len(),
{
    if x.len() > 0 {
        assert(x[0] != '\n');
        lemma_first_newline_none(x.drop_first());
    }
}

/// Clean-up works line by line: the result, split at its newlines, is the
/// content's lines each cleaned up (see [`format_line`]: trailing spaces
/// and tabs dropped, an indentation holding a tab made four spaces, any
/// other indentation dropped, a blank line left empty).
pub proof fn law_format_line_by_line(b: Seq<u8>)
    ensures
        split_lines(format_bytes(b)) == byte_lines(b).map_values(|l: Seq<u8>| format_line(l)),
    decreases b.len(),
{
    lemma_first_lf_bounds(b);
    let k = first_lf(b);
    if 0 <= k < b.len() {
        let head = b.take(k);
        let tail = b.skip(k + 1);
        assert(!head.contains(LF)) by {
            if head.contains(LF) {
                let j = choose|j: int| 0 <= j < head.len() && head[j] == LF;
                assert(b[j] == LF);
            }
        }
        lemma_format_line_no_newline(head);
        law_format_line_by_line(tail);
        let fh = format_line(head);
        let z = fh + seq!['\n'] + format_bytes(tail);
        lemma_first_newline_after(fh, format_bytes(tail));
        assert(z.take(fh.len() as int) =~= fh);
        assert(z.skip(fh.len() as int + 1) =~= format_bytes(tail));
        assert(format_bytes(b) == z);
        assert(byte_lines(b).map_values(|l: Seq<u8>| format_line(l)) =~= seq![fh] + byte_lines(tail).map_values(
            |l: Seq<u8>| format_line(l),
        ));
    } else if b.len() == 0 {
        assert(byte_lines(b) == seq![b]);
        assert(format_line(b) =~= Seq::<char>::empty()) by {
            assert(trim_end_blank_bytes(b) == b);
            assert(leading_blanks(b) == 0);
            assert(!b.take(0).contains(TAB));
            assert(b.skip(0) =~= b);
        }
        assert(byte_lines(b).map_values(|l: Seq<u8>| format_line(l)) =~= seq![Seq::<char>::empty()]);
        assert(first_newline(Seq::<char>::empty()) == 0);
    } else {
        assert(!b.contains(LF)) by {
            if b.contains(LF) {
                let j = choose|j: int| 0 <= j < b.len() && b[j] == LF;
            }
        }
        lemma_format_line_no_newline(b);
        lemma_first_newline_none(format_line(b));
        assert(byte_lines(b).map_values(|l: Seq<u8>| format_line(l)) =~= seq![format_line(b)]);
    }
}

} // verus!
