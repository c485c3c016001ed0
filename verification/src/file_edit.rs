//! Line-based search and replace in a file's content, and the steps of
//! editing a file.
use vstd::prelude::*;
use crate::file_reader::{cached, same_but, slot_of, FileCache};
use crate::file_writer::{finish_write, write_file_content, FileWriterError, FileWriterResult, WriteStep};
use crate::ignore_rules::{check_ignore_path, path_ignored, pattern_texts, IgnoreRules};
use crate::pathutils::{resolve_workspace_path, workspace_path};
use crate::search::first_newline;
use crate::text::{
    chars_of, join_newline, join_strings_newline, push_decimal, push_str, string_from_chars,
    string_of,
};

verus! {

/// How editing a file ended.
#[derive(Debug, Clone, Copy, PartialEq, Eq, Structural)]
pub enum FileEditError {
    Success,
    FileNotFound,
    OldStringNotFound,
    MultipleMatches,
    ReadFailed,
    WriteFailed,
}

/// The outcome of editing a file.
#[derive(Debug, Clone)]
pub struct FileEditResult {
    pub error: FileEditError,
    pub error_message: String,
    pub match_count: i32,
}

/// The `\n`-separated lines of `s`; the text after the last `\n` is a
/// line too, so there is always at least one.
pub open spec fn split_lines(s: Seq<char>) -> Seq<Seq<char>>
    decreases s.len(),
{
    let k = first_newline(s);
    if 0 <= k < s.len() {
        seq![s.take(k)] + split_lines(s.skip(k + 1))
    } else {
        seq![s]
    }
}

proof fn lemma_first_newline_at(t: Seq<char>, k: int)
    requires
        0 <= k <= t.len(),
        forall|j: int| 0 <= j < k ==> t[j] != '\n',
        k == t.len() || t[k] == '\n',
    ensures
        first_newline(t) == k,
    decreases k,
{
    if k > 0 {
        lemma_first_newline_at(t.drop_first(), k - 1);
    }
}

/// Splits `content` at every `\n`.
pub fn split_into_lines(content: &str) -> (r: Vec<String>)
    ensures
        r@.map_values(|s: String| s@) == split_lines(content@),
{
    let chars = chars_of(content);
    let ghost c = chars@;
    let mut lines: Vec<String> = Vec::new();
    let mut start: usize = 0;
    let mut i: usize = 0;
    assert(c.skip(0) =~= c);
    while i < chars.len()
        invariant
            chars@ == c,
            start <= i <= c.len(),
            forall|j: int| start <= j < i ==> c[j] != '\n',
            lines@.map_values(|s: String| s@) + split_lines(c.skip(start as int)) == split_lines(c),
        decreases c.len() - i,
    {
        if chars[i] == '\n' {
            let ghost rest = c.skip(start as int);
            proof {
                lemma_first_newline_at(rest, (i - start) as int);
                assert(rest.take((i - start) as int) =~= c.subrange(start as int, i as int));
                assert(rest.skip((i - start) + 1) =~= c.skip(i + 1));
            }
            let ghost before = lines@.map_values(|s: String| s@);
            lines.push(string_from_chars(&chars, start, i));
            assert(lines@.map_values(|s: String| s@) =~= before.push(c.subrange(
                start as int,
                i as int,
            )));
            assert(lines@.map_values(|s: String| s@) + split_lines(c.skip(i + 1)) =~= before
                + split_lines(rest));
            start = i + 1;
        }
        i += 1;
    }
    let ghost rest = c.skip(start as int);
    proof {
        lemma_first_newline_at(rest, (c.len() - start) as int);
        assert(rest =~= c.subrange(start as int, c.len() as int));
    }
    let ghost before = lines@.map_values(|s: String| s@);
    lines.push(string_from_chars(&chars, start, chars.len()));
    assert(lines@.map_values(|s: String| s@) =~= before + split_lines(rest));
    lines
}

/// Joins lines with `\n` (no newline after the last one).
pub fn join_lines(lines: &[String]) -> (r: String)
    ensures
        r@ == join_newline(lines@.map_values(|s: String| s@)),
{
    join_strings_newline(lines)
}

/// How many lines equal `old`.
pub open spec fn count_equal(lines: Seq<Seq<char>>, old: Seq<char>) -> nat
    decreases lines.len(),
{
    if lines.len() == 0 {
        0
    } else {
        count_equal(lines.drop_last(), old) + if lines.last() == old {
            1nat
        } else {
            0nat
        }
    }
}

/// The index of the first line equal to `old`, or the number of lines.
pub open spec fn first_equal(lines: Seq<Seq<char>>, old: Seq<char>) -> int
    decreases lines.len(),
{
    if lines.len() == 0 {
        0
    } else if lines[0] == old {
        0
    } else {
        1 + first_equal(lines.drop_first(), old)
    }
}

/// `lines` with lines equal to `old` replaced by `new`: every such line
/// when `multiple`, otherwise only the first one.
pub open spec fn replace_lines(
    lines: Seq<Seq<char>>,
    old: Seq<char>,
    new: Seq<char>,
    multiple: bool,
) -> Seq<Seq<char>> {
    Seq::new(
        lines.len(),
        |i: int|
            if lines[i] == old && (multiple || i == first_equal(lines, old)) {
                new
            } else {
                lines[i]
            },
    )
}

/// What an edit of some content comes to, before anything is written.
pub enum EditPlan {
    /// Write this content; `match_count` lines matched.
    Write { content: String, match_count: i32 },
    /// Nothing is written; the edit ends with this result.
    Fail(FileEditResult),
}

/// The number of matching lines as the editor reports it (an `i32`).
pub open spec fn reported_count(content: Seq<char>, old: Seq<char>) -> i32 {
    count_equal(split_lines(content), old) as i32
}

/// Plans replacing the lines of `content` that equal `old_str` by
/// `new_str`: no matching line is an error, and so is more than one when
/// `multiple` is false; otherwise the new content is the edited lines
/// joined by `\n`.
pub fn plan_edit(content: &str, old_str: &str, new_str: &str, multiple: bool) -> (r: EditPlan)
    ensures
        ({
            let lines = split_lines(content@);
            let n = reported_count(content@, old_str@);
            if n == 0 {
                &&& r matches EditPlan::Fail(res)
                &&& res.error == FileEditError::OldStringNotFound
                &&& res.error_message@ == "Could not find exact match for oldStr in file"@
                &&& res.match_count == 0
            } else if !multiple && n > 1 {
                &&& r matches EditPlan::Fail(res)
                &&& res.error == FileEditError::MultipleMatches
                &&& res.error_message@ == "Found multiple matches ("@ + crate::text::decimal_int(
                    n as int,
                ) + "), but multiple is false"@
                &&& res.match_count == n
            } else {
                &&& r matches EditPlan::Write { content: c, match_count: m }
                &&& m == n
                &&& c@ == join_newline(replace_lines(lines, old_str@, new_str@, multiple))
            }
        }),
{
    let lines = split_into_lines(content);
    let ghost ls = lines@.map_values(|s: String| s@);
    let old = string_of(old_str);
    let mut count: usize = 0;
    let mut i: usize = 0;
    while i < lines.len()
        invariant
            i <= lines@.len(),
            ls == lines@.map_values(|s: String| s@),
            old@ == old_str@,
            count == count_equal(ls.take(i as int), old_str@),
            count <= i,
        decreases lines@.len() - i,
    {
        assert(ls.take(i + 1).drop_last() =~= ls.take(i as int));
        if lines[i] == old {
            count += 1;
        }
        i += 1;
    }
    assert(ls.take(lines@.len() as int) =~= ls);
    #[verifier::truncate]
    let match_count = count as i32;
    if match_count == 0 {
        return EditPlan::Fail(
            FileEditResult {
                error: FileEditError::OldStringNotFound,
                error_message: string_of("Could not find exact match for oldStr in file"),
                match_count: 0,
            },
        );
    }
    if !multiple && match_count > 1 {
        let mut msg = string_of("Found multiple matches (");
        crate::text::push_decimal_i64(&mut msg, match_count as i64);
        push_str(&mut msg, "), but multiple is false");
        return EditPlan::Fail(
            FileEditResult { error: FileEditError::MultipleMatches, error_message: msg, match_count },
        );
    }
    let mut new_lines: Vec<String> = Vec::new();
    let mut replaced = false;
    proof {
        lemma_first_equal(ls, old_str@);
    }
    assert(new_lines@.map_values(|s: String| s@) =~= replace_lines(ls, old_str@, new_str@, multiple).take(0));
    let mut j: usize = 0;
    while j < lines.len()
        invariant
            j <= lines@.len(),
            ls == lines@.map_values(|s: String| s@),
            old@ == old_str@,
            replaced == (first_equal(ls, old_str@) < j),
            first_equal(ls, old_str@) <= ls.len(),
            new_lines@.map_values(|s: String| s@) == replace_lines(ls, old_str@, new_str@, multiple).take(j as int),
        decreases lines@.len() - j,
    {
        let ghost before = new_lines@.map_values(|s: String| s@);
        proof {
            lemma_first_equal(ls, old_str@);
        }
        assert(ls[j as int] == lines@[j as int]@);
        let ghost expected = replace_lines(ls, old_str@, new_str@, multiple)[j as int];
        let item = if lines[j] == old && (multiple || !replaced) {
            replaced = true;
            string_of(new_str)
        } else {
            if lines[j] == old {
                replaced = true;
            }
            string_of(lines[j].as_str())
        };
        assert(item@ == expected);
        new_lines.push(item);
        assert(new_lines@.map_values(|s: String| s@) =~= before.push(expected));
        j += 1;
        assert(new_lines@.map_values(|s: String| s@) =~= replace_lines(ls, old_str@, new_str@, multiple).take(j as int));
    }
    assert(replace_lines(ls, old_str@, new_str@, multiple).take(lines@.len() as int) =~= replace_lines(ls, old_str@, new_str@, multiple));
    let joined = join_strings_newline(new_lines.as_slice());
    EditPlan::Write { content: joined, match_count }
}

proof fn lemma_first_equal(lines: Seq<Seq<char>>, old: Seq<char>)
    ensures
        0 <= first_equal(lines, old) <= lines.len(),
        forall|j: int| 0 <= j < first_equal(lines, old) ==> lines[j] != old,
        first_equal(lines, old) < lines.len() ==> lines[first_equal(lines, old)] == old,
    decreases lines.len(),
{
    if lines.len() > 0 && lines[0] != old {
        lemma_first_equal(lines.drop_first(), old);
        assert forall|j: int| 0 <= j < first_equal(lines, old) implies lines[j] != old by {
            if j > 0 {
                assert(lines[j] == lines.drop_first()[j - 1]);
            }
        }
    }
}

/// The result of an edit once its new content was handed to the writer:
/// success, a write failure (with the writer's message), or any other
/// writer refusal reported as a read failure.
pub fn edit_result_after_write(write: &FileWriterResult, match_count: i32) -> (r: FileEditResult)
    ensures
        r.match_count == match_count,
        r.error_message@ == if write.error == FileWriterError::Success {
            Seq::<char>::empty()
        } else {
            write.error_message@
        },
        r.error == match write.error {
            FileWriterError::Success => FileEditError::Success,
            FileWriterError::WriteFailed => FileEditError::WriteFailed,
            _ => FileEditError::ReadFailed,
        },
{
    match write.error {
        FileWriterError::Success => FileEditResult {
            error: FileEditError::Success,
            error_message: String::new(),
            match_count,
        },
        FileWriterError::WriteFailed => FileEditResult {
            error: FileEditError::WriteFailed,
            error_message: string_of(write.error_message.as_str()),
            match_count,
        },
        _ => FileEditResult {
            error: FileEditError::ReadFailed,
            error_message: string_of(write.error_message.as_str()),
            match_count,
        },
    }
}


// ---------------------------------------------------------------------
// Editing a file
// ---------------------------------------------------------------------

/// What to do about an edit: report at once, or write the edited content
/// to the resolved path and then call [`finish_edit`].
pub enum EditStep {
    Done(FileEditResult),
    Write { absolute_path: String, content: String, match_count: i32 },
}

/// Whether an edit step reports at once with this outcome, message and
/// count.
pub open spec fn edit_done_with(r: EditStep, e: FileEditError, msg: Seq<char>, n: i32) -> bool {
    match r {
        EditStep::Done(x) => x.error == e && x.error_message@ == msg && x.match_count == n,
        _ => false,
    }
}

/// The step for an edit of the content `c` read from `abs` (see
/// [`plan_edit`]).
pub open spec fn edit_content_step(
    r: EditStep,
    c: Seq<char>,
    old: Seq<char>,
    new: Seq<char>,
    multiple: bool,
    abs: Seq<char>,
) -> bool {
    let n = reported_count(c, old);
    if n == 0 {
        edit_done_with(
            r,
            FileEditError::OldStringNotFound,
            "Could not find exact match for oldStr in file"@,
            0,
        )
    } else if !multiple && n > 1 {
        edit_done_with(
            r,
            FileEditError::MultipleMatches,
            "Found multiple matches ("@ + crate::text::decimal_int(n as int)
                + "), but multiple is false"@,
            n,
        )
    } else {
        match r {
            EditStep::Write { absolute_path, content, match_count } => absolute_path@ == abs
                && match_count == n && content@ == join_newline(
                replace_lines(split_lines(c), old, new, multiple),
            ),
            _ => false,
        }
    }
}

/// Edits the file at `path`: replaces its lines equal to `old_str` by
/// `new_str` (all of them when `multiple`, else exactly one).  `read` is
/// what reading the resolved path gave.
pub fn edit_file(
    path: &str,
    old_str: &str,
    new_str: &str,
    multiple: bool,
    rules: &IgnoreRules,
    current_dir: &str,
    read: Result<String, String>,
) -> (r: EditStep)
    ensures
        ({
            let abs = workspace_path(path@, current_dir@);
            if abs.len() == 0 {
                edit_done_with(r, FileEditError::FileNotFound, "Could not resolve path"@, 0)
            } else if path_ignored(
                pattern_texts(rules.global_patterns@),
                pattern_texts(rules.project_patterns@),
                path@,
                current_dir@,
            ) {
                edit_done_with(r, FileEditError::ReadFailed, "Access denied by .crownignore rules"@, 0)
            } else {
                match read {
                    Err(e) => edit_done_with(
                        r,
                        FileEditError::ReadFailed,
                        "Error reading file: "@ + e@,
                        0,
                    ),
                    Ok(c) => edit_content_step(r, c@, old_str@, new_str@, multiple, abs),
                }
            }
        }),
{
    let absolute_path = resolve_workspace_path(path, current_dir);
    if absolute_path.as_str().is_empty() {
        return EditStep::Done(
            FileEditResult {
                error: FileEditError::FileNotFound,
                error_message: string_of("Could not resolve path"),
                match_count: 0,
            },
        );
    }
    if check_ignore_path(rules, path, current_dir) {
        return EditStep::Done(
            FileEditResult {
                error: FileEditError::ReadFailed,
                error_message: string_of("Access denied by .crownignore rules"),
                match_count: 0,
            },
        );
    }
    let content = match read {
        Ok(c) => c,
        Err(e) => {
            let mut msg = string_of("Error reading file: ");
            push_str(&mut msg, e.as_str());
            return EditStep::Done(
                FileEditResult { error: FileEditError::ReadFailed, error_message: msg, match_count: 0 },
            );
        },
    };
    match plan_edit(content.as_str(), old_str, new_str, multiple) {
        EditPlan::Fail(res) => EditStep::Done(res),
        EditPlan::Write { content, match_count } => {
            match write_file_content(path, rules, current_dir) {
                WriteStep::Done(w) => EditStep::Done(edit_result_after_write(&w, match_count)),
                WriteStep::Write { absolute_path } => EditStep::Write {
                    absolute_path,
                    content,
                    match_count,
                },
            }
        },
    }
}

/// The outcome of writing the edited content (see [`finish_write`]).
pub fn finish_edit(cache: &mut FileCache, absolute_path: &str, match_count: i32, outcome: Result<(), String>) -> (r: FileEditResult)
    requires
        old(cache).wf(),
    ensures
        final(cache).wf(),
        r.match_count == match_count,
        match outcome {
            Ok(_) => {
                &&& r.error == FileEditError::Success
                &&& r.error_message@.len() == 0
                &&& cached(*final(cache), absolute_path@) is None
                &&& same_but(*old(cache), *final(cache), slot_of(absolute_path@))
            },
            Err(e) => {
                &&& r.error == FileEditError::WriteFailed
                &&& r.error_message@ == "Error writing file: "@ + e@
                &&& *final(cache) == *old(cache)
            },
        },
{
    let w = finish_write(cache, absolute_path, outcome);
    edit_result_after_write(&w, match_count)
}

// ---------------------------------------------------------------------
// Laws
// ---------------------------------------------------------------------

proof fn lemma_join_cons(x: Seq<char>, rest: Seq<Seq<char>>)
    requires
        rest.len() > 0,
    ensures
        join_newline(seq![x] + rest) == x + seq!['\n'] + join_newline(rest),
    decreases rest.len(),
{
    let z = seq![x] + rest;
    if rest.len() == 1 {
        assert(z.drop_last() =~= seq![x]);
        assert(z.last() == rest[0]);
        assert(join_newline(z) == join_newline(z.drop_last()) + seq!['\n'] + z.last());
        assert(join_newline(seq![x]) == x);
        assert(join_newline(rest) == rest[0]);
    } else {
        lemma_join_cons(x, rest.drop_last());
        assert(z.drop_last() =~= seq![x] + rest.drop_last());
        assert(join_newline(z) == join_newline(z.drop_last()) + seq!['\n'] + z.last());
        assert(join_newline(rest) == join_newline(rest.drop_last()) + seq!['\n'] + rest.last());
        assert(x + seq!['\n'] + join_newline(rest.drop_last()) + seq!['\n'] + rest.last()
            =~= x + seq!['\n'] + (join_newline(rest.drop_last()) + seq!['\n'] + rest.last()));
    }
}

/// Splitting a text always gives at least one line.
pub proof fn lemma_split_nonempty(s: Seq<char>)
    ensures
        split_lines(s).len() > 0,
    decreases s.len(),
{
    let k = first_newline(s);
    if 0 <= k < s.len() {
        lemma_split_nonempty(s.skip(k + 1));
    }
}

proof fn lemma_first_newline_props(t: Seq<char>)
    ensures
        0 <= first_newline(t) <= t.len(),
        first_newline(t) < t.len() ==> t[first_newline(t)] == '\n',
    decreases t.len(),
{
    if t.len() > 0 && t[0] != '\n' {
        lemma_first_newline_props(t.drop_first());
    }
}

/// Splitting a text into lines and joining them again gives the text back.
pub proof fn law_join_split_round_trip(s: Seq<char>)
    ensures
        join_newline(split_lines(s)) == s,
    decreases s.len(),
{
    lemma_first_newline_props(s);
    let k = first_newline(s);
    if 0 <= k < s.len() {
        law_join_split_round_trip(s.skip(k + 1));
        lemma_split_nonempty(s.skip(k + 1));
        lemma_join_cons(s.take(k), split_lines(s.skip(k + 1)));
        assert(s.take(k) + seq!['\n'] + s.skip(k + 1) =~= s);
    }
}

/// An edit that replaces a single line leaves every other line as it was.
pub proof fn law_single_edit_touches_one_line(
    lines: Seq<Seq<char>>,
    old: Seq<char>,
    new: Seq<char>,
    i: int,
)
    requires
        0 <= i < lines.len(),
        i != first_equal(lines, old),
    ensures
        replace_lines(lines, old, new, false)[i] == lines[i],
{
}

proof fn lemma_split_join(lines: Seq<Seq<char>>)
    requires
        lines.len() > 0,
        forall|i: int| 0 <= i < lines.len() ==> !(#[trigger] lines[i]).contains('\n'),
    ensures
        split_lines(join_newline(lines)) == lines,
    decreases lines.len(),
{
    let x = lines[0];
    assert forall|j: int| 0 <= j < x.len() implies x[j] != '\n' by {
        if x[j] == '\n' {
            assert(lines[0].contains('\n'));
        }
    }
    if lines.len() == 1 {
        lemma_first_newline_at(x, x.len() as int);
        assert(seq![x] =~= lines);
    } else {
        let rest = lines.drop_first();
        assert forall|i: int| 0 <= i < rest.len() implies !(#[trigger] rest[i]).contains('\n') by {
            assert(rest[i] == lines[i + 1]);
        }
        lemma_split_join(rest);
        assert(seq![x] + rest =~= lines);
        lemma_join_cons(x, rest);
        let t = x + seq!['\n'] + join_newline(rest);
        assert forall|j: int| 0 <= j < x.len() implies t[j] != '\n' by {
            assert(t[j] == x[j]);
        }
        lemma_first_newline_at(t, x.len() as int);
        assert(t.take(x.len() as int) =~= x);
        assert(t.skip(x.len() as int + 1) =~= join_newline(rest));
    }
}

/// An edit that writes, with a replacement holding no newline, leaves a
/// file whose lines are the old lines with the matching ones replaced: as
/// many lines as before, each either kept or, where it equalled `old`,
/// replaced by `new` (all of them when `multiple`, else the first).
pub proof fn law_edit_rewrites_matching_lines(
    r: EditStep,
    c: Seq<char>,
    old: Seq<char>,
    new: Seq<char>,
    multiple: bool,
    abs: Seq<char>,
)
    requires
        edit_content_step(r, c, old, new, multiple, abs),
        r is Write,
        !new.contains('\n'),
    ensures
        r matches EditStep::Write { content, .. } && split_lines(content@) == replace_lines(
            split_lines(c),
            old,
            new,
            multiple,
        ),
        replace_lines(split_lines(c), old, new, multiple).len() == split_lines(c).len(),
{
    let lines = split_lines(c);
    let rl = replace_lines(lines, old, new, multiple);
    lemma_split_nonempty(c);
    lemma_split_lines_no_newline(c);
    assert forall|i: int| 0 <= i < rl.len() implies !(#[trigger] rl[i]).contains('\n') by {
        assert(!lines[i].contains('\n'));
    }
    lemma_split_join(rl);
}

proof fn lemma_split_lines_no_newline(s: Seq<char>)
    ensures
        forall|i: int| 0 <= i < split_lines(s).len() ==> !(#[trigger] split_lines(s)[i]).contains('\n'),
    decreases s.len(),
{
    lemma_first_newline_bounds(s);
    let k = first_newline(s);
    if 0 <= k < s.len() {
        lemma_split_lines_no_newline(s.skip(k + 1));
        assert forall|i: int| 0 <= i < split_lines(s).len() implies !(#[trigger] split_lines(s)[i]).contains('\n') by {
            if i == 0 {
                if s.take(k).contains('\n') {
                    let j = choose|j: int| 0 <= j < k && s.take(k)[j] == '\n';
                    assert(s[j] == '\n');
                }
            } else {
                assert(split_lines(s)[i] == split_lines(s.skip(k + 1))[i - 1]);
            }
        }
    } else {
        if s.contains('\n') {
            let j = choose|j: int| 0 <= j < s.len() && s[j] == '\n';
            assert(s[j] == '\n');
        }
    }
}

proof fn lemma_first_newline_bounds(t: Seq<char>)
    ensures
        0 <= first_newline(t) <= t.len(),
        forall|j: int| 0 <= j < first_newline(t) ==> t[j] != '\n',
    decreases t.len(),
{
    if t.len() > 0 && t[0] != '\n' {
        lemma_first_newline_bounds(t.drop_first());
        assert forall|j: int| 0 <= j < first_newline(t) implies t[j] != '\n' by {
            if j > 0 {
                assert(t[j] == t.drop_first()[j - 1]);
            }
        }
    }
}

} // verus!
