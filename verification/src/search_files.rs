//! Searching the files under a directory for a regular expression, with a
//! line of context around each hit.  The caller walks the directory tree
//! and reads the files; which entries are searched or entered, and what
//! is reported, is decided here.
use vstd::prelude::*;
use vstd::string::StringSliceAdditionalSpecFns;
use crate::glob::{glob_pattern_matches, match_glob};
use crate::ignore_rules::{check_ignore_path, path_ignored, pattern_texts, IgnoreRules};
use crate::search::{get_line, is_match_record, new_search, nth_line, regex_build_error, scan_matches, Match, Search};
use crate::text::{chars_of, push_str, string_from_chars, string_of};

verus! {

pub const MAX_SEARCH_DEPTH: usize = 10;
pub const MAX_SEARCH_OUTPUT: usize = 262144;

/// How a file search ended.
#[derive(Debug, Clone, Copy, PartialEq, Eq, Structural)]
pub enum SearchFilesError {
    Success,
    NullParam,
    DirNotFound,
    RegexError,
}

/// The report of a file search.
#[derive(Debug, Clone)]
pub struct SearchFilesResult {
    pub results: String,
    pub match_count: usize,
    pub error: SearchFilesError,
    pub error_message: String,
}

/// What to do first: report at once, or walk the directory with the
/// compiled search, adding to the (empty, successful) report.
pub enum SearchPlan {
    Finished(SearchFilesResult),
    Walk(Search, SearchFilesResult),
}

/// What to do with a directory entry met on the walk.
#[derive(Debug, Clone, Copy, PartialEq, Eq, Structural)]
pub enum EntryAction {
    Skip,
    Descend,
    SearchFile,
}

/// An empty report with this outcome.
pub open spec fn is_bare_report(r: SearchFilesResult, e: SearchFilesError) -> bool {
    r.results@.len() == 0 && r.match_count == 0 && r.error == e
}

/// Whether the plan reports at once an empty report with this outcome
/// and message.
pub open spec fn finishes_with(r: SearchPlan, e: SearchFilesError, msg: Seq<char>) -> bool {
    match r {
        SearchPlan::Finished(f) => is_bare_report(f, e) && f.error_message@ == msg,
        _ => false,
    }
}

/// Whether the plan walks the directory searching for `regex` (with no
/// options) into an empty successful report.
pub open spec fn walks_with(r: SearchPlan, regex: Seq<char>) -> bool {
    match r {
        SearchPlan::Walk(s, f) => s.pattern_text() == regex && s.options() == (false, false, false)
            && is_bare_report(f, SearchFilesError::Success) && f.error_message@.len() == 0,
        _ => false,
    }
}

/// The plan for a search (see [`search_files`]): empty parameters are
/// refused, then a missing directory, then a regex that does not compile;
/// otherwise the directory is walked.
pub open spec fn search_planned(
    r: SearchPlan,
    directory: Seq<char>,
    regex: Seq<char>,
    file_pattern: Seq<char>,
    dir_exists: bool,
) -> bool {
    if directory.len() == 0 || regex.len() == 0 || file_pattern.len() == 0 {
        finishes_with(r, SearchFilesError::NullParam, "parameters cannot be empty"@)
    } else if !dir_exists {
        finishes_with(r, SearchFilesError::DirNotFound, "directory not found: "@ + directory)
    } else {
        match regex_build_error(regex, false, false, false) {
            Some(m) => finishes_with(r, SearchFilesError::RegexError, "invalid regex: "@ + m),
            None => walks_with(r, regex),
        }
    }
}

/// Checks the arguments and compiles `regex`.  `dir_exists` tells whether
/// `directory` is an existing directory.
pub fn search_files(directory: &str, regex: &str, file_pattern: &str, dir_exists: bool) -> (r: SearchPlan)
    ensures
        search_planned(r, directory@, regex@, file_pattern@, dir_exists),
{
    if directory.is_empty() || regex.is_empty() || file_pattern.is_empty() {
        return SearchPlan::Finished(
            SearchFilesResult {
                results: String::new(),
                match_count: 0,
                error: SearchFilesError::NullParam,
                error_message: string_of("parameters cannot be empty"),
            },
        );
    }
    if !dir_exists {
        let mut msg = string_of("directory not found: ");
        push_str(&mut msg, directory);
        return SearchPlan::Finished(
            SearchFilesResult {
                results: String::new(),
                match_count: 0,
                error: SearchFilesError::DirNotFound,
                error_message: msg,
            },
        );
    }
    match new_search(regex, false, false, false) {
        Err(e) => {
            let mut msg = string_of("invalid regex: ");
            push_str(&mut msg, e.message.as_str());
            SearchPlan::Finished(
                SearchFilesResult {
                    results: String::new(),
                    match_count: 0,
                    error: SearchFilesError::RegexError,
                    error_message: msg,
                },
            )
        },
        Ok(s) => SearchPlan::Walk(
            s,
            SearchFilesResult {
                results: String::new(),
                match_count: 0,
                error: SearchFilesError::Success,
                error_message: String::new(),
            },
        ),
    }
}

/// What to do with an entry named `name` at `abs_path`, met in a
/// directory at walking depth `depth`: `.` and `..`, names the file
/// pattern does not match, and paths the ignore rules hide are skipped; a
/// directory is entered while the depth limit allows, a file is searched.
pub open spec fn entry_action_spec(
    name: Seq<char>,
    abs_path: Seq<char>,
    is_dir: bool,
    is_file: bool,
    file_pattern: Seq<char>,
    global: Seq<Seq<char>>,
    project: Seq<Seq<char>>,
    cwd: Seq<char>,
    depth: usize,
) -> EntryAction {
    if name == seq!['.'] || name == seq!['.', '.'] || !glob_pattern_matches(
        vstd::utf8::encode_utf8(file_pattern),
        vstd::utf8::encode_utf8(name),
        false,
    ) || path_ignored(global, project, abs_path, cwd) {
        EntryAction::Skip
    } else if is_dir {
        if depth < MAX_SEARCH_DEPTH {
            EntryAction::Descend
        } else {
            EntryAction::Skip
        }
    } else if is_file {
        EntryAction::SearchFile
    } else {
        EntryAction::Skip
    }
}

/// Decides what to do with one directory entry (see
/// [`entry_action_spec`]).
pub fn entry_action(
    name: &str,
    abs_path: &str,
    is_dir: bool,
    is_file: bool,
    file_pattern: &str,
    rules: &IgnoreRules,
    current_dir: &str,
    depth: usize,
) -> (r: EntryAction)
    ensures
        r == entry_action_spec(
            name@,
            abs_path@,
            is_dir,
            is_file,
            file_pattern@,
            pattern_texts(rules.global_patterns@),
            pattern_texts(rules.project_patterns@),
            current_dir@,
            depth,
        ),
{
    let v = chars_of(name);
    let dots = (v.len() == 1 && v[0] == '.') || (v.len() == 2 && v[0] == '.' && v[1] == '.');
    assert(dots <==> (name@ == seq!['.'] || name@ == seq!['.', '.'])) by {
        if v@.len() == 1 && v@[0] == '.' {
            assert(v@ =~= seq!['.']);
        }
        if v@.len() == 2 && v@[0] == '.' && v@[1] == '.' {
            assert(v@ =~= seq!['.', '.']);
        }
    }
    if dots || !match_glob(name, file_pattern) || check_ignore_path(rules, abs_path, current_dir) {
        EntryAction::Skip
    } else if is_dir {
        if depth < MAX_SEARCH_DEPTH {
            EntryAction::Descend
        } else {
            EntryAction::Skip
        }
    } else if is_file {
        EntryAction::SearchFile
    } else {
        EntryAction::Skip
    }
}

/// The path shown for a file: its path after `base/`, or the whole path
/// when it does not start with `base/`.
pub open spec fn shown_path(abs_path: Seq<char>, base: Seq<char>) -> Seq<char> {
    let prefix = base.push('/');
    if prefix.len() <= abs_path.len() && abs_path.take(prefix.len() as int) == prefix {
        abs_path.skip(prefix.len() as int)
    } else {
        abs_path
    }
}

/// The path of a file as shown in the report (see [`shown_path`]).
pub fn relative_to_base(abs_path: &str, base_dir: &str) -> (r: String)
    ensures
        r@ == shown_path(abs_path@, base_dir@),
{
    let a = chars_of(abs_path);
    let b = chars_of(base_dir);
    let ghost prefix = b@.push('/');
    if b.len() < a.len() {
        let mut i: usize = 0;
        while i < b.len() && a[i] == b[i]
            invariant
                i <= b@.len() < a@.len(),
                forall|j: int| 0 <= j < i ==> a@[j] == b@[j],
            decreases b@.len() - i,
        {
            i += 1;
        }
        if i == b.len() && a[i] == '/' {
            assert(a@.take(prefix.len() as int) =~= prefix);
            let r = string_from_chars(&a, b.len() + 1, a.len());
            assert(r@ =~= a@.skip(prefix.len() as int));
            return r;
        }
        proof {
            if a@.take(prefix.len() as int) == prefix {
                if i < b@.len() {
                    assert(a@.take(prefix.len() as int)[i as int] == prefix[i as int]);
                } else {
                    assert(a@.take(prefix.len() as int)[i as int] == prefix[i as int]);
                }
            }
        }
    }
    string_of(abs_path)
}

/// The byte length of a text.
pub open spec fn byte_len(s: Seq<char>) -> nat {
    vstd::utf8::encode_utf8(s).len()
}

/// A context line, if there is one: `│` before it and a newline after.
pub open spec fn context_line(l: Option<Seq<char>>) -> Seq<char> {
    match l {
        Some(x) => "│"@ + x + "\n"@,
        None => Seq::empty(),
    }
}

/// The report block of one match: the file's shown path, a rule, the line
/// before (if the match is not on line 1 and that line exists), the
/// matching line, the line after (if it exists), and a closing rule.
pub open spec fn match_block(rel: Seq<char>, content: Seq<char>, m: Match) -> Seq<char> {
    let before = if m.line_number > 1 {
        context_line(nth_line(content, m.line_number - 1))
    } else {
        Seq::empty()
    };
    "\n"@ + rel + "\n│----\n"@ + before + "│"@ + m.line@ + "\n"@ + context_line(
        nth_line(content, m.line_number + 1),
    ) + "│----\n"@
}

/// The report `acc` with the blocks of `ms` added, until the report would
/// reach [`MAX_SEARCH_OUTPUT`] bytes: then a truncation note ends it.
pub open spec fn add_blocks(acc: Seq<char>, rel: Seq<char>, content: Seq<char>, ms: Seq<Match>) -> Seq<char>
    decreases ms.len(),
{
    if ms.len() == 0 {
        acc
    } else if byte_len(acc) + byte_len(rel) + byte_len(ms[0].line@) + 100 >= MAX_SEARCH_OUTPUT {
        acc + "\n[Results truncated...]\n"@
    } else {
        add_blocks(acc + match_block(rel, content, ms[0]), rel, content, ms.drop_first())
    }
}

fn push_context_line(out: &mut String, l: Option<String>)
    ensures
        final(out)@ == old(out)@ + context_line(
            match l {
                Some(x) => Some(x@),
                None => None,
            },
        ),
{
    match l {
        Some(x) => {
            push_str(out, "│");
            push_str(out, x.as_str());
            push_str(out, "\n");
        },
        None => {
            assert(out@ =~= old(out)@ + Seq::<char>::empty());
        },
    }
}

fn push_match_block(out: &mut String, rel_path: &str, content: &str, m: &Match)
    requires
        m.line_number < usize::MAX,
    ensures
        final(out)@ == old(out)@ + match_block(rel_path@, content@, *m),
{
    let ghost acc = out@;
    push_str(out, "\n");
    push_str(out, rel_path);
    push_str(out, "\n│----\n");
    let ghost mid = out@;
    if m.line_number > 1 {
        push_context_line(out, get_line(content, m.line_number - 1));
    }
    let ghost before = if m.line_number > 1 {
        context_line(nth_line(content@, m.line_number - 1))
    } else {
        Seq::<char>::empty()
    };
    assert(out@ =~= mid + before);
    push_str(out, "│");
    push_str(out, m.line.as_str());
    push_str(out, "\n");
    push_context_line(out, get_line(content, m.line_number + 1));
    push_str(out, "│----\n");
    assert(out@ =~= acc + match_block(rel_path@, content@, *m));
}

/// Adds the report blocks of `matches`, found in the file with content
/// `content` and shown path `rel_path`, and counts them.
pub fn add_file_matches(result: &mut SearchFilesResult, rel_path: &str, content: &str, matches: &Vec<Match>)
    requires
        old(result).match_count + matches@.len() <= usize::MAX,
        forall|i: int|
            0 <= i < matches@.len() ==> #[trigger] matches@[i].line_number < usize::MAX
                && byte_len(rel_path@) + byte_len(matches@[i].line@) + 100 <= usize::MAX,
    ensures
        final(result).match_count == old(result).match_count + matches@.len(),
        final(result).results@ == add_blocks(old(result).results@, rel_path@, content@, matches@),
        final(result).error == old(result).error,
        final(result).error_message == old(result).error_message,
{
    result.match_count = result.match_count + matches.len();
    let ghost start = result.results@;
    let mut i: usize = 0;
    assert(matches@.skip(0) =~= matches@);
    while i < matches.len()
        invariant
            i <= matches@.len(),
            start == old(result).results@,
            result.match_count == old(result).match_count + matches@.len(),
            result.error == old(result).error,
            result.error_message == old(result).error_message,
            forall|i: int|
                0 <= i < matches@.len() ==> #[trigger] matches@[i].line_number < usize::MAX
                    && byte_len(rel_path@) + byte_len(matches@[i].line@) + 100 <= usize::MAX,
            add_blocks(result.results@, rel_path@, content@, matches@.skip(i as int)) == add_blocks(
                start,
                rel_path@,
                content@,
                matches@,
            ),
        decreases matches@.len() - i,
    {
        let m = &matches[i];
        let ghost acc = result.results@;
        let ghost rest = matches@.skip(i as int);
        assert(rest[0] == matches@[i as int]);
        assert(rest.drop_first() =~= matches@.skip(i + 1));
        let needed = rel_path.as_bytes().len() + m.line.as_str().as_bytes().len() + 100;
        let have = result.results.as_str().as_bytes().len();
        assert(have == byte_len(acc));
        assert(needed == byte_len(rel_path@) + byte_len(m.line@) + 100);
        if needed >= MAX_SEARCH_OUTPUT || have >= MAX_SEARCH_OUTPUT - needed {
            assert(add_blocks(acc, rel_path@, content@, rest) == acc + "\n[Results truncated...]\n"@);
            push_str(&mut result.results, "\n[Results truncated...]\n");
            return;
        }
        push_match_block(&mut result.results, rel_path, content, m);
        assert(add_blocks(acc, rel_path@, content@, rest) == add_blocks(
            acc + match_block(rel_path@, content@, *m),
            rel_path@,
            content@,
            rest.drop_first(),
        ));
        i += 1;
    }
}

proof fn lemma_scan_count(search: Search, t: Seq<char>, pos: int)
    requires
        0 <= pos <= vstd::utf8::encode_utf8(t).len(),
    ensures
        scan_matches(search, t, pos).len() <= vstd::utf8::encode_utf8(t).len() - pos + 1,
    decreases vstd::utf8::encode_utf8(t).len() - pos,
{
    let len = vstd::utf8::encode_utf8(t).len();
    if pos <= len {
        match search.find_from(t, pos as usize) {
            None => {},
            Some((s, e)) => {
                let next = if e > pos + 1 {
                    e as int
                } else {
                    pos + 1
                };
                if next < len {
                    lemma_scan_count(search, t, next);
                }
            },
        }
    }
}

/// Whether `after` is `before` with the report blocks of the matches `ms`
/// added, `ms` being the records of the matches that `search` finds in
/// `content` scanning from its start.
pub open spec fn reports_matches(
    ms: Seq<Match>,
    search: Search,
    content: Seq<char>,
    rel: Seq<char>,
    before: SearchFilesResult,
    after: SearchFilesResult,
) -> bool {
    let spans = scan_matches(search, content, 0);
    &&& ms.len() == spans.len()
    &&& forall|i: int|
        0 <= i < ms.len() ==> is_match_record(#[trigger] ms[i], content, spans[i].0, spans[i].1)
    &&& after.results@ == add_blocks(before.results@, rel, content, ms)
    &&& after.match_count == before.match_count + ms.len()
}

/// Searches one file's content and adds a block for every match (see
/// [`add_blocks`]).
pub fn search_file(result: &mut SearchFilesResult, rel_path: &str, content: &str, search: &Search)
    requires
        old(result).match_count + byte_len(content@) + 1 <= usize::MAX,
        byte_len(rel_path@) + byte_len(content@) + 100 < usize::MAX,
    ensures
        final(result).error == old(result).error,
        final(result).error_message == old(result).error_message,
        content@.len() == 0 ==> final(result).results@ == old(result).results@
            && final(result).match_count == old(result).match_count,
        content@.len() != 0 ==> exists|ms: Seq<Match>|
            #[trigger] reports_matches(ms, *search, content@, rel_path@, *old(result), *final(result)),
{
    if content.is_empty() {
        return;
    }
    let matches = search.match_all(content, 0);
    let ghost spans = scan_matches(*search, content@, 0);
    proof {
        lemma_scan_count(*search, content@, 0);
        assert forall|i: int| 0 <= i < matches@.len() implies #[trigger] matches@[i].line_number
            < usize::MAX && byte_len(rel_path@) + byte_len(matches@[i].line@) + 100
            <= usize::MAX by {
            assert(matches@[i].line_number <= content.spec_bytes().len() + 1);
        }
    }
    let ghost before = *result;
    add_file_matches(result, rel_path, content, &matches);
    assert(reports_matches(matches@, *search, content@, rel_path@, before, *result));
}

/// A search is refused for empty parameters exactly when the directory,
/// the regex or the file pattern is empty; it then reports no match, no
/// results and the message "parameters cannot be empty".
pub proof fn law_empty_parameters_refused(
    r: SearchPlan,
    directory: Seq<char>,
    regex: Seq<char>,
    file_pattern: Seq<char>,
    dir_exists: bool,
)
    requires
        search_planned(r, directory, regex, file_pattern, dir_exists),
    ensures
        (r matches SearchPlan::Finished(f) && f.error == SearchFilesError::NullParam) <==> (directory.len() == 0
            || regex.len() == 0 || file_pattern.len() == 0),
        (directory.len() == 0 || regex.len() == 0 || file_pattern.len() == 0) ==> (r matches SearchPlan::Finished(f)
            && f.match_count == 0 && f.results@.len() == 0 && f.error_message@ == "parameters cannot be empty"@),
{
}

} // verus!
