//! `.crownignore` rules: glob patterns, read from the user's global file
//! and the project's file, that hide paths from the agent's tools.  The
//! files are read by the caller; parsing and matching are here.
use vstd::prelude::*;
use crate::glob::{fnmatch_pathname, glob_matches};
use crate::pathutils::{relative_form, to_rel_path};
use crate::text::{chars_of, push_str, string_from_chars, string_of};
use crate::xdiff::{text_lines, text_lines_of};

verus! {

/// The loaded ignore patterns.
pub struct IgnoreRules {
    pub global_patterns: Vec<String>,
    pub project_patterns: Vec<String>,
    pub initialized: bool,
}

/// The patterns of a list as text.
pub open spec fn pattern_texts(v: Seq<String>) -> Seq<Seq<char>> {
    v.map_values(|s: String| s@)
}

impl IgnoreRules {
    /// No patterns, not loaded yet.
    pub fn new() -> (r: Self)
        ensures
            r.global_patterns@.len() == 0,
            r.project_patterns@.len() == 0,
            !r.initialized,
    {
        IgnoreRules { global_patterns: Vec::new(), project_patterns: Vec::new(), initialized: false }
    }
}

/// Forgets all patterns, so that they are loaded again before the next
/// check.
pub fn reset_ignore_rules(rules: &mut IgnoreRules)
    ensures
        final(rules).global_patterns@.len() == 0,
        final(rules).project_patterns@.len() == 0,
        !final(rules).initialized,
{
    rules.global_patterns.clear();
    rules.project_patterns.clear();
    rules.initialized = false;
}

/// Whether the patterns must be read from the files before the next check
/// (none were installed since the rules were made or reset).
pub fn needs_loading(rules: &IgnoreRules) -> (r: bool)
    ensures
        r == !rules.initialized,
{
    !rules.initialized
}

/// Records the patterns read from the global and the project file.
pub fn install_ignore_rules(rules: &mut IgnoreRules, global: Vec<String>, project: Vec<String>)
    ensures
        final(rules).global_patterns@ == global@,
        final(rules).project_patterns@ == project@,
        final(rules).initialized,
{
    rules.global_patterns = global;
    rules.project_patterns = project;
    rules.initialized = true;
}

/// A character trimmed from the end of a pattern line.
pub open spec fn is_trailing_blank(c: char) -> bool {
    c == ' ' || c == '\t' || c == '\r' || c == '\n'
}

/// `s` without trailing spaces, tabs and line endings.
pub open spec fn trim_end_blank(s: Seq<char>) -> Seq<char>
    decreases s.len(),
{
    if s.len() > 0 && is_trailing_blank(s.last()) {
        trim_end_blank(s.drop_last())
    } else {
        s
    }
}

/// The patterns among `lines`: each line trimmed at its end, without the
/// empty lines and the comments (lines starting with `#`).
pub open spec fn ignore_patterns(lines: Seq<Seq<char>>) -> Seq<Seq<char>>
    decreases lines.len(),
{
    if lines.len() == 0 {
        Seq::empty()
    } else {
        let t = trim_end_blank(lines.last());
        let rest = ignore_patterns(lines.drop_last());
        if t.len() == 0 || t[0] == '#' {
            rest
        } else {
            rest.push(t)
        }
    }
}

proof fn lemma_trim_end_at(s: Seq<char>, e: int)
    requires
        0 <= e <= s.len(),
        forall|j: int| e <= j < s.len() ==> is_trailing_blank(s[j]),
        e == 0 || !is_trailing_blank(s[e - 1]),
    ensures
        trim_end_blank(s) == s.take(e),
    decreases s.len(),
{
    if s.len() > e {
        lemma_trim_end_at(s.drop_last(), e);
        assert(s.drop_last().take(e) =~= s.take(e));
    } else {
        assert(s.take(e) =~= s);
    }
}

fn trim_end_blank_string(s: &String) -> (r: String)
    ensures
        r@ == trim_end_blank(s@),
{
    let v = chars_of(s.as_str());
    let mut e = v.len();
    while e > 0 && (v[e - 1] == ' ' || v[e - 1] == '\t' || v[e - 1] == '\r' || v[e - 1] == '\n')
        invariant
            e <= v@.len(),
            forall|j: int| e <= j < v@.len() ==> is_trailing_blank(v@[j]),
        decreases e,
    {
        e -= 1;
    }
    proof {
        lemma_trim_end_at(v@, e as int);
        assert(v@.take(e as int) =~= v@.subrange(0, e as int));
    }
    string_from_chars(&v, 0, e)
}

/// The patterns of an ignore file's content.
pub fn parse_ignore_file(content: &str) -> (r: Vec<String>)
    ensures
        pattern_texts(r@) == ignore_patterns(text_lines(content@)),
{
    let lines = text_lines_of(content);
    let ghost lv = lines@.map_values(|x: String| x@);
    let mut patterns: Vec<String> = Vec::new();
    let mut i: usize = 0;
    while i < lines.len()
        invariant
            i <= lines@.len(),
            lv == lines@.map_values(|x: String| x@),
            pattern_texts(patterns@) == ignore_patterns(lv.take(i as int)),
        decreases lines@.len() - i,
    {
        let t = trim_end_blank_string(&lines[i]);
        let tv = chars_of(t.as_str());
        let ghost before = patterns@;
        assert(lv.take(i + 1).drop_last() =~= lv.take(i as int));
        assert(lv.take(i + 1).last() == lines@[i as int]@);
        if !(tv.len() == 0 || tv[0] == '#') {
            patterns.push(t);
            assert(pattern_texts(patterns@) =~= pattern_texts(before).push(tv@));
        }
        i += 1;
    }
    assert(lv.take(lines@.len() as int) =~= lv);
    patterns
}

/// Whether the glob `pat` matches `rel` as a path (`*` stops at `/`).
pub open spec fn path_glob_matches(pat: Seq<char>, rel: Seq<char>) -> bool {
    glob_matches(vstd::utf8::encode_utf8(pat), vstd::utf8::encode_utf8(rel), true)
}

/// Whether an ignore pattern selects the relative path `rel`: the glob
/// matches the path, or, for a glob without `/`, matches it at any depth
/// (`*/` before it); a leading `!` inverts the answer.
pub open spec fn ignore_match(pattern: Seq<char>, rel: Seq<char>) -> bool {
    let negate = pattern.len() > 0 && pattern[0] == '!';
    let pat = if negate {
        pattern.drop_first()
    } else {
        pattern
    };
    let m = path_glob_matches(pat, rel) || (!pat.contains('/') && path_glob_matches(
        "*/"@ + pat,
        rel,
    ));
    if negate {
        !m
    } else {
        m
    }
}

fn has_slash(v: &Vec<char>, from: usize) -> (r: bool)
    requires
        from <= v@.len(),
    ensures
        r == v@.skip(from as int).contains('/'),
{
    let mut i = from;
    while i < v.len()
        invariant
            from <= i <= v@.len(),
            forall|j: int| from <= j < i ==> v@[j] != '/',
        decreases v@.len() - i,
    {
        if v[i] == '/' {
            assert(v@.skip(from as int)[i - from] == '/');
            return true;
        }
        i += 1;
    }
    assert forall|j: int| 0 <= j < v@.skip(from as int).len() implies v@.skip(from as int)[j] != '/' by {
        assert(v@.skip(from as int)[j] == v@[j + from]);
    }
    false
}

/// Whether `pattern` selects the relative path `rel_path` (see
/// [`ignore_match`]).
pub fn match_ignore_pattern(pattern: &str, rel_path: &str) -> (r: bool)
    ensures
        r == ignore_match(pattern@, rel_path@),
{
    let v = chars_of(pattern);
    let negate = v.len() > 0 && v[0] == '!';
    let from: usize = if negate {
        1
    } else {
        0
    };
    let pat = string_from_chars(&v, from, v.len());
    assert(pat@ =~= v@.skip(from as int));
    assert(negate ==> pat@ =~= pattern@.drop_first());
    assert(!negate ==> pat@ =~= pattern@);
    let mut matched = fnmatch_pathname(pat.as_str(), rel_path);
    if !matched && !has_slash(&v, from) {
        let mut star = String::new();
        push_str(&mut star, "*/");
        push_str(&mut star, pat.as_str());
        assert(star@ =~= "*/"@ + pat@);
        matched = fnmatch_pathname(star.as_str(), rel_path);
    }
    if negate {
        !matched
    } else {
        matched
    }
}

/// Whether some pattern of `patterns` selects `rel`.
pub open spec fn any_ignores(patterns: Seq<Seq<char>>, rel: Seq<char>) -> bool {
    exists|i: int| 0 <= i < patterns.len() && ignore_match(#[trigger] patterns[i], rel)
}

fn first_ignoring(patterns: &Vec<String>, rel: &str) -> (r: bool)
    ensures
        r == any_ignores(pattern_texts(patterns@), rel@),
{
    let ghost pv = pattern_texts(patterns@);
    let mut i: usize = 0;
    while i < patterns.len()
        invariant
            i <= patterns@.len(),
            pv == pattern_texts(patterns@),
            forall|k: int| 0 <= k < i ==> !ignore_match(#[trigger] pv[k], rel@),
        decreases patterns@.len() - i,
    {
        assert(pv[i as int] == patterns@[i as int]@);
        if match_ignore_pattern(patterns[i].as_str(), rel) {
            return true;
        }
        i += 1;
    }
    false
}

/// Whether the rules hide `path`: it is not empty, and some global or
/// project pattern selects it as shown relative to `current_dir`.
pub open spec fn path_ignored(
    global: Seq<Seq<char>>,
    project: Seq<Seq<char>>,
    path: Seq<char>,
    current_dir: Seq<char>,
) -> bool {
    let rel = relative_form(path, current_dir);
    path.len() > 0 && (any_ignores(global, rel) || any_ignores(project, rel))
}

/// Whether the loaded rules hide `path`, with relative paths taken from
/// `current_dir`.
pub fn check_ignore_path(rules: &IgnoreRules, path: &str, current_dir: &str) -> (r: bool)
    ensures
        r == path_ignored(
            pattern_texts(rules.global_patterns@),
            pattern_texts(rules.project_patterns@),
            path@,
            current_dir@,
        ),
{
    if path.is_empty() {
        return false;
    }
    if rules.global_patterns.len() == 0 && rules.project_patterns.len() == 0 {
        return false;
    }
    let rel = to_rel_path(path, None, current_dir);
    if first_ignoring(&rules.global_patterns, rel.as_str()) {
        return true;
    }
    first_ignoring(&rules.project_patterns, rel.as_str())
}


/// Putting `!` before a pattern that does not start with `!` inverts which
/// paths it selects.
pub proof fn law_bang_inverts_ignore_pattern(pattern: Seq<char>, rel: Seq<char>)
    requires
        !(pattern.len() > 0 && pattern[0] == '!'),
    ensures
        ignore_match(seq!['!'] + pattern, rel) == !ignore_match(pattern, rel),
{
    assert((seq!['!'] + pattern).drop_first() =~= pattern);
}

/// No rule hides the empty path.
pub proof fn law_empty_path_never_ignored(global: Seq<Seq<char>>, project: Seq<Seq<char>>, current_dir: Seq<char>)
    ensures
        !path_ignored(global, project, Seq::empty(), current_dir),
{
}

/// After a reset the rules hide nothing and are due to be loaded again;
/// once new patterns are installed, a check answers from those patterns
/// alone, whatever was installed before the reset.
pub proof fn law_reset_then_reload(
    reset: IgnoreRules,
    reloaded: IgnoreRules,
    global: Seq<String>,
    project: Seq<String>,
    path: Seq<char>,
    current_dir: Seq<char>,
)
    requires
        reset.global_patterns@.len() == 0,
        reset.project_patterns@.len() == 0,
        !reset.initialized,
        reloaded.global_patterns@ == global,
        reloaded.project_patterns@ == project,
        reloaded.initialized,
    ensures
        !path_ignored(pattern_texts(reset.global_patterns@), pattern_texts(reset.project_patterns@), path, current_dir),
        !reset.initialized,
        path_ignored(pattern_texts(reloaded.global_patterns@), pattern_texts(reloaded.project_patterns@), path, current_dir)
            == path_ignored(pattern_texts(global), pattern_texts(project), path, current_dir),
{
    assert(pattern_texts(reset.global_patterns@) =~= Seq::<Seq<char>>::empty());
    assert(pattern_texts(reset.project_patterns@) =~= Seq::<Seq<char>>::empty());
}

/// A path is hidden exactly when it is not empty and some pattern of the
/// global and project patterns together selects its relative form (see
/// [`ignore_match`]: the glob, or for a glob without `/` the glob at any
/// depth, inverted by a leading `!`).
pub proof fn law_ignored_when_some_pattern_fires(
    global: Seq<Seq<char>>,
    project: Seq<Seq<char>>,
    path: Seq<char>,
    current_dir: Seq<char>,
)
    ensures
        path_ignored(global, project, path, current_dir) == (path.len() > 0 && exists|i: int|
            0 <= i < (global + project).len() && ignore_match(
                #[trigger] (global + project)[i],
                relative_form(path, current_dir),
            )),
{
    let rel = relative_form(path, current_dir);
    let all = global + project;
    if any_ignores(global, rel) {
        let i = choose|i: int| 0 <= i < global.len() && ignore_match(#[trigger] global[i], rel);
        assert(all[i] == global[i]);
    }
    if any_ignores(project, rel) {
        let i = choose|i: int| 0 <= i < project.len() && ignore_match(#[trigger] project[i], rel);
        assert(all[global.len() + i] == project[i]);
    }
    if exists|i: int| 0 <= i < all.len() && ignore_match(#[trigger] all[i], rel) {
        let i = choose|i: int| 0 <= i < all.len() && ignore_match(#[trigger] all[i], rel);
        if i < global.len() {
            assert(all[i] == global[i]);
        } else {
            assert(all[i] == project[i - global.len()]);
        }
    }
}

} // verus!
