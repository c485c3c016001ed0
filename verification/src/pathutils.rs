//! Workspace paths: slashes normalised, relative paths resolved against
//! the working directory, and absolute paths shown relative to it.  The
//! working directory itself is the caller's to find out.
use vstd::prelude::*;
use crate::text::{chars_of, push_char, push_str, string_from_chars, string_of};

verus! {

pub const MAX_PATH_LENGTH: usize = 4096;

/// `c` with a backslash turned into a slash.
pub open spec fn forward_slash(c: char) -> char {
    if c == '\\' {
        '/'
    } else {
        c
    }
}

/// `s` with every backslash turned into a slash.
pub open spec fn normalized(s: Seq<char>) -> Seq<char> {
    s.map_values(|c: char| forward_slash(c))
}

/// Replaces every backslash in `path` with a slash.
pub fn normalize_slashes(path: &str) -> (r: String)
    ensures
        r@ == normalized(path@),
{
    let v = chars_of(path);
    let mut r = String::new();
    let mut i: usize = 0;
    while i < v.len()
        invariant
            i <= v@.len(),
            v@ == path@,
            r@ == normalized(v@.take(i as int)),
        decreases v@.len() - i,
    {
        let c = if v[i] == '\\' {
            '/'
        } else {
            v[i]
        };
        push_char(&mut r, c);
        i += 1;
        assert(normalized(v@.take(i as int)) =~= normalized(v@.take(i - 1)).push(c));
    }
    assert(v@.take(v@.len() as int) =~= v@);
    r
}

/// `base` extended by `rel` the way `Path::join` does on Unix: an
/// absolute `rel` replaces `base`; otherwise `rel` is appended, after a
/// `/` when `base` is not empty and does not already end with one.
pub open spec fn path_join(base: Seq<char>, rel: Seq<char>) -> Seq<char> {
    if is_absolute(rel) {
        rel
    } else if base.len() > 0 && base.last() != '/' {
        base + seq!['/'] + rel
    } else {
        base + rel
    }
}

/// What `std::path::Path::new(path).strip_prefix(base)` gives, as text:
/// the rest of `path` after the components of `base`, or nothing when
/// `base` is not a prefix of it.
pub uninterp spec fn path_strip_prefix(path: Seq<char>, base: Seq<char>) -> Option<Seq<char>>;

/// `base` extended by `rel` (see [`path_join`]).
fn join_path(base: &str, rel: &str) -> (r: String)
    ensures
        r@ == path_join(base@, rel@),
{
    let rv = chars_of(rel);
    if rv.len() > 0 && rv[0] == '/' {
        return string_of(rel);
    }
    let bv = chars_of(base);
    let mut r = string_of(base);
    if bv.len() > 0 && bv[bv.len() - 1] != '/' {
        push_char(&mut r, '/');
    }
    push_str(&mut r, rel);
    r
}

/// `std::path::Path::strip_prefix`: `path` relative to `base` when `base`
/// is a prefix of it component by component.  The contract names the
/// result and claims nothing else of it.
#[verifier::external_body]
fn strip_path_prefix(path: &str, base: &str) -> (r: Option<String>)
    ensures
        match r {
            Some(s) => path_strip_prefix(path@, base@) == Some(s@),
            None => path_strip_prefix(path@, base@) is None,
        },
{
    match std::path::Path::new(path).strip_prefix(base) {
        Ok(rest) => Some(rest.to_str().unwrap_or(path).to_string()),
        Err(_) => None,
    }
}

/// Whether `p` is an absolute path: on Unix, one that starts with `/`.
pub open spec fn is_absolute(p: Seq<char>) -> bool {
    p.len() > 0 && p[0] == '/'
}

/// The absolute form of a workspace path: empty for an empty path, the
/// path itself when absolute, otherwise the path joined to `cwd`; slashes
/// normalised in both cases.
pub open spec fn workspace_path(rel: Seq<char>, cwd: Seq<char>) -> Seq<char> {
    if rel.len() == 0 {
        Seq::empty()
    } else if is_absolute(rel) {
        normalized(rel)
    } else {
        normalized(path_join(cwd, rel))
    }
}

/// Resolves `relative_path` against the working directory `cwd`.
pub fn resolve_workspace_path(relative_path: &str, cwd: &str) -> (r: String)
    ensures
        r@ == workspace_path(relative_path@, cwd@),
{
    if relative_path.is_empty() {
        return String::new();
    }
    let v = chars_of(relative_path);
    if v[0] == '/' {
        return normalize_slashes(relative_path);
    }
    let joined = join_path(cwd, relative_path);
    normalize_slashes(joined.as_str())
}

/// The resolved path, twice: once to use and once to show.
pub fn resolve_path(relative_path: &str, cwd: &str) -> (r: (String, String))
    ensures
        r.0@ == workspace_path(relative_path@, cwd@),
        r.1@ == r.0@,
{
    let abs_path = resolve_workspace_path(relative_path, cwd);
    (abs_path.clone(), abs_path)
}

/// The number of leading characters of `s` equal to `c`.
pub open spec fn leading_count(s: Seq<char>, c: char) -> nat
    decreases s.len(),
{
    if s.len() > 0 && s[0] == c {
        1 + leading_count(s.drop_first(), c)
    } else {
        0
    }
}

/// `s` without its leading characters equal to `c`.
pub open spec fn trim_leading(s: Seq<char>, c: char) -> Seq<char> {
    s.skip(leading_count(s, c) as int)
}

/// The shown form of a path relative to `base`: the rest after `base`
/// without leading slashes and then without leading backslashes, when
/// `base` is a prefix of the path; the path itself otherwise; slashes
/// normalised in both cases.
pub open spec fn relative_form(path: Seq<char>, base: Seq<char>) -> Seq<char> {
    match path_strip_prefix(path, base) {
        Some(rest) => normalized(trim_leading(trim_leading(rest, '/'), '\\')),
        None => normalized(path),
    }
}

/// The directory a path is shown relative to: `cwd` when one is given and
/// not empty, else the current directory.
pub open spec fn relative_base(cwd: Option<Seq<char>>, current_dir: Seq<char>) -> Seq<char> {
    match cwd {
        Some(d) => if d.len() > 0 {
            d
        } else {
            current_dir
        },
        None => current_dir,
    }
}

proof fn lemma_leading_count_bound(s: Seq<char>, c: char)
    ensures
        leading_count(s, c) <= s.len(),
    decreases s.len(),
{
    if s.len() > 0 && s[0] == c {
        lemma_leading_count_bound(s.drop_first(), c);
    }
}

proof fn lemma_leading_count_at(s: Seq<char>, c: char, k: int)
    requires
        0 <= k <= s.len(),
        forall|j: int| 0 <= j < k ==> s[j] == c,
        k == s.len() || s[k] != c,
    ensures
        leading_count(s, c) == k,
    decreases k,
{
    if k > 0 {
        lemma_leading_count_at(s.drop_first(), c, k - 1);
    }
}

fn trim_leading_chars(v: &Vec<char>, from: usize, c: char) -> (r: usize)
    requires
        from <= v@.len(),
    ensures
        from <= r <= v@.len(),
        r - from == leading_count(v@.skip(from as int), c),
{
    let mut i = from;
    while i < v.len() && v[i] == c
        invariant
            from <= i <= v@.len(),
            forall|j: int| from <= j < i ==> v@[j] == c,
        decreases v@.len() - i,
    {
        i += 1;
    }
    proof {
        lemma_leading_count_at(v@.skip(from as int), c, i - from);
    }
    i
}

/// `path` as shown relative to `cwd` (or, when `cwd` is missing or empty,
/// to `current_dir`).
pub fn to_rel_path(path: &str, cwd: Option<&str>, current_dir: &str) -> (r: String)
    ensures
        r@ == relative_form(
            path@,
            relative_base(
                match cwd {
                    Some(d) => Some(d@),
                    None => None,
                },
                current_dir@,
            ),
        ),
{
    let base = match cwd {
        Some(d) => if d.is_empty() {
            current_dir
        } else {
            d
        },
        None => current_dir,
    };
    match strip_path_prefix(path, base) {
        Some(rest) => {
            let v = chars_of(rest.as_str());
            let a = trim_leading_chars(&v, 0, '/');
            let b = trim_leading_chars(&v, a, '\\');
            let trimmed = string_from_chars(&v, b, v.len());
            proof {
                let r0 = rest@;
                assert(v@.skip(0) =~= r0);
                assert(trim_leading(r0, '/') =~= v@.skip(a as int));
                assert(v@.skip(a as int).skip(leading_count(v@.skip(a as int), '\\') as int)
                    =~= v@.subrange(b as int, v@.len() as int));
            }
            normalize_slashes(trimmed.as_str())
        },
        None => normalize_slashes(path),
    }
}

} // verus!
