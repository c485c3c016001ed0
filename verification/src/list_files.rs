//! Listing a directory for the agent: hidden entries left out, at most
//! [`MAX_LIST_ENTRIES`] names, directories first and then by name.  The
//! directory is read by the caller; what is shown is decided here.
use vstd::prelude::*;
use crate::ignore_rules::{check_ignore_path, path_ignored, pattern_texts, IgnoreRules};
use crate::pathutils::{resolve_workspace_path, workspace_path};
use crate::text::{chars_of, push_str, string_of};

verus! {

pub const MAX_LIST_ENTRIES: usize = 200;

/// How listing a directory ended.
#[derive(Debug, Clone, Copy, PartialEq, Eq, Structural)]
pub enum ListFilesError {
    Success,
    NullPath,
    DirNotFound,
    PermissionDenied,
    ReadFailed,
}

/// The outcome of listing a directory.
#[derive(Debug, Clone)]
pub struct ListFilesResult {
    pub entries: Vec<String>,
    pub count: usize,
    pub did_hit_limit: bool,
    pub error: ListFilesError,
    pub error_message: String,
}

/// One entry read from a directory: its name, its full path, and whether
/// it is a directory.
#[derive(Debug, Clone)]
pub struct DirEntryInfo {
    pub name: String,
    pub path: String,
    pub is_dir: bool,
}

/// What reading the directory gave.
#[derive(Debug, Clone)]
pub enum DirListing {
    /// The path does not exist or is not a directory.
    Missing,
    /// Reading failed, with the reason.
    Unreadable(String),
    /// The entries, in the order the directory gave them.
    Entries(Vec<DirEntryInfo>),
}

/// An entry as its name and whether it is a directory.
pub open spec fn entry_key(e: DirEntryInfo) -> (Seq<char>, bool) {
    (e.name@, e.is_dir)
}

/// Whether an entry is listed: it is not `.` or `..`, and the ignore
/// patterns do not hide its path.
pub open spec fn entry_listed(
    e: DirEntryInfo,
    global: Seq<Seq<char>>,
    project: Seq<Seq<char>>,
    cwd: Seq<char>,
) -> bool {
    e.name@ != seq!['.'] && e.name@ != seq!['.', '.'] && !path_ignored(global, project, e.path@, cwd)
}

/// The listed entries, in directory order.
pub open spec fn listed_entries(
    es: Seq<DirEntryInfo>,
    global: Seq<Seq<char>>,
    project: Seq<Seq<char>>,
    cwd: Seq<char>,
) -> Seq<(Seq<char>, bool)>
    decreases es.len(),
{
    if es.len() == 0 {
        Seq::empty()
    } else {
        let rest = listed_entries(es.drop_last(), global, project, cwd);
        if entry_listed(es.last(), global, project, cwd) {
            rest.push(entry_key(es.last()))
        } else {
            rest
        }
    }
}

/// Strict lexicographic order of character sequences.
pub open spec fn chars_lt(a: Seq<char>, b: Seq<char>) -> bool
    decreases a.len(),
{
    if a.len() == 0 {
        b.len() > 0
    } else if b.len() == 0 {
        false
    } else if (a[0] as u32) < (b[0] as u32) {
        true
    } else if (a[0] as u32) > (b[0] as u32) {
        false
    } else {
        chars_lt(a.drop_first(), b.drop_first())
    }
}

/// Whether entry `a` is listed before entry `b`: directories before
/// files, and by name within each.
pub open spec fn entry_lt(a: (Seq<char>, bool), b: (Seq<char>, bool)) -> bool {
    (a.1 && !b.1) || (a.1 == b.1 && chars_lt(a.0, b.0))
}

/// `s` with `x` inserted after every element that does not come after it.
pub open spec fn insert_sorted(s: Seq<(Seq<char>, bool)>, x: (Seq<char>, bool)) -> Seq<(Seq<char>, bool)>
    decreases s.len(),
{
    if s.len() == 0 {
        seq![x]
    } else if entry_lt(x, s.last()) {
        insert_sorted(s.drop_last(), x).push(s.last())
    } else {
        s.push(x)
    }
}

/// The entries in listing order (a stable sort by [`entry_lt`]).
pub open spec fn sort_entries(s: Seq<(Seq<char>, bool)>) -> Seq<(Seq<char>, bool)>
    decreases s.len(),
{
    if s.len() == 0 {
        Seq::empty()
    } else {
        insert_sorted(sort_entries(s.drop_last()), s.last())
    }
}

/// The listed entries cut to the limit.
pub open spec fn limited(s: Seq<(Seq<char>, bool)>) -> Seq<(Seq<char>, bool)> {
    if s.len() > MAX_LIST_ENTRIES {
        s.take(MAX_LIST_ENTRIES as int)
    } else {
        s
    }
}

/// The names of entries.
pub open spec fn entry_names(s: Seq<(Seq<char>, bool)>) -> Seq<Seq<char>> {
    s.map_values(|e: (Seq<char>, bool)| e.0)
}

/// The result with no entries.
pub open spec fn is_empty_listing(r: ListFilesResult) -> bool {
    r.entries@.len() == 0 && r.count == 0 && !r.did_hit_limit
}

proof fn lemma_listed_prefix(
    es: Seq<DirEntryInfo>,
    k: int,
    global: Seq<Seq<char>>,
    project: Seq<Seq<char>>,
    cwd: Seq<char>,
)
    requires
        0 <= k <= es.len(),
    ensures
        listed_entries(es.take(k), global, project, cwd).len() <= listed_entries(
            es,
            global,
            project,
            cwd,
        ).len(),
        listed_entries(es, global, project, cwd).take(
            listed_entries(es.take(k), global, project, cwd).len() as int,
        ) == listed_entries(es.take(k), global, project, cwd),
    decreases es.len(),
{
    let a = listed_entries(es.take(k), global, project, cwd);
    let b = listed_entries(es, global, project, cwd);
    if k == es.len() {
        assert(es.take(k) =~= es);
        assert(b.take(a.len() as int) =~= b);
    } else {
        assert(es.drop_last().take(k) =~= es.take(k));
        lemma_listed_prefix(es.drop_last(), k, global, project, cwd);
        let c = listed_entries(es.drop_last(), global, project, cwd);
        assert(b.take(a.len() as int) =~= c.take(a.len() as int));
    }
}

proof fn lemma_insert_sorted_at(s: Seq<(Seq<char>, bool)>, x: (Seq<char>, bool), j: int)
    requires
        0 <= j <= s.len(),
        forall|k: int| j <= k < s.len() ==> entry_lt(x, #[trigger] s[k]),
        j == 0 || !entry_lt(x, s[j - 1]),
    ensures
        insert_sorted(s, x) == s.insert(j, x),
    decreases s.len(),
{
    if s.len() == 0 {
        assert(s.insert(j, x) =~= seq![x]);
    } else if entry_lt(x, s.last()) {
        assert(j < s.len());
        lemma_insert_sorted_at(s.drop_last(), x, j);
        assert(s.drop_last().insert(j, x).push(s.last()) =~= s.insert(j, x));
    } else {
        if j < s.len() {
            assert(entry_lt(x, s[s.len() - 1]));
        }
        assert(s.push(x) =~= s.insert(j, x));
    }
}

fn chars_less(a: &String, b: &String) -> (r: bool)
    ensures
        r == chars_lt(a@, b@),
{
    let va = chars_of(a.as_str());
    let vb = chars_of(b.as_str());
    let mut i: usize = 0;
    assert(va@.skip(0) =~= a@ && vb@.skip(0) =~= b@);
    while i < va.len() && i < vb.len() && va[i] == vb[i]
        invariant
            i <= va@.len(),
            i <= vb@.len(),
            va@ == a@,
            vb@ == b@,
            chars_lt(a@, b@) == chars_lt(va@.skip(i as int), vb@.skip(i as int)),
        decreases va@.len() - i,
    {
        assert(va@.skip(i as int).drop_first() =~= va@.skip(i + 1));
        assert(vb@.skip(i as int).drop_first() =~= vb@.skip(i + 1));
        i += 1;
    }
    let ghost x = va@.skip(i as int);
    let ghost y = vb@.skip(i as int);
    if i == va.len() {
        assert(x.len() == 0);
        i < vb.len()
    } else if i == vb.len() {
        assert(y.len() == 0 && x.len() > 0);
        false
    } else {
        assert(x[0] == va@[i as int] && y[0] == vb@[i as int]);
        let p = va[i] as u32;
        let q = vb[i] as u32;
        proof {
            if p == q {
                vstd::utf8::char_u32_cast(va@[i as int], p);
                vstd::utf8::char_u32_cast(vb@[i as int], q);
            }
        }
        p < q
    }
}

fn entry_before(a: &(String, bool), b: &(String, bool)) -> (r: bool)
    ensures
        r == entry_lt((a.0@, a.1), (b.0@, b.1)),
{
    if a.1 && !b.1 {
        true
    } else if !a.1 && b.1 {
        false
    } else {
        chars_less(&a.0, &b.0)
    }
}

/// The view of a list of (name, is-directory) pairs.
pub open spec fn pairs_view(v: Seq<(String, bool)>) -> Seq<(Seq<char>, bool)> {
    v.map_values(|e: (String, bool)| (e.0@, e.1))
}

/// The entries in listing order (see [`sort_entries`]).
pub fn sort_listing(kept: &Vec<(String, bool)>) -> (r: Vec<(String, bool)>)
    ensures
        pairs_view(r@) == sort_entries(pairs_view(kept@)),
{
    let ghost kv = pairs_view(kept@);
    let mut sorted: Vec<(String, bool)> = Vec::new();
    let mut i: usize = 0;
    assert(kv.take(0) =~= Seq::<(Seq<char>, bool)>::empty());
    assert(pairs_view(sorted@) =~= Seq::<(Seq<char>, bool)>::empty());
    while i < kept.len()
        invariant
            i <= kept@.len(),
            kv == pairs_view(kept@),
            pairs_view(sorted@) == sort_entries(kv.take(i as int)),
        decreases kept@.len() - i,
    {
        let x = (kept[i].0.clone(), kept[i].1);
        let ghost xv = (x.0@, x.1);
        assert(xv == kv[i as int]);
        let ghost sv = pairs_view(sorted@);
        let mut j = sorted.len();
        while j > 0 && entry_before(&x, &sorted[j - 1])
            invariant
                j <= sorted@.len(),
                sv == pairs_view(sorted@),
                xv == (x.0@, x.1),
                forall|k: int| j <= k < sv.len() ==> entry_lt(xv, #[trigger] sv[k]),
            decreases j,
        {
            assert(sv[j - 1] == (sorted@[j - 1].0@, sorted@[j - 1].1));
            j -= 1;
        }
        proof {
            if j > 0 {
                assert(sv[j - 1] == (sorted@[j - 1].0@, sorted@[j - 1].1));
            }
            lemma_insert_sorted_at(sv, xv, j as int);
            assert(kv.take(i + 1).drop_last() =~= kv.take(i as int));
        }
        sorted.insert(j, x);
        assert(pairs_view(sorted@) =~= sv.insert(j as int, xv));
        i += 1;
    }
    assert(kv.take(kept@.len() as int) =~= kv);
    sorted
}

fn is_dot_name(name: &String) -> (r: bool)
    ensures
        r == (name@ == seq!['.'] || name@ == seq!['.', '.']),
{
    let v = chars_of(name.as_str());
    let r = (v.len() == 1 && v[0] == '.') || (v.len() == 2 && v[0] == '.' && v[1] == '.');
    assert(r ==> (v@ =~= seq!['.'] || v@ =~= seq!['.', '.']));
    r
}

fn error_result(error: ListFilesError, message: String) -> (r: ListFilesResult)
    ensures
        is_empty_listing(r),
        r.error == error,
        r.error_message@ == message@,
{
    ListFilesResult { entries: Vec::new(), count: 0, did_hit_limit: false, error, error_message: message }
}

/// Lists the directory at `path` for the agent.
///
/// `rules` are the loaded ignore rules, `current_dir` the working
/// directory, `home_dir` the user's home (empty when unknown), and
/// `listing` what reading the resolved directory gave.  The root and the
/// home directory are listed as empty.
pub fn list_files(
    path: &str,
    rules: &IgnoreRules,
    current_dir: &str,
    home_dir: &str,
    listing: DirListing,
) -> (r: ListFilesResult)
    ensures
        ({
            let global = pattern_texts(rules.global_patterns@);
            let project = pattern_texts(rules.project_patterns@);
            let abs = workspace_path(path@, current_dir@);
            if path@.len() == 0 {
                is_empty_listing(r) && r.error == ListFilesError::NullPath && r.error_message@
                    == "Path is empty"@
            } else if path_ignored(global, project, path@, current_dir@) {
                is_empty_listing(r) && r.error == ListFilesError::PermissionDenied
                    && r.error_message@ == "Access denied by .crownignore rules"@
            } else if abs.len() == 0 {
                is_empty_listing(r) && r.error == ListFilesError::DirNotFound && r.error_message@
                    == "Path not found"@
            } else if abs == seq!['/'] || abs == home_dir@ {
                is_empty_listing(r) && r.error == ListFilesError::Success && r.error_message@.len()
                    == 0
            } else {
                match listing {
                    DirListing::Missing => is_empty_listing(r) && r.error
                        == ListFilesError::DirNotFound && r.error_message@ == "Directory not found: "@
                        + abs,
                    DirListing::Unreadable(why) => is_empty_listing(r) && r.error
                        == ListFilesError::ReadFailed && r.error_message@
                        == "Failed to read directory: "@ + why@,
                    DirListing::Entries(es) => {
                        let shown = listed_entries(es@, global, project, current_dir@);
                        &&& r.error == ListFilesError::Success
                        &&& r.error_message@.len() == 0
                        &&& pattern_texts(r.entries@) == entry_names(sort_entries(limited(shown)))
                        &&& r.count == r.entries@.len()
                        &&& r.did_hit_limit == (shown.len() > MAX_LIST_ENTRIES)
                    },
                }
            }
        }),
{
    if path.is_empty() {
        return error_result(ListFilesError::NullPath, string_of("Path is empty"));
    }
    if check_ignore_path(rules, path, current_dir) {
        return error_result(
            ListFilesError::PermissionDenied,
            string_of("Access denied by .crownignore rules"),
        );
    }
    let abs_path = resolve_workspace_path(path, current_dir);
    if abs_path.as_str().is_empty() {
        return error_result(ListFilesError::DirNotFound, string_of("Path not found"));
    }
    let av = chars_of(abs_path.as_str());
    let home = string_of(home_dir);
    if (av.len() == 1 && av[0] == '/') || abs_path == home {
        assert((av.len() == 1 && av[0] == '/') ==> av@ =~= seq!['/']);
        return error_result(ListFilesError::Success, String::new());
    }
    let ghost global = pattern_texts(rules.global_patterns@);
    let ghost project = pattern_texts(rules.project_patterns@);
    match listing {
        DirListing::Missing => {
            let mut msg = string_of("Directory not found: ");
            push_str(&mut msg, abs_path.as_str());
            error_result(ListFilesError::DirNotFound, msg)
        },
        DirListing::Unreadable(why) => {
            let mut msg = string_of("Failed to read directory: ");
            push_str(&mut msg, why.as_str());
            error_result(ListFilesError::ReadFailed, msg)
        },
        DirListing::Entries(es) => {
            let ghost ev = es@;
            let mut kept: Vec<(String, bool)> = Vec::new();
            let mut hit = false;
            let mut i: usize = 0;
            assert(ev.take(ev.len() as int) =~= ev);
            assert(ev.take(0) =~= Seq::<DirEntryInfo>::empty());
            assert(pairs_view(kept@) =~= Seq::<(Seq<char>, bool)>::empty());
            while i < es.len()
                invariant_except_break
                    i <= ev.len(),
                    ev == es@,
                    global == pattern_texts(rules.global_patterns@),
                    project == pattern_texts(rules.project_patterns@),
                    pairs_view(kept@) == listed_entries(ev.take(i as int), global, project, current_dir@),
                    kept@.len() <= MAX_LIST_ENTRIES,
                    !hit,
                invariant
                    ev.take(ev.len() as int) == ev,
                ensures
                    pairs_view(kept@) == limited(listed_entries(ev, global, project, current_dir@)),
                    hit == (listed_entries(ev, global, project, current_dir@).len() > MAX_LIST_ENTRIES),
                decreases ev.len() - i,
            {
                let e = &es[i];
                let listed = !is_dot_name(&e.name) && !check_ignore_path(
                    rules,
                    e.path.as_str(),
                    current_dir,
                );
                let ghost before = pairs_view(kept@);
                assert(ev.take(i + 1).drop_last() =~= ev.take(i as int));
                assert(ev.take(i + 1).last() == ev[i as int]);
                if listed {
                    if kept.len() == MAX_LIST_ENTRIES {
                        proof {
                            lemma_listed_prefix(ev, i + 1, global, project, current_dir@);
                            let full = listed_entries(ev, global, project, current_dir@);
                            let part = listed_entries(ev.take(i + 1), global, project, current_dir@);
                            assert(part.len() == MAX_LIST_ENTRIES + 1);
                            assert(full.take(MAX_LIST_ENTRIES as int) =~= part.take(
                                MAX_LIST_ENTRIES as int,
                            ));
                            assert(part.take(MAX_LIST_ENTRIES as int) =~= before);
                        }
                        hit = true;
                        break;
                    }
                    kept.push((e.name.clone(), e.is_dir));
                    assert(pairs_view(kept@) =~= before.push(entry_key(ev[i as int])));
                }
                i += 1;
            }
            proof {
                if !hit {
                    assert(ev.take(ev.len() as int) =~= ev);
                }
            }
            let sorted = sort_listing(&kept);
            let mut names: Vec<String> = Vec::new();
            let mut k: usize = 0;
            while k < sorted.len()
                invariant
                    k <= sorted@.len(),
                    pattern_texts(names@) == entry_names(pairs_view(sorted@)).take(k as int),
                decreases sorted@.len() - k,
            {
                let ghost before = pattern_texts(names@);
                let name = sorted[k].0.clone();
                names.push(name);
                assert(entry_names(pairs_view(sorted@))[k as int] == sorted@[k as int].0@);
                assert(pattern_texts(names@) =~= before.push(sorted@[k as int].0@));
                assert(entry_names(pairs_view(sorted@)).take(k + 1) =~= entry_names(
                    pairs_view(sorted@),
                ).take(k as int).push(sorted@[k as int].0@));
                k += 1;
            }
            assert(entry_names(pairs_view(sorted@)).take(sorted@.len() as int) =~= entry_names(
                pairs_view(sorted@),
            ));
            let count = names.len();
            ListFilesResult {
                entries: names,
                count,
                did_hit_limit: hit,
                error: ListFilesError::Success,
                error_message: String::new(),
            }
        },
    }
}


// ---------------------------------------------------------------------
// The listing order
// ---------------------------------------------------------------------

proof fn lemma_chars_lt_irreflexive(a: Seq<char>)
    ensures
        !chars_lt(a, a),
    decreases a.len(),
{
    if a.len() > 0 {
        lemma_chars_lt_irreflexive(a.drop_first());
    }
}

proof fn lemma_chars_lt_transitive(a: Seq<char>, b: Seq<char>, c: Seq<char>)
    requires
        chars_lt(a, b),
        chars_lt(b, c),
    ensures
        chars_lt(a, c),
    decreases a.len(),
{
    if a.len() > 0 && b.len() > 0 && c.len() > 0 && a[0] as u32 == b[0] as u32 && b[0] as u32
        == c[0] as u32 {
        lemma_chars_lt_transitive(a.drop_first(), b.drop_first(), c.drop_first());
    }
}

proof fn lemma_chars_lt_total(a: Seq<char>, b: Seq<char>)
    requires
        a != b,
    ensures
        chars_lt(a, b) || chars_lt(b, a),
    decreases a.len(),
{
    if a.len() > 0 && b.len() > 0 && a[0] as u32 == b[0] as u32 {
        vstd::utf8::char_u32_cast(a[0], a[0] as u32);
        vstd::utf8::char_u32_cast(b[0], b[0] as u32);
        if a.drop_first() == b.drop_first() {
            assert(a =~= seq![a[0]] + a.drop_first());
            assert(b =~= seq![b[0]] + b.drop_first());
        }
        lemma_chars_lt_total(a.drop_first(), b.drop_first());
    } else if a.len() == 0 && b.len() == 0 {
        assert(a =~= b);
    }
}

/// Whether no entry of `s` should come before an earlier one.
pub open spec fn entries_in_order(s: Seq<(Seq<char>, bool)>) -> bool {
    forall|i: int, j: int| 0 <= i < j < s.len() ==> !entry_lt(#[trigger] s[j], #[trigger] s[i])
}

proof fn lemma_entry_lt_facts(a: (Seq<char>, bool), b: (Seq<char>, bool), c: (Seq<char>, bool))
    ensures
        !entry_lt(a, a),
        entry_lt(a, b) ==> !entry_lt(b, a),
        entry_lt(a, b) && entry_lt(b, c) ==> entry_lt(a, c),
        a != b ==> entry_lt(a, b) || entry_lt(b, a),
{
    lemma_chars_lt_irreflexive(a.0);
    if entry_lt(a, b) && entry_lt(b, a) {
        lemma_chars_lt_transitive(a.0, b.0, a.0);
    }
    if entry_lt(a, b) && entry_lt(b, c) && a.1 == b.1 && b.1 == c.1 {
        lemma_chars_lt_transitive(a.0, b.0, c.0);
    }
    if a != b && a.1 == b.1 {
        lemma_chars_lt_total(a.0, b.0);
    }
}

proof fn lemma_insert_sorted_props(s: Seq<(Seq<char>, bool)>, x: (Seq<char>, bool))
    requires
        entries_in_order(s),
    ensures
        entries_in_order(insert_sorted(s, x)),
        insert_sorted(s, x).to_multiset() == s.to_multiset().insert(x),
        forall|k: int|
            0 <= k < insert_sorted(s, x).len() ==> #[trigger] insert_sorted(s, x)[k] == x
                || s.contains(insert_sorted(s, x)[k]),
    decreases s.len(),
{
    broadcast use vstd::seq_lib::to_multiset_build;

    if s.len() == 0 {
        assert(s =~= Seq::<(Seq<char>, bool)>::empty());
        assert(seq![x] =~= s.push(x));
    } else if entry_lt(x, s.last()) {
        let d = s.drop_last();
        let last = s.last();
        let r1 = insert_sorted(d, x);
        assert forall|i: int, j: int| 0 <= i < j < d.len() implies !entry_lt(
            #[trigger] d[j],
            #[trigger] d[i],
        ) by {
            assert(d[i] == s[i] && d[j] == s[j]);
        }
        lemma_insert_sorted_props(d, x);
        let r = r1.push(last);
        assert forall|i: int, j: int| 0 <= i < j < r.len() implies !entry_lt(
            #[trigger] r[j],
            #[trigger] r[i],
        ) by {
            if j == r.len() - 1 {
                assert(r[j] == last);
                assert(r[i] == r1[i]);
                if r1[i] == x {
                    lemma_entry_lt_facts(x, last, x);
                } else {
                    assert(d.contains(r1[i]));
                    let k = choose|k: int| 0 <= k < d.len() && d[k] == r1[i];
                    assert(s[k] == d[k]);
                    assert(!entry_lt(s[s.len() - 1], s[k]));
                }
            } else {
                assert(r[i] == r1[i] && r[j] == r1[j]);
            }
        }
        assert forall|k: int| 0 <= k < r.len() implies #[trigger] r[k] == x || s.contains(r[k]) by {
            if k == r.len() - 1 {
                assert(s[s.len() - 1] == last);
            } else {
                assert(r[k] == r1[k]);
                if r1[k] != x {
                    let m = choose|m: int| 0 <= m < d.len() && d[m] == r1[k];
                    assert(s[m] == d[m]);
                }
            }
        }
        assert(d.push(last) =~= s);
        assert(r.to_multiset() =~= s.to_multiset().insert(x));
    } else {
        let r = s.push(x);
        assert forall|i: int, j: int| 0 <= i < j < r.len() implies !entry_lt(
            #[trigger] r[j],
            #[trigger] r[i],
        ) by {
            if j == r.len() - 1 {
                assert(r[j] == x && r[i] == s[i]);
                let last = s.last();
                if entry_lt(x, s[i]) {
                    if i < s.len() - 1 {
                        assert(!entry_lt(s[s.len() - 1], s[i]));
                        lemma_entry_lt_facts(s[i], last, x);
                        lemma_entry_lt_facts(x, s[i], last);
                    }
                }
            } else {
                assert(r[i] == s[i] && r[j] == s[j]);
            }
        }
        assert forall|k: int| 0 <= k < r.len() implies #[trigger] r[k] == x || s.contains(r[k]) by {
            if k < s.len() {
                assert(r[k] == s[k]);
            }
        }
    }
}

/// The listing order: every entry comes no earlier than the entries before
/// it allow (directories first, then names in order), and the listing has
/// exactly the entries it was given.
pub proof fn law_listing_sorted_permutation(s: Seq<(Seq<char>, bool)>)
    ensures
        entries_in_order(sort_entries(s)),
        sort_entries(s).to_multiset() == s.to_multiset(),
    decreases s.len(),
{
    broadcast use vstd::seq_lib::to_multiset_build;

    if s.len() == 0 {
        assert(sort_entries(s) =~= s);
    } else {
        law_listing_sorted_permutation(s.drop_last());
        lemma_insert_sorted_props(sort_entries(s.drop_last()), s.last());
        assert(s.drop_last().push(s.last()) =~= s);
    }
}


/// What a successful listing shows of the entries `shown` that pass the
/// ignore rules (see [`list_files`]): `min(|shown|, 200)` entries, each one
/// of `shown`, none placed after one it should precede; when `shown` holds
/// no entry twice, none twice either, directories strictly before files
/// and names in strictly ascending order within each group.
pub proof fn law_listing_shape(shown: Seq<(Seq<char>, bool)>)
    ensures
        sort_entries(limited(shown)).len() == if shown.len() > MAX_LIST_ENTRIES {
            MAX_LIST_ENTRIES as int
        } else {
            shown.len() as int
        },
        entries_in_order(sort_entries(limited(shown))),
        forall|x: (Seq<char>, bool)| #[trigger] sort_entries(limited(shown)).contains(x) ==> shown.contains(x),
        shown.no_duplicates() ==> sort_entries(limited(shown)).no_duplicates(),
        shown.no_duplicates() ==> forall|i: int, j: int|
            0 <= i < j < sort_entries(limited(shown)).len() ==> entry_lt(
                #[trigger] sort_entries(limited(shown))[i],
                #[trigger] sort_entries(limited(shown))[j],
            ),
{
    broadcast use vstd::seq_lib::to_multiset_len, vstd::seq_lib::to_multiset_contains;

    let l = limited(shown);
    let out = sort_entries(l);
    law_listing_sorted_permutation(l);
    assert(out.len() == out.to_multiset().len());
    assert(l.len() == l.to_multiset().len());
    assert forall|x: (Seq<char>, bool)| #[trigger] out.contains(x) implies shown.contains(x) by {
        assert(out.to_multiset().count(x) > 0);
        assert(l.to_multiset().count(x) > 0);
        assert(l.contains(x));
        let k = choose|k: int| 0 <= k < l.len() && l[k] == x;
        assert(shown[k] == l[k]);
    }
    if shown.no_duplicates() {
        assert(l.no_duplicates()) by {
            assert forall|i: int, j: int| 0 <= i < l.len() && 0 <= j < l.len() && i != j implies l[i] != l[j] by {
                assert(l[i] == shown[i] && l[j] == shown[j]);
            }
        }
        l.lemma_multiset_has_no_duplicates();
        assert forall|x: (Seq<char>, bool)| out.to_multiset().contains(x) implies out.to_multiset().count(x) == 1 by {}
        out.lemma_multiset_has_no_duplicates_conv();
        assert forall|i: int, j: int| 0 <= i < j < out.len() implies entry_lt(#[trigger] out[i], #[trigger] out[j]) by {
            lemma_entry_lt_facts(out[i], out[j], out[i]);
        }
    }
}

} // verus!
