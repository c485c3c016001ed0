//! Unified diffs of two texts, line by line, in the hunk format of
//! `diff -u`.  The line matching itself is the `similar` crate's; what is
//! printed from it is decided here.
use vstd::prelude::*;
use similar::{ChangeTag, DiffTag, TextDiff};
use crate::file_edit::{lemma_split_nonempty, split_into_lines, split_lines};
use crate::text::{
    chars_of, decimal, push_char, push_chars, push_decimal, push_str, string_from_chars, string_of,
};

verus! {

/// The kind of a diff operation.
#[derive(Debug, Clone, Copy, PartialEq, Eq, Structural)]
pub enum OpTag {
    Equal,
    Delete,
    Insert,
    Replace,
}

/// A diff operation: its kind, and the old and new line ranges it covers
/// (`old_start..old_end` and `new_start..new_end`).
#[derive(Debug, Clone, Copy, PartialEq, Eq, Structural)]
pub struct LineOp {
    pub tag: OpTag,
    pub old_start: usize,
    pub old_end: usize,
    pub new_start: usize,
    pub new_end: usize,
}

/// The kind of a single changed line.
#[derive(Debug, Clone, Copy, PartialEq, Eq, Structural)]
pub enum ChangeKind {
    Equal,
    Delete,
    Insert,
}

/// One line of a diff: its kind, its index in the old and the new text
/// where it has one, and its text (with its line ending).
#[derive(Debug, Clone)]
pub struct LineChange {
    pub kind: ChangeKind,
    pub old_index: Option<usize>,
    pub new_index: Option<usize>,
    pub value: String,
}

/// A change as plain values.
pub open spec fn change_view(c: LineChange) -> (ChangeKind, Option<usize>, Option<usize>, Seq<char>) {
    (c.kind, c.old_index, c.new_index, c.value@)
}

/// The operations of the line diff of `old` and `new` that `similar`
/// computes.
pub uninterp spec fn similar_line_ops(old: Seq<char>, new: Seq<char>) -> Seq<LineOp>;

/// Those operations grouped into hunks with `n` lines of context.
pub uninterp spec fn similar_grouped_ops(old: Seq<char>, new: Seq<char>, n: usize) -> Seq<Seq<LineOp>>;

/// Every changed or unchanged line of that diff, in order.
pub uninterp spec fn similar_changes(old: Seq<char>, new: Seq<char>) -> Seq<
    (ChangeKind, Option<usize>, Option<usize>, Seq<char>),
>;

/// The operations of `similar::TextDiff::from_lines(old, new)` (its
/// `ops()`), each with its tag and ranges as `DiffOp::as_tag_tuple` gives
/// them.  The contract names the result and claims nothing else of it.
#[verifier::external_body]
fn line_ops(old: &str, new: &str) -> (r: Vec<LineOp>)
    ensures
        r@ == similar_line_ops(old@, new@),
{
    TextDiff::from_lines(old, new).ops().iter().map(|op| {
        let (t, o, n) = op.as_tag_tuple();
        let tag = match t {
            DiffTag::Equal => OpTag::Equal,
            DiffTag::Delete => OpTag::Delete,
            DiffTag::Insert => OpTag::Insert,
            DiffTag::Replace => OpTag::Replace,
        };
        LineOp { tag, old_start: o.start, old_end: o.end, new_start: n.start, new_end: n.end }
    }).collect()
}

/// `similar::TextDiff::from_lines(old, new).grouped_ops(n)`, each
/// operation converted as in `line_ops`.  Besides naming the result, the
/// contract states one fact that `similar::group_diff_ops` shows: no group
/// is empty (a group is pushed only after an operation was added to it).
/// `group_diff_ops` computes `n * 2`, which overflows for a larger `n`.
#[verifier::external_body]
fn grouped_line_ops(old: &str, new: &str, n: usize) -> (r: Vec<Vec<LineOp>>)
    requires
        n <= usize::MAX / 2,
    ensures
        r@.map_values(|g: Vec<LineOp>| g@) == similar_grouped_ops(old@, new@, n),
        forall|i: int| 0 <= i < r@.len() ==> (#[trigger] r@[i])@.len() > 0,
{
    TextDiff::from_lines(old, new).grouped_ops(n).iter().map(|g| g.iter().map(|op| {
        let (t, o, n) = op.as_tag_tuple();
        let tag = match t {
            DiffTag::Equal => OpTag::Equal,
            DiffTag::Delete => OpTag::Delete,
            DiffTag::Insert => OpTag::Insert,
            DiffTag::Replace => OpTag::Replace,
        };
        LineOp { tag, old_start: o.start, old_end: o.end, new_start: n.start, new_end: n.end }
    }).collect()).collect()
}

/// `similar::TextDiff::from_lines(old, new).iter_all_changes()`, each
/// change as its tag, indices and text.  Besides naming the result, the
/// contract states one fact that `similar`'s `ChangesIter` shows: an
/// inserted line always has a new index.
#[verifier::external_body]
fn line_changes(old: &str, new: &str) -> (r: Vec<LineChange>)
    ensures
        r@.map_values(|c: LineChange| change_view(c)) == similar_changes(old@, new@),
        forall|i: int|
            0 <= i < r@.len() && (#[trigger] r@[i]).kind == ChangeKind::Insert ==> r@[i].new_index
                is Some,
{
    TextDiff::from_lines(old, new).iter_all_changes().map(|c| LineChange {
        kind: match c.tag() {
            ChangeTag::Equal => ChangeKind::Equal,
            ChangeTag::Delete => ChangeKind::Delete,
            ChangeTag::Insert => ChangeKind::Insert,
        },
        old_index: c.old_index(),
        new_index: c.new_index(),
        value: c.value().to_string(),
    }).collect()
}

// ---------------------------------------------------------------------
// Lines of a text
// ---------------------------------------------------------------------

/// `s` without one trailing newline.
pub open spec fn strip_lf(s: Seq<char>) -> Seq<char> {
    if s.len() > 0 && s.last() == '\n' {
        s.drop_last()
    } else {
        s
    }
}

/// `s` without one trailing carriage return.
pub open spec fn strip_cr(s: Seq<char>) -> Seq<char> {
    if s.len() > 0 && s.last() == '\r' {
        s.drop_last()
    } else {
        s
    }
}

/// Whether `s` is non-empty and does not end with a newline.
pub open spec fn lacks_final_lf(s: Seq<char>) -> bool {
    s.len() > 0 && s.last() != '\n'
}

/// The lines of `s` as `str::lines` gives them: split at each `\n`, a
/// `\r` before the `\n` dropped, and no empty line after a final `\n`.
pub open spec fn text_lines(s: Seq<char>) -> Seq<Seq<char>> {
    if s.len() == 0 {
        Seq::empty()
    } else {
        let parts = split_lines(s);
        let body = parts.take(parts.len() - 1).map_values(|l: Seq<char>| strip_cr(l));
        if parts.last().len() == 0 {
            body
        } else {
            body.push(parts.last())
        }
    }
}

fn strip_cr_string(s: &String) -> (r: String)
    ensures
        r@ == strip_cr(s@),
{
    let v = chars_of(s.as_str());
    if v.len() > 0 && v[v.len() - 1] == '\r' {
        string_from_chars(&v, 0, v.len() - 1)
    } else {
        let r = string_from_chars(&v, 0, v.len());
        assert(v@.subrange(0, v@.len() as int) =~= v@);
        r
    }
}

/// The lines of `s` (see [`text_lines`]).
pub fn text_lines_of(s: &str) -> (r: Vec<String>)
    ensures
        r@.map_values(|x: String| x@) == text_lines(s@),
{
    let mut out: Vec<String> = Vec::new();
    if s.is_empty() {
        assert(out@.map_values(|x: String| x@) =~= Seq::<Seq<char>>::empty());
        return out;
    }
    let parts = split_into_lines(s);
    let ghost p = parts@.map_values(|x: String| x@);
    proof {
        lemma_split_nonempty(s@);
    }
    let n = parts.len();
    let mut i: usize = 0;
    while i < n - 1
        invariant
            1 <= n == parts@.len(),
            p == parts@.map_values(|x: String| x@),
            i <= n - 1,
            out@.map_values(|x: String| x@) == p.take(i as int).map_values(
                |l: Seq<char>| strip_cr(l),
            ),
        decreases n - 1 - i,
    {
        let ghost before = out@.map_values(|x: String| x@);
        let line = strip_cr_string(&parts[i]);
        out.push(line);
        i += 1;
        assert(out@.map_values(|x: String| x@) =~= before.push(strip_cr(p[i - 1])));
        assert(p.take(i as int).map_values(|l: Seq<char>| strip_cr(l)) =~= p.take(i - 1).map_values(
            |l: Seq<char>| strip_cr(l),
        ).push(strip_cr(p[i - 1])));
    }
    if parts[n - 1].as_str().is_empty() {
        out
    } else {
        let ghost before = out@.map_values(|x: String| x@);
        out.push(parts[n - 1].clone());
        assert(out@.map_values(|x: String| x@) =~= before.push(p[n - 1]));
        out
    }
}


// ---------------------------------------------------------------------
// Hunks
// ---------------------------------------------------------------------

/// `x - y`, or 0 when `y` is larger.
pub open spec fn sat_sub(x: usize, y: usize) -> nat {
    if x >= y {
        (x - y) as nat
    } else {
        0
    }
}

/// A hunk header `@@ -a,m +b,n @@`; a range of length 0 is shown at its
/// start, any other one at its start plus one.
pub open spec fn hunk_header(old_start: usize, old_count: nat, new_start: usize, new_count: nat) -> Seq<char> {
    let sa = if old_count == 0 {
        old_start as nat
    } else {
        old_start as nat + 1
    };
    let sb = if new_count == 0 {
        new_start as nat
    } else {
        new_start as nat + 1
    };
    "@@ -"@ + decimal(sa) + ","@ + decimal(old_count) + " +"@ + decimal(sb) + ","@ + decimal(
        new_count,
    ) + " @@\n"@
}

/// Whether a change falls in the hunk with old lines `os..oe` and new
/// lines `ns..ne`: an inserted line by its new index, any other by its
/// old index (0 when it has none).
pub open spec fn in_hunk(
    c: (ChangeKind, Option<usize>, Option<usize>, Seq<char>),
    os: usize,
    oe: usize,
    ns: usize,
    ne: usize,
) -> bool {
    match c.0 {
        ChangeKind::Insert => match c.2 {
            Some(ni) => ns <= ni < ne,
            None => false,
        },
        _ => {
            let oi = match c.1 {
                Some(x) => x,
                None => 0,
            };
            os <= oi < oe
        },
    }
}

/// The mark of a line of a hunk.
pub open spec fn change_mark(k: ChangeKind) -> char {
    match k {
        ChangeKind::Equal => ' ',
        ChangeKind::Delete => '-',
        ChangeKind::Insert => '+',
    }
}

/// A line of a hunk: its mark and its text without the line ending.
pub open spec fn change_line(c: (ChangeKind, Option<usize>, Option<usize>, Seq<char>)) -> Seq<char> {
    seq![change_mark(c.0)] + strip_lf(c.3) + seq!['\n']
}

/// The lines of the hunk `os..oe`, `ns..ne` among `changes`, in order.
pub open spec fn hunk_body(
    changes: Seq<(ChangeKind, Option<usize>, Option<usize>, Seq<char>)>,
    os: usize,
    oe: usize,
    ns: usize,
    ne: usize,
) -> Seq<char>
    decreases changes.len(),
{
    if changes.len() == 0 {
        Seq::empty()
    } else {
        hunk_body(changes.drop_last(), os, oe, ns, ne) + if in_hunk(changes.last(), os, oe, ns, ne) {
            change_line(changes.last())
        } else {
            Seq::empty()
        }
    }
}

/// Whether the hunk `os..oe`, `ns..ne` has a line of kind `k`.
pub open spec fn hunk_has(
    changes: Seq<(ChangeKind, Option<usize>, Option<usize>, Seq<char>)>,
    os: usize,
    oe: usize,
    ns: usize,
    ne: usize,
    k: ChangeKind,
) -> bool {
    exists|i: int| 0 <= i < changes.len() && in_hunk(#[trigger] changes[i], os, oe, ns, ne) && changes[i].0 == k
}

/// The note for a missing newline at the end of a file.
pub open spec fn no_newline_note() -> Seq<char> {
    "\\ No newline at end of file\n"@
}

/// The text of one hunk: from the start of its first operation to the end
/// of its last one.  The last hunk ends with the missing-newline note when
/// the old text lacks a final newline and the hunk deletes a line, or the
/// new text lacks one and the hunk inserts a line.
pub open spec fn group_text(
    g: Seq<LineOp>,
    changes: Seq<(ChangeKind, Option<usize>, Option<usize>, Seq<char>)>,
    old_no_lf: bool,
    new_no_lf: bool,
    is_last: bool,
) -> Seq<char> {
    let os = g[0].old_start;
    let ns = g[0].new_start;
    let oe = g.last().old_end;
    let ne = g.last().new_end;
    let note = is_last && ((old_no_lf && hunk_has(changes, os, oe, ns, ne, ChangeKind::Delete)) || (
    new_no_lf && hunk_has(changes, os, oe, ns, ne, ChangeKind::Insert)));
    hunk_header(os, sat_sub(oe, os), ns, sat_sub(ne, ns)) + hunk_body(changes, os, oe, ns, ne) + if note {
        no_newline_note()
    } else {
        Seq::empty()
    }
}

/// The text of the first `k` hunks of `groups`.
pub open spec fn hunks_text(
    groups: Seq<Seq<LineOp>>,
    changes: Seq<(ChangeKind, Option<usize>, Option<usize>, Seq<char>)>,
    old_no_lf: bool,
    new_no_lf: bool,
    k: int,
) -> Seq<char>
    decreases k,
{
    if k <= 0 {
        Seq::empty()
    } else {
        hunks_text(groups, changes, old_no_lf, new_no_lf, k - 1) + group_text(
            groups[k - 1],
            changes,
            old_no_lf,
            new_no_lf,
            k - 1 == groups.len() - 1,
        )
    }
}

/// Whether some operation changes something.
pub open spec fn has_change(ops: Seq<LineOp>) -> bool {
    exists|i: int| 0 <= i < ops.len() && (#[trigger] ops[i]).tag != OpTag::Equal
}

/// The diff of two texts whose lines all match: empty, unless they differ
/// only in whether the last line ends with a newline, in which case that
/// line is shown removed and added.
pub open spec fn same_lines_text(old: Seq<char>, new: Seq<char>, old_no_lf: bool, new_no_lf: bool) -> Seq<char> {
    let la = text_lines(old);
    let lb = text_lines(new);
    if la == lb && la.len() > 0 && old_no_lf != new_no_lf {
        "@@ -"@ + decimal(la.len()) + ",1 +"@ + decimal(la.len()) + ",1 @@\n"@ + seq!['-'] + la.last()
            + seq!['\n', '+'] + lb.last() + seq!['\n']
    } else {
        Seq::empty()
    }
}

/// The diff rendered from what `similar` found: the hunks when some
/// operation changes something, the all-lines-match case otherwise.
pub open spec fn render_ops(
    old: Seq<char>,
    new: Seq<char>,
    old_no_lf: bool,
    new_no_lf: bool,
    ops: Seq<LineOp>,
    groups: Seq<Seq<LineOp>>,
    changes: Seq<(ChangeKind, Option<usize>, Option<usize>, Seq<char>)>,
) -> Seq<char> {
    if has_change(ops) {
        hunks_text(groups, changes, old_no_lf, new_no_lf, groups.len() as int)
    } else {
        same_lines_text(old, new, old_no_lf, new_no_lf)
    }
}


/// The texts of `parts` one after the other.
pub open spec fn concat_all(parts: Seq<Seq<char>>) -> Seq<char>
    decreases parts.len(),
{
    if parts.len() == 0 {
        Seq::empty()
    } else {
        concat_all(parts.drop_last()) + parts.last()
    }
}

/// Whether `text` is one part per group of `groups`, in order, each part
/// the group's hunk: the header `@@ -a,m +b,n @@` for the old lines from
/// the start of its first operation to the end of its last one (and the
/// same for the new lines), then every line of `changes` that falls in that
/// range; only the last part may end with the missing-newline note.
pub open spec fn has_every_hunk(
    text: Seq<char>,
    groups: Seq<Seq<LineOp>>,
    changes: Seq<(ChangeKind, Option<usize>, Option<usize>, Seq<char>)>,
) -> bool {
    exists|parts: Seq<Seq<char>>|
        parts.len() == groups.len() && text == #[trigger] concat_all(parts) && forall|k: int|
            0 <= k < groups.len() ==> ({
                let g = groups[k];
                let os = g[0].old_start;
                let ns = g[0].new_start;
                let oe = g.last().old_end;
                let ne = g.last().new_end;
                let h = hunk_header(os, sat_sub(oe, os), ns, sat_sub(ne, ns)) + hunk_body(changes, os, oe, ns, ne);
                #[trigger] parts[k] == h || (k == groups.len() - 1 && parts[k] == h + no_newline_note())
            })
}

proof fn lemma_hunks_concat(
    groups: Seq<Seq<LineOp>>,
    changes: Seq<(ChangeKind, Option<usize>, Option<usize>, Seq<char>)>,
    old_no_lf: bool,
    new_no_lf: bool,
    parts: Seq<Seq<char>>,
    k: int,
)
    requires
        0 <= k <= groups.len(),
        parts.len() == groups.len(),
        forall|j: int| 0 <= j < groups.len() ==> #[trigger] parts[j] == group_text(
            groups[j],
            changes,
            old_no_lf,
            new_no_lf,
            j == groups.len() - 1,
        ),
    ensures
        hunks_text(groups, changes, old_no_lf, new_no_lf, k) == concat_all(parts.take(k)),
    decreases k,
{
    if k > 0 {
        lemma_hunks_concat(groups, changes, old_no_lf, new_no_lf, parts, k - 1);
        assert(parts.take(k).drop_last() =~= parts.take(k - 1));
        assert(parts.take(k).last() == parts[k - 1]);
    } else {
        assert(parts.take(0) =~= Seq::<Seq<char>>::empty());
    }
}

/// When some operation changes something, the diff has a hunk for every
/// group of operations, in order: no group is left out, and each hunk
/// shows every line of the diff that falls in its range.
pub proof fn law_diff_has_every_hunk(
    old: Seq<char>,
    new: Seq<char>,
    old_no_lf: bool,
    new_no_lf: bool,
    ops: Seq<LineOp>,
    groups: Seq<Seq<LineOp>>,
    changes: Seq<(ChangeKind, Option<usize>, Option<usize>, Seq<char>)>,
)
    requires
        exists|i: int| 0 <= i < ops.len() && (#[trigger] ops[i]).tag != OpTag::Equal,
        forall|i: int| 0 <= i < groups.len() ==> (#[trigger] groups[i]).len() > 0,
    ensures
        has_every_hunk(render_ops(old, new, old_no_lf, new_no_lf, ops, groups, changes), groups, changes),
{
    let parts = Seq::new(
        groups.len(),
        |j: int| group_text(groups[j], changes, old_no_lf, new_no_lf, j == groups.len() - 1),
    );
    lemma_hunks_concat(groups, changes, old_no_lf, new_no_lf, parts, groups.len() as int);
    assert(parts.take(groups.len() as int) =~= parts);
    assert(has_change(ops));
    assert forall|k: int| 0 <= k < groups.len() implies ({
        let g = groups[k];
        let os = g[0].old_start;
        let ns = g[0].new_start;
        let oe = g.last().old_end;
        let ne = g.last().new_end;
        let h = hunk_header(os, sat_sub(oe, os), ns, sat_sub(ne, ns)) + hunk_body(changes, os, oe, ns, ne);
        #[trigger] parts[k] == h || (k == groups.len() - 1 && parts[k] == h + no_newline_note())
    }) by {
        let g = groups[k];
        let os = g[0].old_start;
        let ns = g[0].new_start;
        let oe = g.last().old_end;
        let ne = g.last().new_end;
        let h = hunk_header(os, sat_sub(oe, os), ns, sat_sub(ne, ns)) + hunk_body(changes, os, oe, ns, ne);
        assert(h + Seq::<char>::empty() =~= h);
    }
}

/// The lines, each after `mark` and followed by a newline.
pub open spec fn marked_lines(lines: Seq<Seq<char>>, mark: char) -> Seq<char>
    decreases lines.len(),
{
    if lines.len() == 0 {
        Seq::empty()
    } else {
        marked_lines(lines.drop_last(), mark) + seq![mark] + lines.last() + seq!['\n']
    }
}

/// The unified diff of `old` and `new`, given what `similar` computes on
/// the two texts without their final newlines: nothing when the texts are
/// equal; one hunk of added (removed) lines when the old (new) text is
/// empty; the rendered operations otherwise.
pub open spec fn unified_diff(
    old: Seq<char>,
    new: Seq<char>,
    ops: Seq<LineOp>,
    groups: Seq<Seq<LineOp>>,
    changes: Seq<(ChangeKind, Option<usize>, Option<usize>, Seq<char>)>,
) -> Seq<char> {
    let na = strip_lf(old);
    let nb = strip_lf(new);
    if old == new || (na.len() == 0 && nb.len() == 0) {
        Seq::empty()
    } else if na.len() == 0 {
        "@@ -0,0 +1,"@ + decimal(text_lines(nb).len()) + " @@\n"@ + marked_lines(text_lines(nb), '+')
    } else if nb.len() == 0 {
        "@@ -1,"@ + decimal(text_lines(na).len()) + " +0,0 @@\n"@ + marked_lines(text_lines(na), '-')
    } else {
        render_ops(na, nb, lacks_final_lf(old), lacks_final_lf(new), ops, groups, changes)
    }
}

fn push_marked_lines(result: &mut String, lines: &Vec<String>, mark: char)
    ensures
        final(result)@ == old(result)@ + marked_lines(lines@.map_values(|x: String| x@), mark),
{
    let ghost lv = lines@.map_values(|x: String| x@);
    let ghost start = result@;
    let mut i: usize = 0;
    while i < lines.len()
        invariant
            i <= lines@.len(),
            lv == lines@.map_values(|x: String| x@),
            result@ == start + marked_lines(lv.take(i as int), mark),
        decreases lines@.len() - i,
    {
        push_char(result, mark);
        push_str(result, lines[i].as_str());
        push_char(result, '\n');
        i += 1;
        assert(lv.take(i as int).drop_last() =~= lv.take(i - 1));
        assert(result@ =~= start + marked_lines(lv.take(i as int), mark));
    }
    assert(lv.take(lines@.len() as int) =~= lv);
}

fn push_usize(result: &mut String, n: usize)
    ensures
        final(result)@ == old(result)@ + decimal(n as nat),
{
    push_decimal(result, n as u64);
}

proof fn lemma_hunk_step(
    before: Seq<(ChangeKind, Option<usize>, Option<usize>, Seq<char>)>,
    x: (ChangeKind, Option<usize>, Option<usize>, Seq<char>),
    os: usize,
    oe: usize,
    ns: usize,
    ne: usize,
)
    ensures
        hunk_body(before.push(x), os, oe, ns, ne) == hunk_body(before, os, oe, ns, ne) + if in_hunk(
            x,
            os,
            oe,
            ns,
            ne,
        ) {
            change_line(x)
        } else {
            Seq::empty()
        },
        forall|k: ChangeKind|
            #[trigger] hunk_has(before.push(x), os, oe, ns, ne, k) == (hunk_has(
                before,
                os,
                oe,
                ns,
                ne,
                k,
            ) || (in_hunk(x, os, oe, ns, ne) && x.0 == k)),
{
    let after = before.push(x);
    assert(after.drop_last() =~= before);
    assert forall|k: ChangeKind|
        #[trigger] hunk_has(after, os, oe, ns, ne, k) == (hunk_has(before, os, oe, ns, ne, k) || (
        in_hunk(x, os, oe, ns, ne) && x.0 == k)) by {
        if hunk_has(after, os, oe, ns, ne, k) {
            let w = choose|i: int|
                0 <= i < after.len() && in_hunk(#[trigger] after[i], os, oe, ns, ne) && after[i].0
                    == k;
            if w < before.len() {
                assert(before[w] == after[w]);
            }
        }
        if hunk_has(before, os, oe, ns, ne, k) {
            let w = choose|i: int|
                0 <= i < before.len() && in_hunk(#[trigger] before[i], os, oe, ns, ne)
                    && before[i].0 == k;
            assert(after[w] == before[w]);
        }
        if in_hunk(x, os, oe, ns, ne) && x.0 == k {
            assert(after[before.len() as int] == x);
        }
    }
}

/// Appends the line of `c` when it falls in the hunk `os..oe`, `ns..ne`,
/// and tells whether it did.
fn push_hunk_line(result: &mut String, c: &LineChange, os: usize, oe: usize, ns: usize, ne: usize) -> (sel: bool)
    requires
        c.kind == ChangeKind::Insert ==> c.new_index is Some,
    ensures
        sel == in_hunk(change_view(*c), os, oe, ns, ne),
        final(result)@ == old(result)@ + if sel {
            change_line(change_view(*c))
        } else {
            Seq::empty()
        },
{
    let selected = match c.kind {
        ChangeKind::Insert => match c.new_index {
            Some(ni) => ns <= ni && ni < ne,
            None => false,
        },
        _ => {
            let oi = match c.old_index {
                Some(x) => x,
                None => 0,
            };
            os <= oi && oi < oe
        },
    };
    if selected {
        let ghost start = result@;
        let mark = match c.kind {
            ChangeKind::Equal => ' ',
            ChangeKind::Delete => '-',
            ChangeKind::Insert => '+',
        };
        push_char(result, mark);
        let v = chars_of(c.value.as_str());
        let end = if v.len() > 0 && v[v.len() - 1] == '\n' {
            v.len() - 1
        } else {
            v.len()
        };
        push_chars(result, &v, 0, end);
        push_char(result, '\n');
        assert(v@.subrange(0, end as int) =~= strip_lf(c.value@));
        assert(result@ =~= start + change_line(change_view(*c)));
    } else {
        assert(result@ =~= old(result)@ + Seq::<char>::empty());
    }
    selected
}

#[verifier::rlimit(60)]
fn push_hunk_header(result: &mut String, os: usize, oe: usize, ns: usize, ne: usize)
    ensures
        final(result)@ == old(result)@ + hunk_header(os, sat_sub(oe, os), ns, sat_sub(ne, ns)),
{
    let ca: usize = if oe >= os {
        oe - os
    } else {
        0
    };
    let cb: usize = if ne >= ns {
        ne - ns
    } else {
        0
    };
    let sa: usize = if ca == 0 {
        os
    } else {
        os + 1
    };
    let sb: usize = if cb == 0 {
        ns
    } else {
        ns + 1
    };
    assert(ca as nat == sat_sub(oe, os) && cb as nat == sat_sub(ne, ns));
    let ghost start = result@;
    let ghost h = hunk_header(os, sat_sub(oe, os), ns, sat_sub(ne, ns));
    let ghost p1 = "@@ -"@ + decimal(sa as nat) + ","@ + decimal(ca as nat);
    let ghost p2 = " +"@ + decimal(sb as nat) + ","@ + decimal(cb as nat) + " @@\n"@;
    assert(h =~= p1 + p2);
    push_str(result, "@@ -");
    push_usize(result, sa);
    push_str(result, ",");
    push_usize(result, ca);
    assert(result@ =~= start + p1);
    let ghost mid = result@;
    push_str(result, " +");
    push_usize(result, sb);
    push_str(result, ",");
    push_usize(result, cb);
    push_str(result, " @@\n");
    assert(result@ =~= mid + p2);
    assert(result@ =~= start + h);
}

fn render_group(
    result: &mut String,
    g: &Vec<LineOp>,
    changes: &[LineChange],
    old_no_lf: bool,
    new_no_lf: bool,
    is_last: bool,
)
    requires
        g@.len() > 0,
        forall|i: int|
            0 <= i < changes@.len() && (#[trigger] changes@[i]).kind == ChangeKind::Insert
                ==> changes@[i].new_index is Some,
    ensures
        final(result)@ == old(result)@ + group_text(
            g@,
            changes@.map_values(|c: LineChange| change_view(c)),
            old_no_lf,
            new_no_lf,
            is_last,
        ),
{
    let ghost cv = changes@.map_values(|c: LineChange| change_view(c));
    let os = g[0].old_start;
    let ns = g[0].new_start;
    let oe = g[g.len() - 1].old_end;
    let ne = g[g.len() - 1].new_end;
    push_hunk_header(result, os, oe, ns, ne);
    let ghost head = result@;
    let mut saw_delete = false;
    let mut saw_insert = false;
    let mut j: usize = 0;
    assert(result@ =~= head + hunk_body(cv.take(0), os, oe, ns, ne));
    while j < changes.len()
        invariant
            j <= changes@.len(),
            cv == changes@.map_values(|c: LineChange| change_view(c)),
            forall|i: int|
                0 <= i < changes@.len() && (#[trigger] changes@[i]).kind == ChangeKind::Insert
                    ==> changes@[i].new_index is Some,
            result@ == head + hunk_body(cv.take(j as int), os, oe, ns, ne),
            saw_delete == hunk_has(cv.take(j as int), os, oe, ns, ne, ChangeKind::Delete),
            saw_insert == hunk_has(cv.take(j as int), os, oe, ns, ne, ChangeKind::Insert),
        decreases changes@.len() - j,
    {
        let ghost cj = cv[j as int];
        assert(cj == change_view(changes@[j as int]));
        let ghost mid = result@;
        let selected = push_hunk_line(result, &changes[j], os, oe, ns, ne);
        proof {
            assert(cv.take(j + 1) =~= cv.take(j as int).push(cj));
            lemma_hunk_step(cv.take(j as int), cj, os, oe, ns, ne);
            assert(hunk_has(cv.take(j + 1), os, oe, ns, ne, ChangeKind::Delete) == (hunk_has(
                cv.take(j as int),
                os,
                oe,
                ns,
                ne,
                ChangeKind::Delete,
            ) || (in_hunk(cj, os, oe, ns, ne) && cj.0 == ChangeKind::Delete)));
            assert(hunk_has(cv.take(j + 1), os, oe, ns, ne, ChangeKind::Insert) == (hunk_has(
                cv.take(j as int),
                os,
                oe,
                ns,
                ne,
                ChangeKind::Insert,
            ) || (in_hunk(cj, os, oe, ns, ne) && cj.0 == ChangeKind::Insert)));
        }
        if selected && changes[j].kind == ChangeKind::Delete {
            saw_delete = true;
        }
        if selected && changes[j].kind == ChangeKind::Insert {
            saw_insert = true;
        }
        j += 1;
    }
    assert(cv.take(changes@.len() as int) =~= cv);
    if is_last && ((old_no_lf && saw_delete) || (new_no_lf && saw_insert)) {
        push_str(result, "\\ No newline at end of file\n");
    } else {
        assert(result@ =~= result@ + Seq::<char>::empty());
    }
}

/// Renders a line diff from what `similar` computed for the two texts
/// (without their final newlines): `ops`, the operations; `groups`, the
/// operations grouped into hunks; `changes`, every line of the diff.
pub fn format_line_diff(
    old: &str,
    new: &str,
    old_no_lf: bool,
    new_no_lf: bool,
    ops: &[LineOp],
    groups: &[Vec<LineOp>],
    changes: &[LineChange],
) -> (r: String)
    requires
        forall|i: int| 0 <= i < groups@.len() ==> (#[trigger] groups@[i])@.len() > 0,
        forall|i: int|
            0 <= i < changes@.len() && (#[trigger] changes@[i]).kind == ChangeKind::Insert
                ==> changes@[i].new_index is Some,
    ensures
        r@ == render_ops(
            old@,
            new@,
            old_no_lf,
            new_no_lf,
            ops@,
            groups@.map_values(|g: Vec<LineOp>| g@),
            changes@.map_values(|c: LineChange| change_view(c)),
        ),
        (exists|i: int| 0 <= i < ops@.len() && (#[trigger] ops@[i]).tag != OpTag::Equal) ==> has_every_hunk(
            r@,
            groups@.map_values(|g: Vec<LineOp>| g@),
            changes@.map_values(|c: LineChange| change_view(c)),
        ),
{
    let ghost gv = groups@.map_values(|g: Vec<LineOp>| g@);
    let ghost cv = changes@.map_values(|c: LineChange| change_view(c));
    let mut any = false;
    let mut i: usize = 0;
    while i < ops.len()
        invariant
            i <= ops@.len(),
            any == exists|k: int| 0 <= k < i && (#[trigger] ops@[k]).tag != OpTag::Equal,
        decreases ops@.len() - i,
    {
        if ops[i].tag != OpTag::Equal {
            any = true;
        }
        i += 1;
    }
    let mut result = String::new();
    if any {
        let mut gi: usize = 0;
        while gi < groups.len()
            invariant
                gi <= groups@.len(),
                gv == groups@.map_values(|g: Vec<LineOp>| g@),
                cv == changes@.map_values(|c: LineChange| change_view(c)),
                forall|i: int| 0 <= i < groups@.len() ==> (#[trigger] groups@[i])@.len() > 0,
                forall|i: int|
                    0 <= i < changes@.len() && (#[trigger] changes@[i]).kind == ChangeKind::Insert
                        ==> changes@[i].new_index is Some,
                result@ == hunks_text(gv, cv, old_no_lf, new_no_lf, gi as int),
            decreases groups@.len() - gi,
        {
            let is_last = gi == groups.len() - 1;
            render_group(&mut result, &groups[gi], changes, old_no_lf, new_no_lf, is_last);
            gi += 1;
        }
        proof {
            assert forall|i: int| 0 <= i < gv.len() implies (#[trigger] gv[i]).len() > 0 by {
                assert(gv[i] == groups@[i]@);
            }
            law_diff_has_every_hunk(old@, new@, old_no_lf, new_no_lf, ops@, gv, cv);
        }
        result
    } else {
        let la = text_lines_of(old);
        let lb = text_lines_of(new);
        let ghost av = la@.map_values(|x: String| x@);
        let ghost bv = lb@.map_values(|x: String| x@);
        if la.len() == lb.len() && la.len() > 0 {
            let mut same = true;
            let mut k: usize = 0;
            while k < la.len() - 1
                invariant
                    0 < la@.len() == lb@.len(),
                    k <= la@.len() - 1,
                    av == la@.map_values(|x: String| x@),
                    bv == lb@.map_values(|x: String| x@),
                    same == forall|m: int| 0 <= m < k ==> av[m] == bv[m],
                decreases la@.len() - 1 - k,
            {
                assert(av[k as int] == la@[k as int]@ && bv[k as int] == lb@[k as int]@);
                if la[k] != lb[k] {
                    same = false;
                }
                k += 1;
            }
            let last = la.len() - 1;
            assert(av[last as int] == la@[last as int]@ && bv[last as int] == lb@[last as int]@);
            if same && la[last] == lb[last] && old_no_lf != new_no_lf {
                assert(av =~= bv);
                push_str(&mut result, "@@ -");
                push_usize(&mut result, la.len());
                push_str(&mut result, ",1 +");
                push_usize(&mut result, la.len());
                push_str(&mut result, ",1 @@\n");
                push_char(&mut result, '-');
                push_str(&mut result, la[last].as_str());
                push_char(&mut result, '\n');
                push_char(&mut result, '+');
                push_str(&mut result, lb[last].as_str());
                push_char(&mut result, '\n');
                assert(result@ =~= same_lines_text(old@, new@, old_no_lf, new_no_lf));
                return result;
            }
            proof {
                if av == bv {
                    assert forall|m: int| 0 <= m < k implies av[m] == bv[m] by {}
                    assert(av[last as int] == bv[last as int]);
                }
            }
        }
        assert(result@ =~= same_lines_text(old@, new@, old_no_lf, new_no_lf));
        result
    }
}

/// The unified diff of `a` and `b` with `ctx_len` lines of context around
/// each change (see [`unified_diff`]).  Where the changes are grouped
/// (the texts differ and neither is empty once a final `\n` is set aside),
/// the context is at most half the largest `usize`: the grouping doubles it.
pub fn diff(a: &str, b: &str, ctx_len: usize) -> (r: String)
    requires
        a@ != b@ && strip_lf(a@).len() > 0 && strip_lf(b@).len() > 0 ==> ctx_len <= usize::MAX / 2,
    ensures
        r@ == unified_diff(
            a@,
            b@,
            similar_line_ops(strip_lf(a@), strip_lf(b@)),
            similar_grouped_ops(strip_lf(a@), strip_lf(b@), ctx_len),
            similar_changes(strip_lf(a@), strip_lf(b@)),
        ),
{
    let sa = string_of(a);
    let sb = string_of(b);
    if sa == sb {
        return String::new();
    }
    let ca = chars_of(a);
    let cb = chars_of(b);
    let a_no_lf = ca.len() > 0 && ca[ca.len() - 1] != '\n';
    let b_no_lf = cb.len() > 0 && cb[cb.len() - 1] != '\n';
    let a_end = if ca.len() > 0 && ca[ca.len() - 1] == '\n' {
        ca.len() - 1
    } else {
        ca.len()
    };
    let b_end = if cb.len() > 0 && cb[cb.len() - 1] == '\n' {
        cb.len() - 1
    } else {
        cb.len()
    };
    let na = string_from_chars(&ca, 0, a_end);
    let nb = string_from_chars(&cb, 0, b_end);
    assert(na@ =~= strip_lf(a@));
    assert(nb@ =~= strip_lf(b@));
    if a_end == 0 && b_end == 0 {
        return String::new();
    }
    let mut result = String::new();
    if a_end == 0 {
        let lines = text_lines_of(nb.as_str());
        push_str(&mut result, "@@ -0,0 +1,");
        push_usize(&mut result, lines.len());
        push_str(&mut result, " @@\n");
        push_marked_lines(&mut result, &lines, '+');
        return result;
    }
    if b_end == 0 {
        let lines = text_lines_of(na.as_str());
        push_str(&mut result, "@@ -1,");
        push_usize(&mut result, lines.len());
        push_str(&mut result, " +0,0 @@\n");
        push_marked_lines(&mut result, &lines, '-');
        return result;
    }
    let ops = line_ops(na.as_str(), nb.as_str());
    let groups = grouped_line_ops(na.as_str(), nb.as_str(), ctx_len);
    let changes = line_changes(na.as_str(), nb.as_str());
    format_line_diff(na.as_str(), nb.as_str(), a_no_lf, b_no_lf, &ops, &groups, &changes)
}

/// Equal texts have an empty diff, whatever the context and whatever the
/// differ would report.
pub proof fn law_same_text_no_diff(
    a: Seq<char>,
    ops: Seq<LineOp>,
    groups: Seq<Seq<LineOp>>,
    changes: Seq<(ChangeKind, Option<usize>, Option<usize>, Seq<char>)>,
)
    ensures
        unified_diff(a, a, ops, groups, changes) == Seq::<char>::empty(),
{
}

} // verus!
