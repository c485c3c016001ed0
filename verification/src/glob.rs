//! Shell-style glob matching over the bytes of a file name or path.
//!
//! Supported syntax: `?` (one byte), `*` (any run of bytes), and bracket
//! classes `[...]` with ranges `a-z` and negation `[!...]`.  A leading `!`
//! on a whole pattern negates it.  The pathname variants keep `?`, `*` and
//! classes from matching a `/`.
use vstd::prelude::*;
use vstd::string::StringSliceAdditionalSpecFns;

verus! {

pub const BANG: u8 = 0x21;
pub const STAR: u8 = 0x2A;
pub const DASH: u8 = 0x2D;
pub const SLASH: u8 = 0x2F;
pub const QUESTION: u8 = 0x3F;
pub const LBRACKET: u8 = 0x5B;
pub const RBRACKET: u8 = 0x5D;

// ---------------------------------------------------------------------
// Bracket classes
// ---------------------------------------------------------------------

/// Whether the items of a class body, read from `q` up to the closing `]`
/// (or the end of the pattern), contain byte `ch`.  An item is either a
/// range `x-y` (when `y` is not `]`) or a single byte.
pub open spec fn class_items_hit(p: Seq<u8>, q: int, ch: u8) -> bool
    decreases p.len() - q,
{
    if q < 0 || q >= p.len() || p[q] == RBRACKET {
        false
    } else if q + 2 < p.len() && p[q + 1] == DASH && p[q + 2] != RBRACKET {
        (p[q] <= ch && ch <= p[q + 2]) || class_items_hit(p, q + 3, ch)
    } else {
        ch == p[q] || class_items_hit(p, q + 1, ch)
    }
}

/// The position at which the items of a class body, read from `q`, stop:
/// the index of the closing `]`, or the end of the pattern.
pub open spec fn class_items_end(p: Seq<u8>, q: int) -> int
    decreases p.len() - q,
{
    if q < 0 || q >= p.len() || p[q] == RBRACKET {
        q
    } else if q + 2 < p.len() && p[q + 1] == DASH && p[q + 2] != RBRACKET {
        class_items_end(p, q + 3)
    } else {
        class_items_end(p, q + 1)
    }
}

/// Whether the class is negated (`[!...]`); `pi` is the index of `[`.
pub open spec fn class_negated(p: Seq<u8>, pi: int) -> bool {
    pi + 1 < p.len() && p[pi + 1] == BANG
}

/// The index of the first class item after `[` and an optional `!`.
pub open spec fn class_body_start(p: Seq<u8>, pi: int) -> int {
    if class_negated(p, pi) { pi + 2 } else { pi + 1 }
}

/// Whether a `]` right after `[` (or `[!`) stands for itself.
pub open spec fn class_leading_bracket(p: Seq<u8>, pi: int) -> bool {
    let q = class_body_start(p, pi);
    q < p.len() && p[q] == RBRACKET
}

/// The first position that the item scan starts from.
pub open spec fn class_items_start(p: Seq<u8>, pi: int) -> int {
    if class_leading_bracket(p, pi) {
        class_body_start(p, pi) + 1
    } else {
        class_body_start(p, pi)
    }
}

/// Whether the class starting with `[` at `pi` accepts byte `ch`.
pub open spec fn class_accepts(p: Seq<u8>, pi: int, ch: u8) -> bool {
    let hit = (class_leading_bracket(p, pi) && ch == RBRACKET) || class_items_hit(
        p,
        class_items_start(p, pi),
        ch,
    );
    if class_negated(p, pi) {
        !hit
    } else {
        hit
    }
}

/// The pattern position just after the class starting at `pi`: past the
/// closing `]`, or the end of the pattern when the class is unterminated.
pub open spec fn class_next(p: Seq<u8>, pi: int) -> int {
    let e = class_items_end(p, class_items_start(p, pi));
    if e < p.len() {
        e + 1
    } else {
        e
    }
}

proof fn lemma_class_items_end_bounds(p: Seq<u8>, q: int)
    requires
        0 <= q <= p.len(),
    ensures
        q <= class_items_end(p, q) <= p.len(),
        class_items_end(p, q) < p.len() ==> p[class_items_end(p, q)] == RBRACKET,
    decreases p.len() - q,
{
    if q >= p.len() || p[q] == RBRACKET {
    } else if q + 2 < p.len() && p[q + 1] == DASH && p[q + 2] != RBRACKET {
        lemma_class_items_end_bounds(p, q + 3);
    } else {
        lemma_class_items_end_bounds(p, q + 1);
    }
}

/// Reads the bracket class whose `[` stands at `pi` and tests `ch` against it.
/// Returns whether it matched and the position after the class.
fn match_class(pattern: &[u8], pi: usize, ch: u8) -> (res: (bool, usize))
    requires
        pi < pattern@.len(),
    ensures
        res.0 == class_accepts(pattern@, pi as int, ch),
        res.1 == class_next(pattern@, pi as int),
        pi < res.1 <= pattern@.len(),
{
    let ghost p = pattern@;
    let len = pattern.len();
    let mut i = pi + 1;
    let mut negate = false;
    if i < len && pattern[i] == BANG {
        negate = true;
        i += 1;
    }
    let mut matched = false;
    if i < len && pattern[i] == RBRACKET {
        if ch == RBRACKET {
            matched = true;
        }
        i += 1;
    }
    assert(i == class_items_start(p, pi as int));
    assert(matched == (class_leading_bracket(p, pi as int) && ch == RBRACKET));
    let ghost start = i as int;
    proof {
        lemma_class_items_end_bounds(p, start);
    }
    while i < len && pattern[i] != RBRACKET
        invariant
            len == p.len(),
            pattern@ == p,
            start <= i <= len,
            class_items_end(p, i as int) == class_items_end(p, start),
            (matched || class_items_hit(p, i as int, ch)) == ((class_leading_bracket(
                p,
                pi as int,
            ) && ch == RBRACKET) || class_items_hit(p, start, ch)),
        decreases len - i,
    {
        if len - i > 2 && pattern[i + 1] == DASH && pattern[i + 2] != RBRACKET {
            let range_start = pattern[i];
            let range_end = pattern[i + 2];
            if ch >= range_start && ch <= range_end {
                matched = true;
            }
            i += 3;
        } else {
            if ch == pattern[i] {
                matched = true;
            }
            i += 1;
        }
    }
    assert(class_items_end(p, i as int) == i);
    if i < len {
        i += 1;
    }
    if negate {
        (!matched, i)
    } else {
        (matched, i)
    }
}

// ---------------------------------------------------------------------
// The matcher
// ---------------------------------------------------------------------

/// Whether every byte of `p` from `pi` on is `*`.
pub open spec fn only_stars_from(p: Seq<u8>, pi: int) -> bool {
    forall|k: int| pi <= k < p.len() ==> p[k] == STAR
}

/// The outcome of the matcher from state `(pi, si)`, where `sp` is the
/// position of the last `*` seen in the pattern (or -1) and `ms` is the
/// string position that star currently absorbs up to.  When a single-byte
/// step fails, the last star absorbs one more byte and matching resumes
/// right after it.  A `*` is always a wildcard; any other pattern byte
/// equal to the string byte matches it literally, before `?` or `[` are
/// considered.  With `pathname`,
/// `?` and classes never match `/`, and a star cannot absorb a `/` or
/// retreat behind the current string position.
pub open spec fn glob_run(
    p: Seq<u8>,
    s: Seq<u8>,
    pathname: bool,
    pi: int,
    si: int,
    sp: int,
    ms: int,
) -> bool
    decreases s.len() - ms, s.len() - si, p.len() - pi,
{
    if !(0 <= ms <= si <= s.len() && 0 <= pi <= p.len() && -1 <= sp < p.len()) {
        false
    } else if si == s.len() {
        only_stars_from(p, pi)
    } else if pi < p.len() && p[pi] == STAR {
        glob_run(p, s, pathname, pi + 1, si, pi, si)
    } else if pi < p.len() && ((p[pi] == QUESTION && !(pathname && s[si] == SLASH)) || p[pi]
        == s[si]) {
        glob_run(p, s, pathname, pi + 1, si + 1, sp, ms)
    } else if pi < p.len() && p[pi] == LBRACKET {
        if !(pathname && s[si] == SLASH) && class_accepts(p, pi, s[si]) {
            glob_run(p, s, pathname, class_next(p, pi), si + 1, sp, ms)
        } else if sp >= 0 {
            glob_run(p, s, pathname, sp + 1, ms + 1, sp, ms + 1)
        } else {
            false
        }
    } else if sp >= 0 {
        if pathname && (ms + 1 <= si || (ms + 1 > 0 && s[ms] == SLASH)) {
            false
        } else {
            glob_run(p, s, pathname, sp + 1, ms + 1, sp, ms + 1)
        }
    } else {
        false
    }
}

/// Whether pattern `p` matches all of `s` (no `!` handling).
pub open spec fn glob_matches(p: Seq<u8>, s: Seq<u8>, pathname: bool) -> bool {
    glob_run(p, s, pathname, 0, 0, -1, 0)
}

/// A whole pattern: empty matches nothing, a leading `!` negates the rest.
pub open spec fn glob_pattern_matches(p: Seq<u8>, s: Seq<u8>, pathname: bool) -> bool {
    if p.len() == 0 {
        false
    } else if p[0] == BANG {
        !glob_matches(p.skip(1), s, pathname)
    } else {
        glob_matches(p, s, pathname)
    }
}

fn fnmatch_bytes(pat: &[u8], st: &[u8], pathname: bool) -> (res: bool)
    ensures
        res == glob_matches(pat@, st@, pathname),
{
    let ghost p = pat@;
    let ghost s = st@;
    let plen = pat.len();
    let slen = st.len();
    let mut pi: usize = 0;
    let mut si: usize = 0;
    // one past the position of the last `*` seen, or 0 when there is none
    let mut star_next: usize = 0;
    let mut match_si: usize = 0;

    while si < slen
        invariant
            plen == p.len(),
            slen == s.len(),
            pat@ == p,
            st@ == s,
            0 <= match_si <= si <= slen,
            pi <= plen,
            star_next <= plen,
            glob_run(p, s, pathname, pi as int, si as int, star_next - 1, match_si as int)
                == glob_matches(p, s, pathname),
        decreases slen - match_si, slen - si, plen - pi,
    {
        let sc = st[si];
        if pi < plen && pat[pi] == STAR {
            star_next = pi + 1;
            match_si = si;
            pi += 1;
        } else if pi < plen && ((pat[pi] == QUESTION && !(pathname && sc == SLASH)) || pat[pi] == sc) {
            pi += 1;
            si += 1;
        } else if pi < plen && pat[pi] == LBRACKET {
            let class_ok = if pathname && sc == SLASH {
                false
            } else {
                let (m, next) = match_class(pat, pi, sc);
                if m {
                    pi = next;
                }
                m
            };
            if class_ok {
                si += 1;
            } else if star_next > 0 {
                pi = star_next;
                match_si += 1;
                si = match_si;
            } else {
                return false;
            }
        } else if star_next > 0 {
            pi = star_next;
            match_si += 1;
            if pathname && (match_si <= si || (match_si > 0 && st[match_si - 1] == SLASH)) {
                return false;
            }
            si = match_si;
        } else {
            return false;
        }
    }

    while pi < plen && pat[pi] == STAR
        invariant
            plen == p.len(),
            pat@ == p,
            si == s.len(),
            pi <= plen,
            only_stars_from(p, pi as int) == glob_matches(p, s, pathname),
        decreases plen - pi,
    {
        pi += 1;
    }
    pi == plen
}

/// Glob matching without pathname rules, on the raw pattern (no `!`).
fn fnmatch(pattern: &str, s: &str) -> (res: bool)
    ensures
        res == glob_matches(pattern.spec_bytes(), s.spec_bytes(), false),
{
    fnmatch_bytes(pattern.as_bytes(), s.as_bytes(), false)
}

/// Glob matching where `?`, `*` and classes do not match `/`.
pub fn fnmatch_pathname(pattern: &str, s: &str) -> (res: bool)
    ensures
        res == glob_matches(pattern.spec_bytes(), s.spec_bytes(), true),
{
    fnmatch_bytes(pattern.as_bytes(), s.as_bytes(), true)
}

fn pattern_matches_bytes(pat: &[u8], name: &[u8], pathname: bool) -> (res: bool)
    ensures
        res == glob_pattern_matches(pat@, name@, pathname),
{
    if pat.len() == 0 {
        return false;
    }
    if pat[0] == BANG {
        let rest = &pat[1..pat.len()];
        assert(rest@ == pat@.skip(1));
        return !fnmatch_bytes(rest, name, pathname);
    }
    fnmatch_bytes(pat, name, pathname)
}

/// Matches `filename` against `pattern`; an empty pattern matches nothing
/// and a leading `!` inverts the result.
pub fn match_glob(filename: &str, pattern: &str) -> (res: bool)
    ensures
        res == glob_pattern_matches(pattern.spec_bytes(), filename.spec_bytes(), false),
{
    let pat = pattern.as_bytes();
    if pat.len() > 0 && pat[0] != BANG {
        return fnmatch(pattern, filename);
    }
    pattern_matches_bytes(pat, filename.as_bytes(), false)
}

/// Like [`match_glob`], with pathname rules.
pub fn match_glob_pathname(filename: &str, pattern: &str) -> (res: bool)
    ensures
        res == glob_pattern_matches(pattern.spec_bytes(), filename.spec_bytes(), true),
{
    pattern_matches_bytes(pattern.as_bytes(), filename.as_bytes(), true)
}

/// The outcome of a list of patterns: a non-empty name is selected when
/// some positive pattern matches it and no negated pattern (`!p`) has its
/// body `p` matching it.  Empty patterns are skipped.
pub open spec fn any_glob_selects(patterns: Seq<Seq<u8>>, name: Seq<u8>) -> bool {
    &&& name.len() > 0
    &&& exists|k: int|
        0 <= k < patterns.len() && patterns[k].len() > 0 && patterns[k][0] != BANG
            && glob_matches(patterns[k], name, false)
    &&& forall|k: int|
        0 <= k < patterns.len() && patterns[k].len() > 0 && patterns[k][0] == BANG
            ==> !glob_matches(#[trigger] patterns[k].skip(1), name, false)
}

/// The byte views of a list of strings.
pub open spec fn bytes_of_all(patterns: Seq<String>) -> Seq<Seq<u8>> {
    patterns.map_values(|s: String| vstd::utf8::encode_utf8(s@))
}

/// Matches `filename` against a list of patterns (see [`any_glob_selects`]).
pub fn match_any_glob(filename: &str, patterns: &[String]) -> (res: bool)
    ensures
        res == any_glob_selects(bytes_of_all(patterns@), filename.spec_bytes()),
{
    let ghost ps = bytes_of_all(patterns@);
    let name = filename.as_bytes();
    if name.len() == 0 || patterns.len() == 0 {
        return false;
    }
    let mut matched = false;
    let mut i: usize = 0;
    while i < patterns.len()
        invariant
            0 <= i <= patterns@.len(),
            ps == bytes_of_all(patterns@),
            ps.len() == patterns@.len(),
            name@ == filename.spec_bytes(),
            name@.len() > 0,
            matched == exists|k: int|
                0 <= k < i && ps[k].len() > 0 && ps[k][0] != BANG && glob_matches(
                    ps[k],
                    name@,
                    false,
                ),
            forall|k: int|
                0 <= k < i && ps[k].len() > 0 && ps[k][0] == BANG ==> !glob_matches(
                    #[trigger] ps[k].skip(1),
                    name@,
                    false,
                ),
        decreases patterns@.len() - i,
    {
        let pat = patterns[i].as_str().as_bytes();
        assert(pat@ == ps[i as int]);
        if pat.len() > 0 {
            if pat[0] == BANG {
                let rest = &pat[1..pat.len()];
                assert(rest@ == ps[i as int].skip(1));
                if fnmatch_bytes(rest, name, false) {
                    return false;
                }
            } else {
                if fnmatch_bytes(pat, name, false) {
                    matched = true;
                }
            }
        }
        i += 1;
    }
    matched
}


// ---------------------------------------------------------------------
// Laws
// ---------------------------------------------------------------------

/// Whether a pattern holds none of the bytes `?`, `[` and `*`.
pub open spec fn is_literal_pattern(p: Seq<u8>) -> bool {
    forall|k: int| 0 <= k < p.len() ==> p[k] != QUESTION && p[k] != LBRACKET && p[k] != STAR
}

proof fn lemma_literal_run(p: Seq<u8>, s: Seq<u8>, pathname: bool, i: int)
    requires
        is_literal_pattern(p),
        0 <= i <= p.len(),
        i <= s.len(),
    ensures
        glob_run(p, s, pathname, i, i, -1, 0) == (p.len() == s.len() && forall|k: int|
            i <= k < p.len() ==> p[k] == s[k]),
    decreases s.len() - i,
{
    if i == s.len() {
        if i < p.len() {
            assert(p[i] != STAR);
        }
    } else if i < p.len() && p[i] == s[i] {
        lemma_literal_run(p, s, pathname, i + 1);
        if glob_run(p, s, pathname, i + 1, i + 1, -1, 0) {
            assert forall|k: int| i <= k < p.len() implies p[k] == s[k] by {
                if k > i {
                }
            }
        }
    } else {
        if i < p.len() {
            assert(p[i] != QUESTION && p[i] != LBRACKET && p[i] != STAR);
        }
    }
}

/// A pattern without `?`, `[` or `*` matches exactly the name equal to it,
/// with or without pathname rules.
pub proof fn law_literal_pattern_matches_itself_only(p: Seq<u8>, s: Seq<u8>, pathname: bool)
    requires
        is_literal_pattern(p),
    ensures
        glob_matches(p, s, pathname) <==> p == s,
{
    if s.len() >= p.len() {
        lemma_literal_run(p, s, pathname, 0);
    } else {
        // the run stops at the end of `s` with pattern bytes left over
        lemma_literal_prefix_short(p, s, pathname, 0);
    }
    if glob_matches(p, s, pathname) {
        assert(p =~= s);
    }
}

proof fn lemma_literal_prefix_short(p: Seq<u8>, s: Seq<u8>, pathname: bool, i: int)
    requires
        is_literal_pattern(p),
        0 <= i <= s.len(),
        s.len() < p.len(),
    ensures
        !glob_run(p, s, pathname, i, i, -1, 0),
    decreases s.len() - i,
{
    if i == s.len() {
        assert(p[i] != STAR);
    } else if p[i] == s[i] {
        lemma_literal_prefix_short(p, s, pathname, i + 1);
    }
}

proof fn lemma_star_absorbs_rest(s: Seq<u8>, si: int)
    requires
        0 <= si <= s.len(),
    ensures
        glob_run(seq![STAR], s, false, 1, si, 0, si),
    decreases s.len() - si,
{
    if si < s.len() {
        lemma_star_absorbs_rest(s, si + 1);
    }
}

/// The pattern `*` matches every name, the empty one included.
pub proof fn law_star_matches_any_name(s: Seq<u8>)
    ensures
        glob_matches(seq![STAR], s, false),
{
    if s.len() > 0 {
        lemma_star_absorbs_rest(s, 0);
    }
}

proof fn lemma_pathname_star_rest(s: Seq<u8>, si: int)
    requires
        0 <= si <= s.len(),
    ensures
        glob_run(seq![STAR], s, true, 1, si, 0, si) == (forall|k: int|
            si <= k < s.len() ==> s[k] != SLASH),
    decreases s.len() - si,
{
    if si < s.len() {
        lemma_pathname_star_rest(s, si + 1);
    }
}

/// With pathname rules, `*` matches a name exactly when the name holds
/// no `/`.
pub proof fn law_pathname_star_stops_at_slash(s: Seq<u8>)
    ensures
        glob_matches(seq![STAR], s, true) <==> !s.contains(SLASH),
{
    if s.len() > 0 {
        lemma_pathname_star_rest(s, 0);
    }
    if !glob_matches(seq![STAR], s, true) {
        let k = choose|k: int| 0 <= k < s.len() && s[k] == SLASH;
        assert(s[k] == SLASH);
    }
}

proof fn lemma_pathname_run_no_slash(p: Seq<u8>, s: Seq<u8>, pi: int, si: int, sp: int, ms: int)
    requires
        !p.contains(SLASH),
        !p.contains(STAR) || !p.contains(LBRACKET),
        glob_run(p, s, true, pi, si, sp, ms),
        forall|k: int| 0 <= k < si ==> s[k] != SLASH,
        sp >= 0 ==> sp < p.len() && p[sp] == STAR,
    ensures
        !s.contains(SLASH),
    decreases s.len() - ms, s.len() - si, p.len() - pi,
{
    if si == s.len() {
        if s.contains(SLASH) {
            let k = choose|k: int| 0 <= k < s.len() && s[k] == SLASH;
            assert(s[k] == SLASH);
        }
    } else if pi < p.len() && p[pi] == STAR {
        lemma_pathname_run_no_slash(p, s, pi + 1, si, pi, si);
    } else if pi < p.len() && ((p[pi] == QUESTION && !(s[si] == SLASH)) || p[pi] == s[si]) {
        if p[pi] == s[si] {
            assert(p[pi] != SLASH);
        }
        lemma_pathname_run_no_slash(p, s, pi + 1, si + 1, sp, ms);
    } else if pi < p.len() && p[pi] == LBRACKET {
        if !(s[si] == SLASH) && class_accepts(p, pi, s[si]) {
            lemma_pathname_run_no_slash(p, s, class_next(p, pi), si + 1, sp, ms);
        } else if sp >= 0 {
            assert(p[sp] == STAR && p[pi] == LBRACKET);
            assert(p.contains(STAR) && p.contains(LBRACKET));
        }
    } else if sp >= 0 {
        lemma_pathname_run_no_slash(p, s, sp + 1, ms + 1, sp, ms + 1);
    }
}

/// With pathname rules, a pattern without `/` matches only names without
/// `/`, unless it holds both a `*` and a class (after a failed class the
/// star takes the next byte, `/` included).
pub proof fn law_pathname_never_crosses_slash(p: Seq<u8>, s: Seq<u8>)
    requires
        !p.contains(SLASH),
        !p.contains(STAR) || !p.contains(LBRACKET),
        glob_matches(p, s, true),
    ensures
        !s.contains(SLASH),
{
    lemma_pathname_run_no_slash(p, s, 0, 0, -1, 0);
}

/// Prefixing a pattern with `!` inverts its outcome; for a pattern that
/// is not empty and not itself negated, the whole negated pattern gives the
/// opposite of the pattern.  The empty pattern matches nothing.
pub proof fn law_bang_inverts(p: Seq<u8>, s: Seq<u8>, pathname: bool)
    ensures
        glob_pattern_matches(seq![BANG] + p, s, pathname) == !glob_matches(p, s, pathname),
        p.len() > 0 && p[0] != BANG ==> glob_pattern_matches(seq![BANG] + p, s, pathname)
            == !glob_pattern_matches(p, s, pathname),
        !glob_pattern_matches(Seq::<u8>::empty(), s, pathname),
{
    assert((seq![BANG] + p).skip(1) =~= p);
}

/// A list of patterns selects a name exactly when the name is not empty,
/// some non-empty pattern without `!` matches it, and every non-empty
/// pattern with `!` matches it as [`match_glob`] reads it (its body does
/// not match); so the answer does not depend on the order of the patterns,
/// nor on repeats.
pub proof fn law_pattern_list_selects(ps: Seq<Seq<u8>>, qs: Seq<Seq<u8>>, name: Seq<u8>)
    requires
        forall|p: Seq<u8>| ps.contains(p) <==> qs.contains(p),
    ensures
        any_glob_selects(ps, name) == (name.len() > 0 && (exists|k: int|
            0 <= k < ps.len() && ps[k].len() > 0 && ps[k][0] != BANG && glob_pattern_matches(#[trigger] ps[k], name, false))
            && (forall|k: int|
            0 <= k < ps.len() && ps[k].len() > 0 && ps[k][0] == BANG ==> glob_pattern_matches(#[trigger] ps[k], name, false))),
        any_glob_selects(ps, name) == any_glob_selects(qs, name),
{
    assert forall|k: int| 0 <= k < ps.len() && ps[k].len() > 0 && ps[k][0] != BANG implies glob_pattern_matches(
        #[trigger] ps[k],
        name,
        false,
    ) == glob_matches(ps[k], name, false) by {}
    if any_glob_selects(ps, name) {
        let k = choose|k: int|
            0 <= k < ps.len() && ps[k].len() > 0 && ps[k][0] != BANG && glob_matches(ps[k], name, false);
        assert(qs.contains(ps[k]));
        let j = choose|j: int| 0 <= j < qs.len() && qs[j] == ps[k];
        assert(glob_matches(qs[j], name, false));
        assert forall|m: int| 0 <= m < qs.len() && qs[m].len() > 0 && qs[m][0] == BANG implies !glob_matches(
            #[trigger] qs[m].skip(1),
            name,
            false,
        ) by {
            assert(qs.contains(qs[m]));
            let n = choose|n: int| 0 <= n < ps.len() && ps[n] == qs[m];
            assert(!glob_matches(ps[n].skip(1), name, false));
        }
    }
    if any_glob_selects(qs, name) {
        let k = choose|k: int|
            0 <= k < qs.len() && qs[k].len() > 0 && qs[k][0] != BANG && glob_matches(qs[k], name, false);
        assert(ps.contains(qs[k]));
        let j = choose|j: int| 0 <= j < ps.len() && ps[j] == qs[k];
        assert(glob_matches(ps[j], name, false));
        assert forall|m: int| 0 <= m < ps.len() && ps[m].len() > 0 && ps[m][0] == BANG implies !glob_matches(
            #[trigger] ps[m].skip(1),
            name,
            false,
        ) by {
            assert(ps.contains(ps[m]));
            let n = choose|n: int| 0 <= n < qs.len() && qs[n] == ps[m];
            assert(!glob_matches(qs[n].skip(1), name, false));
        }
    }
    if name.len() > 0 && (exists|k: int|
        0 <= k < ps.len() && ps[k].len() > 0 && ps[k][0] != BANG && glob_pattern_matches(#[trigger] ps[k], name, false))
        && (forall|k: int|
        0 <= k < ps.len() && ps[k].len() > 0 && ps[k][0] == BANG ==> glob_pattern_matches(#[trigger] ps[k], name, false)) {
        let k = choose|k: int|
            0 <= k < ps.len() && ps[k].len() > 0 && ps[k][0] != BANG && glob_pattern_matches(#[trigger] ps[k], name, false);
        assert(glob_matches(ps[k], name, false));
        assert forall|m: int| 0 <= m < ps.len() && ps[m].len() > 0 && ps[m][0] == BANG implies !glob_matches(
            #[trigger] ps[m].skip(1),
            name,
            false,
        ) by {
            assert(glob_pattern_matches(ps[m], name, false));
        }
    }
}

} // verus!
