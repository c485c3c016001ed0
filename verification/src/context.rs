//! Context lines gathered around a search match.
use vstd::prelude::*;
use crate::text::string_of;

verus! {

/// Lines before and after a match, each side bounded by a capacity.
pub struct Context {
    lines_before: Vec<String>,
    lines_after: Vec<String>,
    before_count: usize,
    after_count: usize,
    before_max: usize,
    after_max: usize,
}

/// A vector of `n` empty strings.
fn empty_lines(n: usize) -> (v: Vec<String>)
    ensures
        v@.len() == n,
        forall|i: int| 0 <= i < n ==> (#[trigger] v@[i])@ == Seq::<char>::empty(),
{
    let mut v: Vec<String> = Vec::new();
    let mut i: usize = 0;
    while i < n
        invariant
            i <= n,
            v@.len() == i,
            forall|k: int| 0 <= k < i ==> (#[trigger] v@[k])@ == Seq::<char>::empty(),
        decreases n - i,
    {
        v.push(String::new());
        i += 1;
    }
    v
}

impl Context {
    pub closed spec fn wf(&self) -> bool {
        &&& self.lines_before@.len() == self.before_max
        &&& self.lines_after@.len() == self.after_max
        &&& self.before_count <= self.before_max
        &&& self.after_count <= self.after_max
    }

    /// The lines kept before the match.
    pub closed spec fn before(&self) -> Seq<Seq<char>> {
        self.lines_before@.take(self.before_count as int).map_values(|s: String| s@)
    }

    /// The lines kept after the match.
    pub closed spec fn after(&self) -> Seq<Seq<char>> {
        self.lines_after@.take(self.after_count as int).map_values(|s: String| s@)
    }

    /// How many lines may be kept before the match.
    pub closed spec fn before_capacity(&self) -> nat {
        self.before_max as nat
    }

    /// How many lines may be kept after the match.
    pub closed spec fn after_capacity(&self) -> nat {
        self.after_max as nat
    }

    /// The shared default context: five lines on either side, nothing kept.
    pub fn global() -> (c: Context)
        ensures
            c.wf(),
            c.before_capacity() == 5,
            c.after_capacity() == 5,
            c.before() == Seq::<Seq<char>>::empty(),
            c.after() == Seq::<Seq<char>>::empty(),
    {
        Context::new(5, 5)
    }

    /// An empty context with the given capacities.
    pub fn new(before: usize, after: usize) -> (c: Self)
        ensures
            c.wf(),
            c.before_capacity() == before,
            c.after_capacity() == after,
            c.before() == Seq::<Seq<char>>::empty(),
            c.after() == Seq::<Seq<char>>::empty(),
    {
        let c = Context {
            lines_before: empty_lines(before),
            lines_after: empty_lines(after),
            before_count: 0,
            after_count: 0,
            before_max: before,
            after_max: after,
        };
        assert(c.before() =~= Seq::<Seq<char>>::empty());
        assert(c.after() =~= Seq::<Seq<char>>::empty());
        c
    }

    /// Keeps `line` after the match while there is room; otherwise nothing
    /// changes.
    pub fn add_line(&mut self, line: &str)
        requires
            old(self).wf(),
        ensures
            final(self).wf(),
            final(self).before() == old(self).before(),
            final(self).before_capacity() == old(self).before_capacity(),
            final(self).after_capacity() == old(self).after_capacity(),
            final(self).after() == if old(self).after().len() < old(self).after_capacity() {
                old(self).after().push(line@)
            } else {
                old(self).after()
            },
    {
        let ghost before_after = self.after();
        if self.after_max > 0 && self.after_count < self.after_max {
            let idx = self.after_count;
            self.lines_after.set(idx, string_of(line));
            self.after_count += 1;
            assert(self.after() =~= before_after.push(line@));
        }
    }

    /// Forgets all kept lines; the capacities stay.
    pub fn clear(&mut self)
        requires
            old(self).wf(),
        ensures
            final(self).wf(),
            final(self).before() == Seq::<Seq<char>>::empty(),
            final(self).after() == Seq::<Seq<char>>::empty(),
            final(self).before_capacity() == old(self).before_capacity(),
            final(self).after_capacity() == old(self).after_capacity(),
    {
        if self.before_max > 0 {
            self.lines_before = empty_lines(self.before_max);
            self.before_count = 0;
        }
        if self.after_max > 0 {
            self.lines_after = empty_lines(self.after_max);
            self.after_count = 0;
        }
        assert(self.before() =~= Seq::<Seq<char>>::empty());
        assert(self.after() =~= Seq::<Seq<char>>::empty());
    }

    /// The lines kept before the match, oldest first.
    pub fn lines_before(&self) -> (r: &[String])
        requires
            self.wf(),
        ensures
            r@.map_values(|s: String| s@) == self.before(),
    {
        let all = self.lines_before.as_slice();
        let r = &all[0..self.before_count];
        assert(r@.map_values(|s: String| s@) =~= self.before());
        r
    }

    /// The lines kept after the match, oldest first.
    pub fn lines_after(&self) -> (r: &[String])
        requires
            self.wf(),
        ensures
            r@.map_values(|s: String| s@) == self.after(),
    {
        let all = self.lines_after.as_slice();
        let r = &all[0..self.after_count];
        assert(r@.map_values(|s: String| s@) =~= self.after());
        r
    }
}

} // verus!
