//! Shell command preparation: splitting a command line into sub-commands,
//! the approval policy, bounded capture of command output, and the mapping
//! of a finished process to an outcome.  Spawning the process is done by
//! the caller.
use vstd::prelude::*;
use vstd::string::StringSliceAdditionalSpecFns;
use crate::text::{chars_of, push_str, string_from_chars};

verus! {

/// How a command run ended.
#[derive(Debug, Clone, Copy, PartialEq, Eq, Structural)]
pub enum CommandError {
    Success,
    ApprovalDenied,
    ExecutionFailed,
    Timeout,
}

/// Once this many bytes of output (lines plus newlines) were captured,
/// further lines are dropped.
pub const MAX_FULL_OUTPUT_SIZE: usize = 1048576;
/// How long a command may run.
pub const DEFAULT_TIMEOUT_MS: u64 = 300000;
/// How many lines a [`CircularBuffer`] keeps.
pub const CIRCULAR_BUFFER_SIZE: usize = 2000;

// ---------------------------------------------------------------------
// Bounded line buffer
// ---------------------------------------------------------------------

/// Keeps the last [`CIRCULAR_BUFFER_SIZE`] lines pushed into it.
pub struct CircularBuffer {
    buffer: Vec<String>,
    head: usize,
    count: usize,
}

/// The lines of `lines` after dropping all but the last `CIRCULAR_BUFFER_SIZE`.
pub open spec fn keep_last(lines: Seq<Seq<char>>) -> Seq<Seq<char>> {
    if lines.len() <= CIRCULAR_BUFFER_SIZE {
        lines
    } else {
        lines.skip(lines.len() - CIRCULAR_BUFFER_SIZE)
    }
}

/// The concatenation of all lines, in order.
pub open spec fn concat_lines(lines: Seq<Seq<char>>) -> Seq<char>
    decreases lines.len(),
{
    if lines.len() == 0 {
        Seq::empty()
    } else {
        concat_lines(lines.drop_last()) + lines.last()
    }
}

/// The lines a new buffer holds after `ps` were pushed into it one by one
/// (each push keeps the last lines, see [`CircularBuffer::push`]).
pub open spec fn after_pushes(ps: Seq<Seq<char>>) -> Seq<Seq<char>>
    decreases ps.len(),
{
    if ps.len() == 0 {
        Seq::empty()
    } else {
        keep_last(after_pushes(ps.drop_last()).push(ps.last()))
    }
}

/// However many lines are pushed into a new buffer, it holds the last
/// [`CIRCULAR_BUFFER_SIZE`] of them (all of them when there are fewer),
/// oldest first.
pub proof fn law_buffer_after_pushes(ps: Seq<Seq<char>>)
    ensures
        after_pushes(ps) == keep_last(ps),
    decreases ps.len(),
{
    if ps.len() > 0 {
        law_buffer_after_pushes(ps.drop_last());
        law_buffer_keeps_last_lines(ps.drop_last(), ps.last());
        assert(ps.drop_last().push(ps.last()) =~= ps);
    }
}

impl CircularBuffer {
    /// The slot holding the `i`-th oldest retained line.
    pub closed spec fn slot(&self, i: int) -> int {
        (self.head + CIRCULAR_BUFFER_SIZE - self.count + i) % (CIRCULAR_BUFFER_SIZE as int)
    }

    /// The retained lines, oldest first.
    pub closed spec fn lines(&self) -> Seq<Seq<char>> {
        Seq::new(self.count as nat, |i: int| self.buffer@[self.slot(i)]@)
    }

    pub closed spec fn wf(&self) -> bool {
        &&& self.buffer@.len() == CIRCULAR_BUFFER_SIZE
        &&& self.head < CIRCULAR_BUFFER_SIZE
        &&& self.count <= CIRCULAR_BUFFER_SIZE
    }

    /// An empty buffer.
    pub fn new() -> (b: Self)
        ensures
            b.wf(),
            b.lines() == Seq::<Seq<char>>::empty(),
    {
        let mut buffer: Vec<String> = Vec::new();
        let mut i: usize = 0;
        while i < CIRCULAR_BUFFER_SIZE
            invariant
                i <= CIRCULAR_BUFFER_SIZE,
                buffer@.len() == i,
            decreases CIRCULAR_BUFFER_SIZE - i,
        {
            buffer.push(String::new());
            i += 1;
        }
        let b = CircularBuffer { buffer, head: 0, count: 0 };
        assert(b.lines() =~= Seq::<Seq<char>>::empty());
        b
    }

    /// Appends a line, dropping the oldest one when the buffer is full.
    pub fn push(&mut self, line: &str)
        requires
            old(self).wf(),
        ensures
            final(self).wf(),
            final(self).lines() == keep_last(old(self).lines().push(line@)),
    {
        let ghost before = self.lines();
        let head = self.head;
        let new_line = crate::text::string_of(line);
        self.buffer.set(head, new_line);
        self.head = (self.head + 1) % CIRCULAR_BUFFER_SIZE;
        if self.count < CIRCULAR_BUFFER_SIZE {
            self.count += 1;
        }
        let ghost after = self.lines();
        let ghost expected = keep_last(before.push(line@));
        assert(after.len() == expected.len());
        assert forall|i: int| 0 <= i < after.len() implies after[i] == expected[i] by {
            if old(self).count < CIRCULAR_BUFFER_SIZE {
                if i < before.len() {
                    assert(self.slot(i) == old(self).slot(i));
                    assert(self.slot(i) != head);
                } else {
                    assert(self.slot(i) == head);
                }
            } else {
                assert(expected[i] == before.push(line@)[i + 1]);
                if i + 1 < before.len() {
                    assert(self.slot(i) == old(self).slot(i + 1));
                    assert(self.slot(i) != head);
                } else {
                    assert(self.slot(i) == head);
                }
            }
        }
        assert(after =~= expected);
    }

    /// All retained lines joined together, oldest first.
    pub fn join(&self) -> (s: String)
        requires
            self.wf(),
        ensures
            s@ == concat_lines(self.lines()),
    {
        let ghost lines = self.lines();
        let mut result = String::new();
        let mut i: usize = 0;
        while i < self.count
            invariant
                self.wf(),
                lines == self.lines(),
                i <= self.count,
                result@ == concat_lines(lines.take(i as int)),
            decreases self.count - i,
        {
            let idx = (self.head + CIRCULAR_BUFFER_SIZE - self.count + i) % CIRCULAR_BUFFER_SIZE;
            assert(idx == self.slot(i as int));
            push_str(&mut result, self.buffer[idx].as_str());
            i += 1;
            assert(lines.take(i as int).drop_last() =~= lines.take(i - 1));
        }
        assert(lines.take(self.count as int) =~= lines);
        result
    }
}

// ---------------------------------------------------------------------
// Command-line splitting
// ---------------------------------------------------------------------

/// Spaces and tabs.
pub open spec fn is_blank(c: char) -> bool {
    c == ' ' || c == '\t'
}

/// `s` without leading spaces and tabs.
pub open spec fn trim_start_blank(s: Seq<char>) -> Seq<char>
    decreases s.len(),
{
    if s.len() > 0 && is_blank(s[0]) {
        trim_start_blank(s.drop_first())
    } else {
        s
    }
}

/// `s` without trailing spaces and tabs.
pub open spec fn trim_end_blank(s: Seq<char>) -> Seq<char>
    decreases s.len(),
{
    if s.len() > 0 && is_blank(s.last()) {
        trim_end_blank(s.drop_last())
    } else {
        s
    }
}

/// `s` without leading or trailing spaces and tabs.
pub open spec fn trim_blank(s: Seq<char>) -> Seq<char> {
    trim_end_blank(trim_start_blank(s))
}

proof fn lemma_trim_start_from(s: Seq<char>, a: int)
    requires
        0 <= a <= s.len(),
        forall|k: int| 0 <= k < a ==> is_blank(s[k]),
        a == s.len() || !is_blank(s[a]),
    ensures
        trim_start_blank(s) == s.skip(a),
    decreases a,
{
    if a > 0 {
        lemma_trim_start_from(s.drop_first(), a - 1);
        assert(s.drop_first().skip(a - 1) =~= s.skip(a));
    } else {
        assert(s.skip(0) =~= s);
    }
}

proof fn lemma_trim_end_to(s: Seq<char>, b: int)
    requires
        0 <= b <= s.len(),
        forall|k: int| b <= k < s.len() ==> is_blank(s[k]),
        b == 0 || !is_blank(s[b - 1]),
    ensures
        trim_end_blank(s) == s.take(b),
    decreases s.len() - b,
{
    if b < s.len() {
        lemma_trim_end_to(s.drop_last(), b);
        assert(s.drop_last().take(b) =~= s.take(b));
    } else {
        assert(s.take(b) =~= s);
    }
}

/// Bounds of `chars` without blanks at either end.
fn blank_trim_bounds(chars: &Vec<char>) -> (r: (usize, usize))
    ensures
        r.0 <= r.1 <= chars@.len(),
        chars@.subrange(r.0 as int, r.1 as int) == trim_blank(chars@),
{
    let n = chars.len();
    let mut a: usize = 0;
    while a < n && (chars[a] == ' ' || chars[a] == '\t')
        invariant
            a <= n == chars@.len(),
            forall|k: int| 0 <= k < a ==> is_blank(chars@[k]),
        decreases n - a,
    {
        a += 1;
    }
    let mut b: usize = n;
    while b > a && (chars[b - 1] == ' ' || chars[b - 1] == '\t')
        invariant
            a <= b <= n == chars@.len(),
            forall|k: int| b <= k < n ==> is_blank(chars@[k]),
        decreases b,
    {
        b -= 1;
    }
    proof {
        lemma_trim_start_from(chars@, a as int);
        let t = chars@.skip(a as int);
        lemma_trim_end_to(t, (b - a) as int);
        assert(t.take((b - a) as int) =~= chars@.subrange(a as int, b as int));
    }
    (a, b)
}

/// `s` without leading or trailing spaces and tabs.
pub fn trim_whitespace(s: &str) -> (r: String)
    ensures
        r@ == trim_blank(s@),
{
    let chars = chars_of(s);
    let (a, b) = blank_trim_bounds(&chars);
    string_from_chars(&chars, a, b)
}

/// The bytes that separate sub-commands: `&`, `|` and `;` (the pairs `&&`,
/// `&|` and `||` are two separators in a row).
pub open spec fn is_command_separator(c: char) -> bool {
    c == '&' || c == '|' || c == ';'
}

/// The index of the first separator in `s`, or its length.
pub open spec fn first_separator(s: Seq<char>) -> int
    decreases s.len(),
{
    if s.len() == 0 {
        0
    } else if is_command_separator(s[0]) {
        0
    } else {
        1 + first_separator(s.drop_first())
    }
}

/// The non-empty pieces of `s` between separators, in order.
pub open spec fn command_pieces(s: Seq<char>) -> Seq<Seq<char>>
    decreases s.len(),
{
    if s.len() == 0 {
        Seq::empty()
    } else {
        let k = first_separator(s);
        proof {
            lemma_first_separator_bounds(s);
        }
        let rest = if k < s.len() {
            command_pieces(s.skip(k + 1))
        } else {
            Seq::empty()
        };
        if k > 0 {
            seq![s.take(k)] + rest
        } else {
            rest
        }
    }
}

proof fn lemma_first_separator(s: Seq<char>, k: int)
    requires
        0 <= k <= s.len(),
        forall|j: int| 0 <= j < k ==> !is_command_separator(s[j]),
        k == s.len() || is_command_separator(s[k]),
    ensures
        first_separator(s) == k,
    decreases k,
{
    if k > 0 {
        lemma_first_separator(s.drop_first(), k - 1);
    }
}

/// The first separator lies within the string.
pub proof fn lemma_first_separator_bounds(s: Seq<char>)
    ensures
        0 <= first_separator(s) <= s.len(),
    decreases s.len(),
{
    if s.len() > 0 && !is_command_separator(s[0]) {
        lemma_first_separator_bounds(s.drop_first());
    }
}

/// Splits a command line at `&&`, `&|`, `||`, `&`, `|` and `;`, keeping
/// the non-empty pieces in order (pieces are not trimmed).
pub fn split_commands(command: &str) -> (r: Vec<String>)
    ensures
        r.deep_view() == command_pieces(command@),
{
    let cmd = chars_of(command);
    let ghost s = cmd@;
    let mut result: Vec<String> = Vec::new();
    if cmd.len() == 0 {
        assert(result.deep_view() =~= command_pieces(s));
        return result;
    }
    let len = cmd.len();
    let mut start: usize = 0;
    let mut i: usize = 0;
    assert(s.skip(0) =~= s);
    assert(result.deep_view() + command_pieces(s) =~= command_pieces(s));
    while i < len
        invariant
            len == s.len(),
            cmd@ == s,
            start <= i <= len,
            forall|j: int| start <= j < i ==> !is_command_separator(s[j]),
            result.deep_view() + command_pieces(s.skip(start as int)) == command_pieces(s),
        decreases len - i,
    {
        let mut sep_len: usize = 0;
        if len - i > 1 {
            let c0 = cmd[i];
            let c1 = cmd[i + 1];
            if (c0 == '&' && c1 == '&') || (c0 == '&' && c1 == '|') || (c0 == '|' && c1 == '|') {
                sep_len = 2;
            }
        }
        if sep_len == 0 && (cmd[i] == '&' || cmd[i] == '|' || cmd[i] == ';') {
            sep_len = 1;
        }
        if sep_len > 0 {
            let ghost tail = s.skip(start as int);
            let ghost k = (i - start) as int;
            proof {
                lemma_first_separator(tail, k);
                assert(tail.skip(k + 1) =~= s.skip(i + 1));
                assert(tail.take(k) =~= s.subrange(start as int, i as int));
                assert(command_pieces(tail) == (if k > 0 {
                    seq![tail.take(k)]
                } else {
                    Seq::empty()
                }) + command_pieces(s.skip(i + 1)));
            }
            let ghost old_result = result.deep_view();
            if i - start > 0 {
                let piece = string_from_chars(&cmd, start, i);
                result.push(piece);
                assert(result.deep_view() =~= old_result.push(s.subrange(start as int, i as int)));
                assert(result.deep_view() + command_pieces(s.skip(i + 1)) =~= old_result
                    + command_pieces(tail));
            } else {
                assert(old_result + command_pieces(s.skip(i + 1)) =~= old_result + command_pieces(
                    tail,
                ));
            }
            if sep_len == 2 {
                // the second byte of the pair separates an empty piece
                let ghost t2 = s.skip(i + 1);
                proof {
                    lemma_first_separator(t2, 0);
                    assert(t2.skip(1) =~= s.skip(i + 2));
                    assert(command_pieces(t2) == command_pieces(s.skip(i + 2)));
                }
            }
            i += sep_len;
            start = i;
        } else {
            i += 1;
        }
    }
    let ghost tail = s.skip(start as int);
    proof {
        lemma_first_separator(tail, (len - start) as int);
        assert(tail.take((len - start) as int) =~= s.subrange(start as int, len as int));
    }
    let ghost old_result = result.deep_view();
    if i - start > 0 {
        let piece = string_from_chars(&cmd, start, i);
        result.push(piece);
        assert(result.deep_view() =~= old_result.push(s.subrange(start as int, i as int)));
        assert(old_result + command_pieces(tail) =~= result.deep_view());
    } else {
        assert(tail.len() == 0);
        assert(old_result + command_pieces(tail) =~= result.deep_view());
    }
    result
}

/// Every command needs the user's approval.
pub fn requires_approval(_command: &str) -> (r: bool)
    ensures
        r,
{
    true
}

// ---------------------------------------------------------------------
// Running a command: the decisions around the process
// ---------------------------------------------------------------------

/// The verdict on a command before it is run: a blank command cannot run;
/// a blocked sub-command is refused only when it does not need approval
/// (which never happens, since every command needs approval); otherwise
/// the command may run.
pub open spec fn precheck_outcome(command: Seq<char>, blacklist: Seq<Seq<char>>) -> CommandError {
    if trim_blank(command).len() == 0 {
        CommandError::ExecutionFailed
    } else {
        CommandError::Success
    }
}

/// Decides whether `command` may be handed to a shell; `Success` means it may.
pub fn precheck_command(command: &str, blacklist: &[&str]) -> (r: CommandError)
    ensures
        r == precheck_outcome(command@, blacklist@.map_values(|b: &str| b@)),
{
    let trimmed = trim_whitespace(command);
    if trimmed.as_str().unicode_len() == 0 {
        return CommandError::ExecutionFailed;
    }
    let sub_commands = split_commands(trimmed.as_str());
    let mut k: usize = 0;
    while k < sub_commands.len()
        invariant
            k <= sub_commands@.len(),
        decreases sub_commands@.len() - k,
    {
        let sub_trimmed = trim_whitespace(sub_commands[k].as_str());
        if sub_trimmed.as_str().unicode_len() > 0 {
            let mut j: usize = 0;
            while j < blacklist.len()
                invariant
                    j <= blacklist@.len(),
                decreases blacklist@.len() - j,
            {
                if sub_trimmed == crate::text::string_of(blacklist[j]) {
                    if !requires_approval(sub_trimmed.as_str()) {
                        return CommandError::ApprovalDenied;
                    }
                    break;
                }
                j += 1;
            }
        }
        k += 1;
    }
    CommandError::Success
}

/// How a finished (or killed) process is reported.
pub open spec fn outcome_spec(timed_out: bool, exit_code: i32) -> CommandError {
    if timed_out {
        CommandError::Timeout
    } else if exit_code != 0 {
        CommandError::ExecutionFailed
    } else {
        CommandError::Success
    }
}

/// A process that ran out of time is reported as timed out, whatever its
/// exit code; one that finished in time succeeded exactly when its exit
/// code is 0, and any other exit code (positive or negative) is a failure.
pub proof fn law_outcome_by_exit_code(timed_out: bool, exit_code: i32)
    ensures
        timed_out ==> outcome_spec(timed_out, exit_code) == CommandError::Timeout,
        !timed_out ==> (outcome_spec(timed_out, exit_code) == CommandError::Success <==> exit_code == 0),
        !timed_out && exit_code != 0 ==> outcome_spec(timed_out, exit_code) == CommandError::ExecutionFailed,
        outcome_spec(timed_out, exit_code) != CommandError::ApprovalDenied,
{
}

/// The outcome of a process that ran: a timeout wins, then a non-zero exit.
pub fn command_outcome(timed_out: bool, exit_code: i32) -> (r: CommandError)
    ensures
        r == outcome_spec(timed_out, exit_code),
        timed_out ==> r == CommandError::Timeout,
        !timed_out && exit_code != 0 ==> r == CommandError::ExecutionFailed,
        !timed_out && exit_code == 0 ==> r == CommandError::Success,
{
    if timed_out {
        CommandError::Timeout
    } else if exit_code != 0 {
        CommandError::ExecutionFailed
    } else {
        CommandError::Success
    }
}

/// Captures the lines of one output stream: lines are kept while fewer
/// than [`MAX_FULL_OUTPUT_SIZE`] bytes (counting one newline per line)
/// were taken, and the buffer keeps the last lines only.
pub struct OutputCollector {
    lines: CircularBuffer,
    total: usize,
}

impl OutputCollector {
    pub closed spec fn wf(&self) -> bool {
        self.lines.wf()
    }

    /// The retained lines.
    pub closed spec fn kept(&self) -> Seq<Seq<char>> {
        self.lines.lines()
    }

    /// The bytes counted so far (wrapping around at the largest `usize`).
    pub closed spec fn counted(&self) -> usize {
        self.total
    }

    /// A collector that has seen nothing.
    pub fn new() -> (c: Self)
        ensures
            c.wf(),
            c.kept() == Seq::<Seq<char>>::empty(),
            c.counted() == 0,
    {
        OutputCollector { lines: CircularBuffer::new(), total: 0 }
    }

    /// Offers one line (without its newline) read from the stream.
    pub fn accept_line(&mut self, line: &str)
        requires
            old(self).wf(),
        ensures
            final(self).wf(),
            old(self).counted() < MAX_FULL_OUTPUT_SIZE ==> {
                &&& final(self).kept() == keep_last(old(self).kept().push(line@))
                &&& final(self).counted() == vstd::wrapping::usize_specs::wrapping_add(
                    vstd::wrapping::usize_specs::wrapping_add(
                        old(self).counted(),
                        line.spec_bytes().len() as usize,
                    ),
                    1,
                )
            },
            old(self).counted() >= MAX_FULL_OUTPUT_SIZE ==> *final(self) == *old(self),
    {
        if self.total < MAX_FULL_OUTPUT_SIZE {
            self.lines.push(line);
            let n = line.len();
            self.total = self.total.wrapping_add(n).wrapping_add(1);
        }
    }

    /// The captured text: the retained lines joined without separators.
    pub fn text(&self) -> (s: String)
        requires
            self.wf(),
        ensures
            s@ == concat_lines(self.kept()),
    {
        self.lines.join()
    }
}


// ---------------------------------------------------------------------
// Laws
// ---------------------------------------------------------------------

/// Pushing onto a buffer that already dropped old lines keeps the same
/// lines as pushing onto the full history: a buffer filled by any series
/// of pushes holds the last [`CIRCULAR_BUFFER_SIZE`] lines of the series.
pub proof fn law_buffer_keeps_last_lines(history: Seq<Seq<char>>, line: Seq<char>)
    ensures
        keep_last(keep_last(history).push(line)) == keep_last(history.push(line)),
{
    if history.len() > CIRCULAR_BUFFER_SIZE {
        assert(keep_last(keep_last(history).push(line)) =~= keep_last(history.push(line)));
    }
}

/// Every piece produced by the splitter is non-empty and holds no
/// separator character.
pub proof fn law_pieces_are_nonempty_and_separator_free(s: Seq<char>)
    ensures
        forall|k: int|
            0 <= k < command_pieces(s).len() ==> #[trigger] command_pieces(s)[k].len() > 0
                && forall|j: int|
                0 <= j < command_pieces(s)[k].len() ==> !is_command_separator(
                    command_pieces(s)[k][j],
                ),
    decreases s.len(),
{
    if s.len() > 0 {
        let k = first_separator(s);
        lemma_first_separator_bounds(s);
        lemma_no_separator_before_first(s);
        let rest = if k < s.len() {
            command_pieces(s.skip(k + 1))
        } else {
            Seq::empty()
        };
        if k < s.len() {
            law_pieces_are_nonempty_and_separator_free(s.skip(k + 1));
        }
        let ps = command_pieces(s);
        assert forall|m: int| 0 <= m < ps.len() implies #[trigger] ps[m].len() > 0 && forall|
            j: int,
        |
            0 <= j < ps[m].len() ==> !is_command_separator(ps[m][j]) by {
            if k > 0 {
                if m == 0 {
                    assert(ps[m] == s.take(k));
                } else {
                    assert(ps[m] == rest[m - 1]);
                }
            } else {
                assert(ps[m] == rest[m]);
            }
        }
    }
}

proof fn lemma_no_separator_before_first(s: Seq<char>)
    ensures
        forall|j: int| 0 <= j < first_separator(s) ==> !is_command_separator(s[j]),
    decreases s.len(),
{
    if s.len() > 0 && !is_command_separator(s[0]) {
        lemma_no_separator_before_first(s.drop_first());
        lemma_first_separator_bounds(s.drop_first());
        assert forall|j: int| 0 <= j < first_separator(s) implies !is_command_separator(
            s[j],
        ) by {
            if j > 0 {
                assert(s[j] == s.drop_first()[j - 1]);
            }
        }
    }
}

} // verus!
