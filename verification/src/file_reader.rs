//! Reading a range of lines from a file's content, numbered for display,
//! with a small cache that notices when the same unchanged file is read
//! again.  Reading the file, its modification time and the ignore rules are
//! the caller's part; everything decided from them is here.
use vstd::prelude::*;
use vstd::string::StringSliceAdditionalSpecFns;
use crate::formatter::{bytes_as_chars, first_lf, LF};
use crate::ignore_rules::{check_ignore_path, path_ignored, pattern_texts, IgnoreRules};
use crate::pathutils::{resolve_workspace_path, workspace_path};
use crate::search::count_newline_bytes;
use crate::text::{decimal_int, push_char, push_decimal_i64, push_str, string_of};

verus! {

pub const CACHE_SIZE: usize = 256;
pub const DEFAULT_MAX_LINES: i32 = 1000;

/// How reading a file ended.
#[derive(Debug, Clone, Copy, PartialEq, Eq, Structural)]
pub enum FileReaderError {
    Success,
    NullPath,
    FileNotFound,
    PermissionDenied,
    ReadFailed,
}

/// The lines shown and the size of the file.
#[derive(Debug, Clone, Copy, PartialEq, Eq, Structural)]
pub struct LineRange {
    pub start_line: i32,
    pub end_line: i32,
    pub total_lines: i32,
    pub truncated: i32,
}

/// The outcome of reading a range of lines.
#[derive(Debug, Clone)]
pub struct FileReaderResult {
    pub content: String,
    pub range: LineRange,
    pub error: FileReaderError,
    pub error_message: String,
}

/// Why reading a file's content failed.
#[derive(Debug, Clone, Copy, PartialEq, Eq, Structural)]
pub enum ReadFailure {
    NotFound,
    PermissionDenied,
    Other,
}

// ---------------------------------------------------------------------
// The read cache
// ---------------------------------------------------------------------

/// One cache slot: the file it is about, how often it was read, and the
/// file's modification time (nanoseconds from the Unix epoch) when cached.
#[derive(Debug)]
pub struct FileCacheEntry {
    pub key: String,
    pub read_count: u32,
    pub mtime: i128,
}

/// A fixed table of [`CACHE_SIZE`] slots, indexed by a hash of the path.
pub struct FileCache {
    entries: Vec<FileCacheEntry>,
}

/// A character with ASCII upper case letters lowered.
pub open spec fn ascii_lower(c: char) -> u64 {
    if 'A' <= c && c <= 'Z' {
        (c as u64 + 32) as u64
    } else {
        c as u64
    }
}

/// The path hash: `h = h * 31 + lower(c)` over the characters, wrapping
/// at 64 bits.
pub open spec fn path_hash(s: Seq<char>) -> u64
    decreases s.len(),
{
    if s.len() == 0 {
        0
    } else {
        vstd::wrapping::u64_specs::wrapping_add(
            vstd::wrapping::u64_specs::wrapping_mul(path_hash(s.drop_last()), 31),
            ascii_lower(s.last()),
        )
    }
}

/// The slot of a path.
pub open spec fn slot_of(s: Seq<char>) -> int {
    (path_hash(s) % (CACHE_SIZE as u64)) as int
}

/// The hash slot of `path`.
fn cache_hash(path: &str) -> (r: usize)
    ensures
        r == slot_of(path@),
        r < CACHE_SIZE,
{
    let chars = crate::text::chars_of(path);
    let mut h: u64 = 0;
    let mut i: usize = 0;
    while i < chars.len()
        invariant
            i <= chars@.len(),
            chars@ == path@,
            h == path_hash(chars@.take(i as int)),
        decreases chars@.len() - i,
    {
        let c = chars[i];
        let lower: u64 = if 'A' <= c && c <= 'Z' {
            (c as u64) + 32
        } else {
            c as u64
        };
        h = h.wrapping_mul(31).wrapping_add(lower);
        i += 1;
        assert(chars@.take(i as int).drop_last() =~= chars@.take(i - 1));
    }
    assert(chars@.take(chars@.len() as int) =~= path@);
    (h % 256) as usize
}

impl FileCache {
    pub closed spec fn wf(&self) -> bool {
        self.entries@.len() == CACHE_SIZE
    }

    /// The key of slot `i`.
    pub closed spec fn key_at(&self, i: int) -> Seq<char> {
        self.entries@[i].key@
    }

    /// The read count of slot `i`.
    pub closed spec fn count_at(&self, i: int) -> u32 {
        self.entries@[i].read_count
    }

    /// The recorded modification time of slot `i`.
    pub closed spec fn mtime_at(&self, i: int) -> i128 {
        self.entries@[i].mtime
    }

    /// A cache with every slot empty.
    pub fn new() -> (c: Self)
        ensures
            c.wf(),
            forall|i: int| 0 <= i < CACHE_SIZE ==> #[trigger] c.count_at(i) == 0 && c.key_at(i)
                == Seq::<char>::empty() && c.mtime_at(i) == 0,
    {
        let mut entries: Vec<FileCacheEntry> = Vec::new();
        let mut i: usize = 0;
        while i < CACHE_SIZE
            invariant
                i <= CACHE_SIZE,
                entries@.len() == i,
                forall|k: int|
                    0 <= k < i ==> (#[trigger] entries@[k]).read_count == 0 && entries@[k].key@
                        == Seq::<char>::empty() && entries@[k].mtime == 0,
            decreases CACHE_SIZE - i,
        {
            entries.push(FileCacheEntry { key: String::new(), read_count: 0, mtime: 0 });
            i += 1;
        }
        FileCache { entries }
    }
}

/// What the cache holds for `path`: its read count and time, when the
/// path's slot holds this path with a non-zero count.
pub open spec fn cached(c: FileCache, path: Seq<char>) -> Option<(u32, i128)> {
    let i = slot_of(path);
    if c.count_at(i) > 0 && c.key_at(i) == path {
        Some((c.count_at(i), c.mtime_at(i)))
    } else {
        None
    }
}

/// Looks `absolute_path` up.
pub fn cache_get(cache: &FileCache, absolute_path: &str) -> (r: Option<(u32, i128)>)
    requires
        cache.wf(),
    ensures
        r == cached(*cache, absolute_path@),
{
    let idx = cache_hash(absolute_path);
    let entry = &cache.entries[idx];
    if entry.read_count > 0 && entry.key == string_of(absolute_path) {
        Some((entry.read_count, entry.mtime))
    } else {
        None
    }
}

/// Records `absolute_path` with a read count and time in its slot
/// (replacing whatever was there).
pub fn cache_set(cache: &mut FileCache, absolute_path: &str, mtime: i128, read_count: u32)
    requires
        old(cache).wf(),
    ensures
        final(cache).wf(),
        final(cache).key_at(slot_of(absolute_path@)) == absolute_path@,
        final(cache).count_at(slot_of(absolute_path@)) == read_count,
        final(cache).mtime_at(slot_of(absolute_path@)) == mtime,
        forall|i: int|
            0 <= i < CACHE_SIZE && i != slot_of(absolute_path@) ==> #[trigger] final(cache).key_at(i)
                == old(cache).key_at(i) && final(cache).count_at(i) == old(cache).count_at(i)
                && final(cache).mtime_at(i) == old(cache).mtime_at(i),
{
    let idx = cache_hash(absolute_path);
    cache.entries.set(idx, FileCacheEntry { key: string_of(absolute_path), read_count, mtime });
}

/// Counts one more read of `absolute_path` when it is cached and returns
/// the new count; returns 0 (and changes nothing) otherwise.  The count
/// wraps around at `u32::MAX`.
pub fn cache_increment(cache: &mut FileCache, absolute_path: &str) -> (r: u32)
    requires
        old(cache).wf(),
    ensures
        final(cache).wf(),
        match cached(*old(cache), absolute_path@) {
            Some((n, m)) => {
                &&& r == vstd::wrapping::u32_specs::wrapping_add(n, 1)
                &&& final(cache).count_at(slot_of(absolute_path@)) == r
                &&& final(cache).key_at(slot_of(absolute_path@)) == absolute_path@
                &&& final(cache).mtime_at(slot_of(absolute_path@)) == m
            },
            None => r == 0 && final(cache).count_at(slot_of(absolute_path@)) == old(cache).count_at(
                slot_of(absolute_path@),
            ) && final(cache).key_at(slot_of(absolute_path@)) == old(cache).key_at(
                slot_of(absolute_path@),
            ) && final(cache).mtime_at(slot_of(absolute_path@)) == old(cache).mtime_at(
                slot_of(absolute_path@),
            ),
        },
        forall|i: int|
            0 <= i < CACHE_SIZE && i != slot_of(absolute_path@) ==> #[trigger] final(cache).key_at(i)
                == old(cache).key_at(i) && final(cache).count_at(i) == old(cache).count_at(i)
                && final(cache).mtime_at(i) == old(cache).mtime_at(i),
{
    let idx = cache_hash(absolute_path);
    if cache.entries[idx].read_count > 0 && cache.entries[idx].key == string_of(absolute_path) {
        let n = cache.entries[idx].read_count.wrapping_add(1);
        let key = string_of(absolute_path);
        let mtime = cache.entries[idx].mtime;
        cache.entries.set(idx, FileCacheEntry { key, read_count: n, mtime });
        n
    } else {
        0
    }
}

/// Forgets the reads of `absolute_path` (its slot's count drops to 0 when
/// the slot holds this path).
pub fn cache_invalidate(cache: &mut FileCache, absolute_path: &str)
    requires
        old(cache).wf(),
    ensures
        final(cache).wf(),
        cached(*final(cache), absolute_path@) is None,
        old(cache).key_at(slot_of(absolute_path@)) != absolute_path@ ==> *final(cache) == *old(
            cache,
        ),
        forall|i: int|
            0 <= i < CACHE_SIZE && i != slot_of(absolute_path@) ==> #[trigger] final(cache).key_at(i)
                == old(cache).key_at(i) && final(cache).count_at(i) == old(cache).count_at(i)
                && final(cache).mtime_at(i) == old(cache).mtime_at(i),
{
    let idx = cache_hash(absolute_path);
    if cache.entries[idx].key == string_of(absolute_path) {
        let key = string_of(absolute_path);
        let mtime = cache.entries[idx].mtime;
        cache.entries.set(idx, FileCacheEntry { key, read_count: 0, mtime });
    }
}

// ---------------------------------------------------------------------
// Line ranges and numbered output
// ---------------------------------------------------------------------

proof fn lemma_count_prefix(b: Seq<u8>, i: int)
    requires
        0 <= i <= b.len(),
    ensures
        count_newline_bytes(b.take(i)) <= count_newline_bytes(b),
    decreases b.len(),
{
    if i < b.len() {
        assert(b.drop_last().take(i) =~= b.take(i));
        lemma_count_prefix(b.drop_last(), i);
    } else {
        assert(b.take(i) =~= b);
    }
}

/// The number of `\n` in `content`.
fn count_lines(content: &str) -> (r: i32)
    requires
        count_newline_bytes(content.spec_bytes()) <= i32::MAX,
    ensures
        r == count_newline_bytes(content.spec_bytes()),
        0 <= r <= content.spec_bytes().len(),
{
    let bytes = content.as_bytes();
    let mut count: i32 = 0;
    let mut i: usize = 0;
    while i < bytes.len()
        invariant
            i <= bytes@.len(),
            count_newline_bytes(bytes@) <= i32::MAX,
            count == count_newline_bytes(bytes@.take(i as int)),
            count <= i,
        decreases bytes@.len() - i,
    {
        assert(bytes@.take(i + 1).drop_last() =~= bytes@.take(i as int));
        proof {
            lemma_count_prefix(bytes@, i + 1);
        }
        if bytes[i] == LF {
            count += 1;
        }
        i += 1;
    }
    assert(bytes@.take(bytes@.len() as int) =~= bytes@);
    count
}

/// The requested range: a non-positive start means line 1; a non-positive
/// end means [`DEFAULT_MAX_LINES`] lines from the start; a given end before
/// the start swaps the two.
pub open spec fn line_range_spec(requested_start: i32, requested_end: i32) -> (int, int) {
    let s = if requested_start > 0 {
        requested_start as int
    } else {
        1
    };
    let e = if requested_end > 0 {
        requested_end as int
    } else {
        s + DEFAULT_MAX_LINES - 1
    };
    if requested_end > 0 && e < s {
        (e, s)
    } else {
        (s, e)
    }
}

/// Whether computing the default end of a range fits in an `i32`.
pub open spec fn range_request_ok(requested_start: i32, requested_end: i32) -> bool {
    requested_end > 0 || requested_start <= i32::MAX - DEFAULT_MAX_LINES
}

fn parse_line_range(requested_start: i32, requested_end: i32) -> (r: LineRange)
    requires
        range_request_ok(requested_start, requested_end),
    ensures
        (r.start_line as int, r.end_line as int) == line_range_spec(requested_start, requested_end),
        r.total_lines == 0,
        r.truncated == 0,
        1 <= r.start_line <= r.end_line,
{
    let start_line = if requested_start > 0 {
        requested_start
    } else {
        1
    };
    let end_line = if requested_end > 0 {
        requested_end
    } else {
        start_line + DEFAULT_MAX_LINES - 1
    };
    let (start_line, end_line) = if requested_end > 0 && end_line < start_line {
        (end_line, start_line)
    } else {
        (start_line, end_line)
    };
    LineRange { start_line, end_line, total_lines: 0, truncated: 0 }
}

/// The position just after the `n`-th newline of `b` (0 for `n <= 0`, the
/// end when `b` has fewer newlines).
pub open spec fn pos_after_lines(b: Seq<u8>, n: int) -> int
    decreases n,
{
    if n <= 0 {
        0
    } else {
        let p = pos_after_lines(b, n - 1);
        if 0 <= p < b.len() {
            let k = first_lf(b.skip(p));
            if p + k < b.len() {
                p + k + 1
            } else {
                b.len() as int
            }
        } else {
            b.len() as int
        }
    }
}

/// The lines of `region`, each as `"<number> | <text>"`, numbered from `n`
/// and separated by newlines.
pub open spec fn numbered_lines(region: Seq<u8>, n: int) -> Seq<char>
    decreases region.len(),
{
    if region.len() == 0 {
        Seq::empty()
    } else {
        let k = first_lf(region);
        let head = decimal_int(n) + " | "@ + bytes_as_chars(region.take(k));
        if 0 <= k < region.len() {
            head + seq!['\n'] + numbered_lines(region.skip(k + 1), n + 1)
        } else {
            head
        }
    }
}

/// The bytes shown for lines `start..=end` of `b`: from the start of line
/// `start` to the end of line `end`, without the final newline.
pub open spec fn shown_region(b: Seq<u8>, start: int, end: int) -> Seq<u8> {
    let p = pos_after_lines(b, start - 1);
    let q = pos_after_lines(b, end);
    let q2 = if q > p && b[q - 1] == LF {
        q - 1
    } else {
        q
    };
    b.subrange(p, q2)
}

/// The note after the numbered lines.
pub open spec fn range_footer(start: int, end: int, total: int) -> Seq<char> {
    if end < total {
        "(Showing lines "@ + decimal_int(start) + "-"@ + decimal_int(end) + " of "@ + decimal_int(
            total,
        ) + " total. Use start_line="@ + decimal_int(end + 1) + " to continue reading.)"@
    } else {
        "(File has "@ + decimal_int(total) + " lines total.)"@
    }
}

/// The full text shown for a range.
pub open spec fn numbered_view(b: Seq<u8>, start: int, end: int, total: int) -> Seq<char> {
    numbered_lines(shown_region(b, start, end), start) + "\n\n"@ + range_footer(start, end, total)
}

proof fn lemma_pos_after_lines_bounds(b: Seq<u8>, n: int)
    ensures
        0 <= pos_after_lines(b, n) <= b.len(),
    decreases n,
{
    if n > 0 {
        lemma_pos_after_lines_bounds(b, n - 1);
        let p = pos_after_lines(b, n - 1);
        if 0 <= p < b.len() {
            lemma_first_lf_bounds(b.skip(p));
        }
    }
}

proof fn lemma_first_lf_bounds(b: Seq<u8>)
    ensures
        0 <= first_lf(b) <= b.len(),
        first_lf(b) < b.len() ==> b[first_lf(b)] == LF,
        forall|j: int| 0 <= j < first_lf(b) ==> b[j] != LF,
    decreases b.len(),
{
    if b.len() > 0 && b[0] != LF {
        lemma_first_lf_bounds(b.drop_first());
        assert forall|j: int| 0 <= j < first_lf(b) implies b[j] != LF by {
            if j > 0 {
                assert(b[j] == b.drop_first()[j - 1]);
            }
        }
    }
}

proof fn lemma_first_lf_at(b: Seq<u8>, k: int)
    requires
        0 <= k <= b.len(),
        forall|j: int| 0 <= j < k ==> b[j] != LF,
        k == b.len() || b[k] == LF,
    ensures
        first_lf(b) == k,
    decreases k,
{
    if k > 0 {
        lemma_first_lf_at(b.drop_first(), k - 1);
    }
}

/// The position after the first `n` lines of `b`.
fn skip_lines(b: &[u8], n: i32) -> (r: usize)
    ensures
        r == pos_after_lines(b@, n as int),
{
    let mut p: usize = 0;
    let mut k: i32 = 0;
    if n <= 0 {
        return 0;
    }
    while k < n
        invariant
            0 <= k <= n,
            p <= b@.len(),
            p == pos_after_lines(b@, k as int),
        decreases n - k,
    {
        proof {
            lemma_pos_after_lines_bounds(b@, k as int);
        }
        if p < b.len() {
            let mut q = p;
            while q < b.len() && b[q] != LF
                invariant
                    p <= q <= b@.len(),
                    forall|j: int| p <= j < q ==> b@[j] != LF,
                decreases b@.len() - q,
            {
                q += 1;
            }
            proof {
                lemma_first_lf_at(b@.skip(p as int), (q - p) as int);
            }
            if q < b.len() {
                p = q + 1;
            } else {
                p = b.len();
            }
        } else {
            p = b.len();
        }
        k += 1;
    }
    p
}

fn format_content_with_line_numbers(content: &str, range: &LineRange, total_lines: i32) -> (r: String)
    requires
        0 <= range.start_line <= range.end_line <= total_lines < i32::MAX,
        content.spec_bytes().len() < 0x4000_0000_0000_0000,
    ensures
        r@ == numbered_view(
            content.spec_bytes(),
            range.start_line as int,
            range.end_line as int,
            total_lines as int,
        ),
{
    let bytes = content.as_bytes();
    let ghost b = bytes@;
    let start_pos = skip_lines(bytes, range.start_line - 1);
    let end_raw = skip_lines(bytes, range.end_line);
    proof {
        lemma_pos_after_lines_bounds(b, range.start_line - 1);
        lemma_pos_after_lines_bounds(b, range.end_line as int);
        lemma_pos_after_lines_monotone(b, range.start_line - 1, range.end_line as int);
    }
    let mut end_pos = end_raw;
    if end_pos > start_pos && bytes[end_pos - 1] == LF {
        end_pos -= 1;
    }
    let ghost region = b.subrange(start_pos as int, end_pos as int);
    assert(region == shown_region(b, range.start_line as int, range.end_line as int));
    let mut result = String::new();
    let mut out_line_num: i64 = range.start_line as i64;
    let mut out_pos = start_pos;
    assert(b.subrange(out_pos as int, end_pos as int) =~= region);
    assert(result@ + numbered_lines(region, range.start_line as int) =~= numbered_lines(region, range.start_line as int));
    while out_pos < end_pos
        invariant
            start_pos <= out_pos <= end_pos <= b.len(),
            bytes@ == b,
            region == b.subrange(start_pos as int, end_pos as int),
            b.len() < 0x4000_0000_0000_0000,
            0 <= range.start_line <= out_line_num,
            out_line_num - range.start_line <= out_pos - start_pos,
            range.start_line < i32::MAX,
            result@ + numbered_lines(b.subrange(out_pos as int, end_pos as int), out_line_num as int)
                == numbered_lines(region, range.start_line as int),
        decreases end_pos - out_pos,
    {
        let ghost rest = b.subrange(out_pos as int, end_pos as int);
        let ghost before = result@;
        push_decimal_i64(&mut result, out_line_num);
        push_str(&mut result, " | ");
        let line_start = out_pos;
        while out_pos < end_pos && bytes[out_pos] != LF
            invariant
                line_start <= out_pos <= end_pos <= b.len(),
                bytes@ == b,
                forall|j: int| line_start <= j < out_pos ==> b[j] != LF,
                result@ == before + decimal_int(out_line_num as int) + " | "@ + bytes_as_chars(
                    b.subrange(line_start as int, out_pos as int),
                ),
            decreases end_pos - out_pos,
        {
            push_char(&mut result, bytes[out_pos] as char);
            out_pos += 1;
            proof {
                let x = b.subrange(line_start as int, out_pos as int);
                let y = b.subrange(line_start as int, out_pos - 1);
                assert(x =~= y.push(b[out_pos - 1]));
                assert(bytes_as_chars(x) =~= bytes_as_chars(y).push(b[out_pos - 1] as char));
            }
        }
        let ghost k = (out_pos - line_start) as int;
        proof {
            lemma_first_lf_at(rest, k);
            assert(rest.take(k) =~= b.subrange(line_start as int, out_pos as int));
        }
        if out_pos < end_pos && bytes[out_pos] == LF {
            push_char(&mut result, '\n');
            out_pos += 1;
            assert(rest.skip(k + 1) =~= b.subrange(out_pos as int, end_pos as int));
        } else {
            assert(b.subrange(out_pos as int, end_pos as int).len() == 0);
        }
        out_line_num += 1;
    }
    assert(b.subrange(out_pos as int, end_pos as int).len() == 0);
    push_str(&mut result, "\n\n");
    if range.end_line < total_lines {
        push_str(&mut result, "(Showing lines ");
        push_decimal_i64(&mut result, range.start_line as i64);
        push_str(&mut result, "-");
        push_decimal_i64(&mut result, range.end_line as i64);
        push_str(&mut result, " of ");
        push_decimal_i64(&mut result, total_lines as i64);
        push_str(&mut result, " total. Use start_line=");
        push_decimal_i64(&mut result, (range.end_line + 1) as i64);
        push_str(&mut result, " to continue reading.)");
    } else {
        push_str(&mut result, "(File has ");
        push_decimal_i64(&mut result, total_lines as i64);
        push_str(&mut result, " lines total.)");
    }
    result
}

proof fn lemma_pos_after_lines_monotone(b: Seq<u8>, m: int, n: int)
    requires
        m <= n,
    ensures
        pos_after_lines(b, m) <= pos_after_lines(b, n),
    decreases n - m,
{
    if m < n {
        lemma_pos_after_lines_monotone(b, m, n - 1);
        lemma_pos_after_lines_bounds(b, n - 1);
        let p = pos_after_lines(b, n - 1);
        if 0 <= p < b.len() {
            lemma_first_lf_bounds(b.skip(p));
        }
    }
}


// ---------------------------------------------------------------------
// Reading a range
// ---------------------------------------------------------------------

/// The range reported with an error: all zero.
pub open spec fn zero_range() -> LineRange {
    LineRange { start_line: 0, end_line: 0, total_lines: 0, truncated: 0 }
}

/// The message of a failed read.
pub open spec fn read_failure_message(k: ReadFailure) -> Seq<char> {
    match k {
        ReadFailure::NotFound => "Error reading file: File not found"@,
        ReadFailure::PermissionDenied => "Error reading file: Permission denied"@,
        ReadFailure::Other => "Error reading file: Read failed"@,
    }
}

/// The note put before a file's content when it is read again unchanged,
/// for the `n`-th read.
pub open spec fn duplicate_note(path: Seq<char>, n: u32) -> Seq<char> {
    if n >= 3 {
        "[DUPLICATE READ] You have already read '"@ + path + "' "@ + decimal_int(n as int)
            + " times in this conversation. The content has not changed since your last read. Please use the information you already have and proceed with your task.\n\n"@
    } else if n == 2 {
        "[File already read] The file '"@ + path
            + "' was already read earlier in this conversation. Returning content:\n\n"@
    } else {
        Seq::empty()
    }
}

/// Whether the cache has `path` recorded with the time `mtime`, that is
/// whether this read repeats an earlier read of the unchanged file.
pub open spec fn is_repeat_read(c: FileCache, path: Seq<char>, mtime: i128) -> bool {
    cached(c, path) matches Some((n, m)) && m == mtime
}

/// Slot `slot` of `c` holds `key` with `count` reads at time `mtime`.
pub open spec fn slot_holds(c: FileCache, slot: int, key: Seq<char>, count: u32, mtime: i128) -> bool {
    &&& c.key_at(slot) == key
    &&& c.count_at(slot) == count
    &&& c.mtime_at(slot) == mtime
}

/// Every slot of `b` but `slot` is as in `a`.
pub open spec fn same_but(a: FileCache, b: FileCache, slot: int) -> bool {
    forall|i: int|
        0 <= i < CACHE_SIZE && i != slot ==> #[trigger] b.key_at(i) == a.key_at(i) && b.count_at(i)
            == a.count_at(i) && b.mtime_at(i) == a.mtime_at(i)
}

/// A lookup finds what a slot records: a path recorded with a non-zero
/// count is found with that count and time, a read at that time is a
/// repeat read, and a read at any other time is not.
pub proof fn law_lookup_finds_record(c: FileCache, path: Seq<char>, count: u32, mtime: i128, other: i128)
    requires
        slot_holds(c, slot_of(path), path, count, mtime),
        count > 0,
        other != mtime,
    ensures
        cached(c, path) == Some((count, mtime)),
        is_repeat_read(c, path, mtime),
        !is_repeat_read(c, path, other),
{
}

/// The range shown for a request on a file of `total` lines: the parsed
/// request with both ends cut down to `total`.
pub open spec fn shown_range(requested_start: i32, requested_end: i32, total: int) -> (int, int) {
    let (s, e) = line_range_spec(requested_start, requested_end);
    (if s > total { total } else { s }, if e > total { total } else { e })
}

/// What reading a range comes to (see [`read_file_range`]): `ignored`
/// tells whether the ignore rules hide the path and `abs` is the resolved
/// path; `before` and `after` are the cache around the read.
pub open spec fn read_outcome(
    r: FileReaderResult,
    path: Seq<char>,
    start_line: i32,
    end_line: i32,
    ignored: bool,
    abs: Seq<char>,
    before: FileCache,
    after: FileCache,
    current_mtime: i128,
    content: Result<String, ReadFailure>,
) -> bool {
    let unread = r.content@.len() == 0 && r.range == zero_range();
    if path.len() == 0 {
        &&& r.error == FileReaderError::NullPath
        &&& r.error_message@ == "Path parameter is required"@
        &&& unread
        &&& after == before
    } else if ignored {
        &&& r.error == FileReaderError::PermissionDenied
        &&& r.error_message@ == "Access denied by .crownignore rules"@
        &&& unread
        &&& after == before
    } else if abs.len() == 0 {
        &&& r.error == FileReaderError::FileNotFound
        &&& r.error_message@ == "Could not resolve path"@
        &&& unread
        &&& after == before
    } else {
        let slot = slot_of(abs);
        let repeat = is_repeat_read(before, abs, current_mtime);
        let count = vstd::wrapping::u32_specs::wrapping_add(before.count_at(slot), 1);
        &&& same_but(before, after, slot)
        &&& repeat ==> slot_holds(after, slot, abs, count, current_mtime)
        &&& (!repeat && content is Ok) ==> slot_holds(after, slot, abs, 1, current_mtime)
        &&& (!repeat && content is Err) ==> slot_holds(
            after,
            slot,
            before.key_at(slot),
            before.count_at(slot),
            before.mtime_at(slot),
        )
        &&& match content {
            Err(k) => {
                &&& r.error == FileReaderError::ReadFailed
                &&& r.error_message@ == read_failure_message(k)
                &&& unread
            },
            Ok(t) => {
                let b = vstd::utf8::encode_utf8(t@);
                let total = count_newline_bytes(b) as int;
                let (s, e) = shown_range(start_line, end_line, total);
                let note = if repeat {
                    duplicate_note(path, count)
                } else {
                    Seq::empty()
                };
                &&& r.error == FileReaderError::Success
                &&& r.error_message@.len() == 0
                &&& r.range == LineRange {
                    start_line: s as i32,
                    end_line: e as i32,
                    total_lines: total as i32,
                    truncated: 0,
                }
                &&& r.content@ == note + numbered_view(b, s, e, total)
            },
        }
    }
}

/// Reads lines `start_line..=end_line` of the file at `path`, numbered
/// for display.
///
/// `rules` are the loaded ignore rules and `current_dir` the working
/// directory paths are resolved against.  The caller hands in the
/// resolved file's modification time and its content (or why it could
/// not be read).  A file read again while unchanged gets a note before
/// its content, and `cache` counts the reads.
pub fn read_file_range(
    path: &str,
    start_line: i32,
    end_line: i32,
    rules: &IgnoreRules,
    current_dir: &str,
    cache: &mut FileCache,
    current_mtime: i128,
    content: Result<String, ReadFailure>,
) -> (r: FileReaderResult)
    requires
        old(cache).wf(),
        range_request_ok(start_line, end_line),
        content matches Ok(t) ==> count_newline_bytes(vstd::utf8::encode_utf8(t@)) < i32::MAX
            && vstd::utf8::encode_utf8(t@).len() < 0x4000_0000_0000_0000,
    ensures
        final(cache).wf(),
        ({
            let ignored = path_ignored(
                pattern_texts(rules.global_patterns@),
                pattern_texts(rules.project_patterns@),
                path@,
                current_dir@,
            );
            let abs = workspace_path(path@, current_dir@);
            read_outcome(r, path@, start_line, end_line, ignored, abs, *old(cache), *final(cache), current_mtime, content)
        }),
{
    let zero = LineRange { start_line: 0, end_line: 0, total_lines: 0, truncated: 0 };
    if path.is_empty() {
        return FileReaderResult {
            content: String::new(),
            range: zero,
            error: FileReaderError::NullPath,
            error_message: string_of("Path parameter is required"),
        };
    }
    if check_ignore_path(rules, path, current_dir) {
        return FileReaderResult {
            content: String::new(),
            range: zero,
            error: FileReaderError::PermissionDenied,
            error_message: string_of("Access denied by .crownignore rules"),
        };
    }
    let abs_string = resolve_workspace_path(path, current_dir);
    let absolute_path = abs_string.as_str();
    if absolute_path.is_empty() {
        return FileReaderResult {
            content: String::new(),
            range: zero,
            error: FileReaderError::FileNotFound,
            error_message: string_of("Could not resolve path"),
        };
    }
    let found = cache_get(cache, absolute_path);
    let repeat = match found {
        Some((_, m)) => m == current_mtime,
        None => false,
    };
    let mut note = String::new();
    if repeat {
        let n = cache_increment(cache, absolute_path);
        if n >= 3 {
            push_str(&mut note, "[DUPLICATE READ] You have already read '");
            push_str(&mut note, path);
            push_str(&mut note, "' ");
            push_decimal_i64(&mut note, n as i64);
            push_str(
                &mut note,
                " times in this conversation. The content has not changed since your last read. Please use the information you already have and proceed with your task.\n\n",
            );
        } else if n == 2 {
            push_str(&mut note, "[File already read] The file '");
            push_str(&mut note, path);
            push_str(
                &mut note,
                "' was already read earlier in this conversation. Returning content:\n\n",
            );
        }
    }
    let text = match content {
        Ok(t) => t,
        Err(k) => {
            let msg = match k {
                ReadFailure::NotFound => "Error reading file: File not found",
                ReadFailure::PermissionDenied => "Error reading file: Permission denied",
                ReadFailure::Other => "Error reading file: Read failed",
            };
            return FileReaderResult {
                content: String::new(),
                range: zero,
                error: FileReaderError::ReadFailed,
                error_message: string_of(msg),
            };
        },
    };
    let total_lines = count_lines(text.as_str());
    let mut range = parse_line_range(start_line, end_line);
    range.total_lines = total_lines;
    if range.start_line > total_lines {
        range.start_line = total_lines;
    }
    if range.end_line > total_lines {
        range.end_line = total_lines;
    }
    if !repeat {
        cache_set(cache, absolute_path, current_mtime, 1);
    }
    let formatted = format_content_with_line_numbers(text.as_str(), &range, total_lines);
    push_str(&mut note, formatted.as_str());
    FileReaderResult { content: note, range, error: FileReaderError::Success, error_message: String::new() }
}


/// Three reads in a row of an unchanged file that the cache has no
/// record of: the first gives the numbered lines alone, the second the same
/// lines after the `[File already read]` note, the third after the
/// `[DUPLICATE READ]` note counting three reads.
pub proof fn law_three_reads_in_a_row(
    path: Seq<char>,
    start_line: i32,
    end_line: i32,
    abs: Seq<char>,
    c0: FileCache,
    c1: FileCache,
    c2: FileCache,
    c3: FileCache,
    mtime: i128,
    text: String,
    r1: FileReaderResult,
    r2: FileReaderResult,
    r3: FileReaderResult,
)
    requires
        path.len() > 0,
        abs.len() > 0,
        cached(c0, abs) is None,
        read_outcome(r1, path, start_line, end_line, false, abs, c0, c1, mtime, Ok(text)),
        read_outcome(r2, path, start_line, end_line, false, abs, c1, c2, mtime, Ok(text)),
        read_outcome(r3, path, start_line, end_line, false, abs, c2, c3, mtime, Ok(text)),
    ensures
        r1.error == FileReaderError::Success,
        r2.error == FileReaderError::Success,
        r3.error == FileReaderError::Success,
        ({
            let b = vstd::utf8::encode_utf8(text@);
            let total = count_newline_bytes(b) as int;
            let (s, e) = shown_range(start_line, end_line, total);
            r1.content@ == numbered_view(b, s, e, total)
        }),
        r2.content@ == duplicate_note(path, 2) + r1.content@,
        r3.content@ == duplicate_note(path, 3) + r1.content@,
{
    let slot = slot_of(abs);
    assert(!is_repeat_read(c0, abs, mtime));
    assert(slot_holds(c1, slot, abs, 1, mtime));
    assert(cached(c1, abs) == Some((1u32, mtime)));
    assert(is_repeat_read(c1, abs, mtime));
    assert(vstd::wrapping::u32_specs::wrapping_add(1u32, 1u32) == 2u32);
    assert(slot_holds(c2, slot, abs, 2, mtime));
    assert(cached(c2, abs) == Some((2u32, mtime)));
    assert(is_repeat_read(c2, abs, mtime));
    assert(vstd::wrapping::u32_specs::wrapping_add(2u32, 1u32) == 3u32);
    assert(Seq::<char>::empty() + r1.content@ =~= r1.content@);
}

/// A successful read of a range reports the file's line count `T` (its
/// newlines), the requested range (a non-positive start is 1, a
/// non-positive end is a default span, a given end before the start swaps
/// them) cut down to `T`, nothing truncated, and content that ends with the
/// footer: "(File has T lines total.)" when the range reaches the last
/// line, otherwise where to continue reading.
pub proof fn law_read_range_shape(
    r: FileReaderResult,
    path: Seq<char>,
    start_line: i32,
    end_line: i32,
    abs: Seq<char>,
    before: FileCache,
    after: FileCache,
    mtime: i128,
    text: String,
)
    requires
        path.len() > 0,
        abs.len() > 0,
        range_request_ok(start_line, end_line),
        count_newline_bytes(vstd::utf8::encode_utf8(text@)) < i32::MAX,
        read_outcome(r, path, start_line, end_line, false, abs, before, after, mtime, Ok(text)),
    ensures
        ({
            let t = count_newline_bytes(vstd::utf8::encode_utf8(text@)) as int;
            let (lo, hi) = line_range_spec(start_line, end_line);
            let s = if lo > t { t } else { lo };
            let e = if hi > t { t } else { hi };
            let f = range_footer(s, e, t);
            &&& r.error == FileReaderError::Success
            &&& r.range.total_lines as int == t
            &&& r.range.start_line as int == s
            &&& r.range.end_line as int == e
            &&& r.range.truncated == 0
            &&& r.content@.len() >= f.len()
            &&& r.content@.subrange(r.content@.len() - f.len(), r.content@.len() as int) == f
            &&& e >= t ==> f == "(File has "@ + decimal_int(t) + " lines total.)"@
            &&& e < t ==> f == "(Showing lines "@ + decimal_int(s) + "-"@ + decimal_int(e) + " of "@ + decimal_int(t)
                + " total. Use start_line="@ + decimal_int(e + 1) + " to continue reading.)"@
        }),
{
    let b = vstd::utf8::encode_utf8(text@);
    let t = count_newline_bytes(b) as int;
    let (s, e) = shown_range(start_line, end_line, t);
    let f = range_footer(s, e, t);
    let slot = slot_of(abs);
    let repeat = is_repeat_read(before, abs, mtime);
    let count = vstd::wrapping::u32_specs::wrapping_add(before.count_at(slot), 1);
    let note = if repeat { duplicate_note(path, count) } else { Seq::<char>::empty() };
    let body = numbered_lines(shown_region(b, s, e), s) + "\n\n"@;
    assert(r.content@ == note + numbered_view(b, s, e, t));
    assert(note + numbered_view(b, s, e, t) =~= (note + body) + f);
    assert(r.content@.subrange(r.content@.len() - f.len(), r.content@.len() as int) =~= f);
}

} // verus!
