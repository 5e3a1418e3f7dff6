//! Per-file scan records and the fold that turns them into one aggregate
//! report.
//!
//! The fold is a plain sum over the files, so the totals do not depend on
//! the order in which the walker happened to list them; that is stated
//! and proved in `lemma_totals_order_independent`.

use crate::cache::Cache;
use crate::count::{count_char, count_char_occurrences, count_matches, count_pattern_occurrences};
use vstd::prelude::*;

verus! {

/// A file's metadata.
pub struct Meta {
    /// The path to the file.
    pub path: String,
    /// The size of the file, in bytes.
    pub size: u64,
}

impl Meta {
    pub fn new(path: String, size: u64) -> (r: Meta)
        ensures
            r.path == path,
            r.size == size,
    {
        Meta { path, size }
    }
}

/// One scan target: a file's full text content and its metadata.
pub struct File(pub String, pub Meta);

/// A line is a newline-terminated segment, so a file's line count is its
/// number of line-feed characters: an empty file has zero lines, and a
/// final segment not ended by a newline is not counted.
pub open spec fn line_count_of(f: File) -> nat {
    count_char(f.0@, '\n')
}

/// Semicolons are counted wherever they occur, string literals included.
pub open spec fn semicolon_count_of(f: File) -> nat {
    count_char(f.0@, ';')
}

/// Occurrences of the literal marker, as a plain substring.
pub open spec fn todo_count_of(f: File) -> nat {
    count_matches(f.0@, "// TODO:"@)
}

/// Occurrences of the literal marker, as a plain substring.
pub open spec fn fixme_count_of(f: File) -> nat {
    count_matches(f.0@, "// FIXME:"@)
}

/// The per-file scan record: every metric of one file, with its path
/// and size carried along for the aggregate's indexes.
pub struct FileMetrics {
    pub line_count: usize,
    pub semicolon_count: usize,
    pub todo_count: usize,
    pub fixme_count: usize,
    pub path: String,
    pub size_bytes: u64,
}

/// Scans one file: a pure function of the already-decoded text, with no
/// failure path.
pub fn scan(target: &File) -> (m: FileMetrics)
    ensures
        m.line_count == line_count_of(*target),
        m.semicolon_count == semicolon_count_of(*target),
        m.todo_count == todo_count_of(*target),
        m.fixme_count == fixme_count_of(*target),
        m.path == target.1.path,
        m.size_bytes == target.1.size,
{
    proof {
        reveal_strlit("// TODO:");
        reveal_strlit("// FIXME:");
    }
    FileMetrics {
        line_count: count_char_occurrences(target.0.as_str(), '\n'),
        semicolon_count: count_char_occurrences(target.0.as_str(), ';'),
        todo_count: count_pattern_occurrences(target.0.as_str(), "// TODO:"),
        fixme_count: count_pattern_occurrences(target.0.as_str(), "// FIXME:"),
        path: target.1.path.clone(),
        size_bytes: target.1.size,
    }
}

/// Law: scanning an empty file yields zero of every count; in
/// particular, under the newline-terminated-segment convention an empty
/// file has no lines.
pub proof fn lemma_scan_empty_file(f: File)
    requires
        f.0@.len() == 0,
    ensures
        line_count_of(f) == 0,
        semicolon_count_of(f) == 0,
        todo_count_of(f) == 0,
        fixme_count_of(f) == 0,
{
}

/// Sum of a per-file measure over a list of files.
pub open spec fn sum_of(files: Seq<File>, m: spec_fn(File) -> int) -> int
    decreases files.len(),
{
    if files.len() == 0 {
        0
    } else {
        sum_of(files.drop_last(), m) + m(files.last())
    }
}

pub open spec fn line_measure() -> spec_fn(File) -> int {
    |f: File| line_count_of(f) as int
}

pub open spec fn semicolon_measure() -> spec_fn(File) -> int {
    |f: File| semicolon_count_of(f) as int
}

pub open spec fn todo_measure() -> spec_fn(File) -> int {
    |f: File| todo_count_of(f) as int
}

pub open spec fn fixme_measure() -> spec_fn(File) -> int {
    |f: File| fixme_count_of(f) as int
}

pub open spec fn size_measure() -> spec_fn(File) -> int {
    |f: File| f.1.size as int
}

/// Sum of the per-file line counts.
pub open spec fn total_line_count(files: Seq<File>) -> int {
    sum_of(files, line_measure())
}

/// Sum of the per-file semicolon counts.
pub open spec fn total_semicolon_count(files: Seq<File>) -> int {
    sum_of(files, semicolon_measure())
}

/// Sum of the per-file marker counts.
pub open spec fn total_todo_count(files: Seq<File>) -> int {
    sum_of(files, todo_measure())
}

/// Sum of the per-file marker counts.
pub open spec fn total_fixme_count(files: Seq<File>) -> int {
    sum_of(files, fixme_measure())
}

/// Sum of the per-file byte sizes.
pub open spec fn total_byte_size(files: Seq<File>) -> int {
    sum_of(files, size_measure())
}

/// The lines index that folding the files in order produces: line count
/// maps to path, a later file displacing an earlier one with the same
/// count.
pub open spec fn lines_index_of(files: Seq<File>) -> Map<u64, Seq<char>>
    decreases files.len(),
{
    if files.len() == 0 {
        Map::empty()
    } else {
        lines_index_of(files.drop_last()).insert(
            line_count_of(files.last()) as u64,
            files.last().1.path@,
        )
    }
}

/// The sizes index that folding the files in order produces: byte size
/// maps to path, a later file displacing an earlier one of the same size.
pub open spec fn sizes_index_of(files: Seq<File>) -> Map<u64, Seq<char>>
    decreases files.len(),
{
    if files.len() == 0 {
        Map::empty()
    } else {
        sizes_index_of(files.drop_last()).insert(files.last().1.size, files.last().1.path@)
    }
}

/// A prefix of the files contributes at most the whole sum, for a
/// measure that is nonnegative on every listed file.
proof fn lemma_sum_of_prefix(files: Seq<File>, m: spec_fn(File) -> int, i: int)
    requires
        0 <= i <= files.len(),
        forall|j: int| 0 <= j < files.len() ==> #[trigger] m(files[j]) >= 0,
    ensures
        sum_of(files.take(i), m) <= sum_of(files, m),
    decreases files.len() - i,
{
    if i == files.len() {
        assert(files.take(i) =~= files);
    } else {
        assert(files.take(i + 1).drop_last() =~= files.take(i));
        assert(files.take(i + 1).last() == files[i]);
        lemma_sum_of_prefix(files, m, i + 1);
    }
}

/// Removing one file removes exactly its contribution from the sum.
proof fn lemma_sum_of_remove(files: Seq<File>, m: spec_fn(File) -> int, j: int)
    requires
        0 <= j < files.len(),
    ensures
        sum_of(files, m) == sum_of(files.remove(j), m) + m(files[j]),
    decreases files.len(),
{
    if j == files.len() - 1 {
        assert(files.remove(j) =~= files.drop_last());
    } else {
        assert(files.remove(j).drop_last() =~= files.drop_last().remove(j));
        assert(files.remove(j).last() == files.last());
        lemma_sum_of_remove(files.drop_last(), m, j);
    }
}

/// The sum of a per-file measure depends only on which files are present,
/// not on their order.
pub proof fn lemma_sum_of_permutation(files1: Seq<File>, files2: Seq<File>, m: spec_fn(File) -> int)
    requires
        files1.to_multiset() == files2.to_multiset(),
    ensures
        sum_of(files1, m) == sum_of(files2, m),
    decreases files1.len(),
{
    broadcast use vstd::seq_lib::group_to_multiset_ensures;

    assert(files1.len() == files1.to_multiset().len());
    assert(files2.len() == files2.to_multiset().len());
    if files1.len() == 0 {
    } else {
        let e = files1.last();
        assert(files1.to_multiset().count(e) > 0) by {
            assert(files1.contains(e));
        }
        assert(files2.contains(e));
        let j = choose|j: int| 0 <= j < files2.len() && files2[j] == e;
        assert(files1.remove(files1.len() - 1) =~= files1.drop_last());
        assert(files1.drop_last().to_multiset() == files1.to_multiset().remove(e));
        assert(files2.remove(j).to_multiset() == files2.to_multiset().remove(e));
        lemma_sum_of_permutation(files1.drop_last(), files2.remove(j), m);
        lemma_sum_of_remove(files2, m, j);
    }
}

/// Law: every aggregate total is the sum of the independently computed
/// per-file counts, and two traversals that list the same files in any
/// two orders produce the same totals.
pub proof fn lemma_totals_order_independent(files1: Seq<File>, files2: Seq<File>)
    requires
        files1.to_multiset() == files2.to_multiset(),
    ensures
        total_line_count(files1) == total_line_count(files2),
        total_semicolon_count(files1) == total_semicolon_count(files2),
        total_todo_count(files1) == total_todo_count(files2),
        total_fixme_count(files1) == total_fixme_count(files2),
        total_byte_size(files1) == total_byte_size(files2),
{
    lemma_sum_of_permutation(files1, files2, line_measure());
    lemma_sum_of_permutation(files1, files2, semicolon_measure());
    lemma_sum_of_permutation(files1, files2, todo_measure());
    lemma_sum_of_permutation(files1, files2, fixme_measure());
    lemma_sum_of_permutation(files1, files2, size_measure());
}

/// Law: after a nonempty fold the extrema queries are owed an answer:
/// both indexes hold at least the last file folded in, so the minimum
/// and maximum queries return a value rather than nothing.
pub proof fn lemma_nonempty_fold_has_extrema(files: Seq<File>)
    requires
        files.len() > 0,
    ensures
        lines_index_of(files) != Map::<u64, Seq<char>>::empty(),
        sizes_index_of(files) != Map::<u64, Seq<char>>::empty(),
{
    assert(lines_index_of(files).contains_key(line_count_of(files.last()) as u64));
    assert(sizes_index_of(files).contains_key(files.last().1.size));
}

/// The whole aggregate report.
#[derive(Debug)]
pub struct Metrics {
    /// Total line count, under the newline-terminated-segment convention.
    pub newlines: usize,
    pub semicolons: usize,
    pub num_files: usize,
    pub todos: usize,
    pub fixmes: usize,
    pub files: Cache,
}

/// Folds every file's scan results into one aggregate report.
///
/// The bounds required of the caller only say that the machine's counters
/// can hold the totals.
pub fn metrics(files: Vec<File>) -> (m: Metrics)
    requires
        total_line_count(files@) <= usize::MAX,
        total_semicolon_count(files@) <= usize::MAX,
        total_todo_count(files@) <= usize::MAX,
        total_fixme_count(files@) <= usize::MAX,
        total_byte_size(files@) <= u64::MAX,
    ensures
        m.newlines == total_line_count(files@),
        m.semicolons == total_semicolon_count(files@),
        m.todos == total_todo_count(files@),
        m.fixmes == total_fixme_count(files@),
        m.num_files == files@.len(),
        m.files.num_files == files@.len(),
        m.files.total_lines == total_line_count(files@),
        m.files.total_size == total_byte_size(files@),
        m.files.lines@ == lines_index_of(files@),
        m.files.sizes@ == sizes_index_of(files@),
        m.files.inv(),
{
    let mut newlines: usize = 0;
    let mut semicolons: usize = 0;
    let mut todos: usize = 0;
    let mut fixmes: usize = 0;
    let mut cache = Cache::new();
    let num_files = files.len();
    proof {
        assert(forall|j: int|
            0 <= j < files@.len() ==> #[trigger] line_measure()(files@[j]) >= 0);
        assert(forall|j: int|
            0 <= j < files@.len() ==> #[trigger] semicolon_measure()(files@[j]) >= 0);
        assert(forall|j: int|
            0 <= j < files@.len() ==> #[trigger] todo_measure()(files@[j]) >= 0);
        assert(forall|j: int|
            0 <= j < files@.len() ==> #[trigger] fixme_measure()(files@[j]) >= 0);
        assert(forall|j: int|
            0 <= j < files@.len() ==> #[trigger] size_measure()(files@[j]) >= 0);
    }
    let mut idx: usize = 0;
    while idx < num_files
        invariant
            idx <= num_files,
            num_files == files@.len(),
            total_line_count(files@) <= usize::MAX,
            total_semicolon_count(files@) <= usize::MAX,
            total_todo_count(files@) <= usize::MAX,
            total_fixme_count(files@) <= usize::MAX,
            total_byte_size(files@) <= u64::MAX,
            forall|j: int| 0 <= j < files@.len() ==> #[trigger] line_measure()(files@[j]) >= 0,
            forall|j: int| 0 <= j < files@.len() ==> #[trigger] semicolon_measure()(files@[j]) >= 0,
            forall|j: int| 0 <= j < files@.len() ==> #[trigger] todo_measure()(files@[j]) >= 0,
            forall|j: int| 0 <= j < files@.len() ==> #[trigger] fixme_measure()(files@[j]) >= 0,
            forall|j: int| 0 <= j < files@.len() ==> #[trigger] size_measure()(files@[j]) >= 0,
            newlines == total_line_count(files@.take(idx as int)),
            semicolons == total_semicolon_count(files@.take(idx as int)),
            todos == total_todo_count(files@.take(idx as int)),
            fixmes == total_fixme_count(files@.take(idx as int)),
            cache.inv(),
            cache.num_files == idx,
            cache.total_lines == total_line_count(files@.take(idx as int)),
            cache.total_size == total_byte_size(files@.take(idx as int)),
            cache.lines@ == lines_index_of(files@.take(idx as int)),
            cache.sizes@ == sizes_index_of(files@.take(idx as int)),
        decreases num_files - idx,
    {
        proof {
            assert(files@.take(idx + 1).drop_last() =~= files@.take(idx as int));
            assert(files@.take(idx + 1).last() == files@[idx as int]);
            lemma_sum_of_prefix(files@, line_measure(), idx + 1);
            lemma_sum_of_prefix(files@, semicolon_measure(), idx + 1);
            lemma_sum_of_prefix(files@, todo_measure(), idx + 1);
            lemma_sum_of_prefix(files@, fixme_measure(), idx + 1);
            lemma_sum_of_prefix(files@, size_measure(), idx + 1);
        }
        let f = &files[idx];
        let fm = scan(f);

        newlines = newlines + fm.line_count;
        semicolons = semicolons + fm.semicolon_count;
        todos = todos + fm.todo_count;
        fixmes = fixmes + fm.fixme_count;

        cache.total_lines = cache.total_lines + fm.line_count;
        cache.total_size = cache.total_size + fm.size_bytes;
        cache.num_files = cache.num_files + 1;
        cache.insert_line(fm.line_count, fm.path.clone());
        cache.insert_size(fm.size_bytes, fm.path);

        idx = idx + 1;
    }
    proof {
        assert(files@.take(num_files as int) =~= files@);
    }
    Metrics { newlines, semicolons, num_files, todos, fixmes, files: cache }
}

} // verus!
