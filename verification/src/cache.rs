//! The aggregate side of the pipeline: ordered metric-to-path indexes and
//! the process-wide running totals folded from per-file scan results.
//!
//! The indexes behave as ordered maps: inserting an existing key replaces
//! its value, so ties between files silently keep only the most recently
//! inserted path. That approximation is deliberate.

use vstd::prelude::*;

verus! {

/// The mapping described by an entry list, read left to right: a later
/// entry overwrites an earlier one with the same key, exactly as repeated
/// map insertion would.
pub open spec fn map_of(entries: Seq<(u64, String)>) -> Map<u64, Seq<char>>
    decreases entries.len(),
{
    if entries.len() == 0 {
        Map::empty()
    } else {
        map_of(entries.drop_last()).insert(entries.last().0, entries.last().1@)
    }
}

/// A key is in the mapping of an entry list exactly when some entry
/// carries it.
proof fn lemma_map_of_dom(entries: Seq<(u64, String)>)
    ensures
        forall|k: u64|
            map_of(entries).contains_key(k) <==> exists|i: int|
                0 <= i < entries.len() && (#[trigger] entries[i]).0 == k,
    decreases entries.len(),
{
    if entries.len() > 0 {
        let dl = entries.drop_last();
        lemma_map_of_dom(dl);
        assert(map_of(entries) == map_of(dl).insert(entries.last().0, entries.last().1@));
        assert forall|k: u64| map_of(entries).contains_key(k) implies exists|i: int|
            0 <= i < entries.len() && (#[trigger] entries[i]).0 == k by {
            if k == entries.last().0 {
                assert(entries[entries.len() - 1].0 == k);
            } else {
                assert(map_of(dl).contains_key(k));
                let i = choose|i: int| 0 <= i < dl.len() && (#[trigger] dl[i]).0 == k;
                assert(entries[i].0 == k);
            }
        }
        assert forall|k: u64|
            exists|i: int| 0 <= i < entries.len() && (#[trigger] entries[i]).0
                == k implies map_of(entries).contains_key(k) by {
            let i = choose|i: int| 0 <= i < entries.len() && (#[trigger] entries[i]).0 == k;
            if i < entries.len() - 1 {
                assert(dl[i].0 == k);
                assert(map_of(dl).contains_key(k));
            }
        }
    }
}

/// With pairwise distinct keys, each entry is in the mapping with its own
/// value.
proof fn lemma_map_of_values(entries: Seq<(u64, String)>)
    requires
        forall|i: int, j: int|
            0 <= i < j < entries.len() ==> (#[trigger] entries[i]).0 != (#[trigger] entries[j]).0,
    ensures
        forall|i: int|
            0 <= i < entries.len() ==> map_of(entries).contains_key((#[trigger] entries[i]).0)
                && map_of(entries)[entries[i].0] == entries[i].1@,
    decreases entries.len(),
{
    if entries.len() > 0 {
        lemma_map_of_values(entries.drop_last());
        assert forall|i: int| 0 <= i < entries.len() implies map_of(entries).contains_key(
            (#[trigger] entries[i]).0,
        ) && map_of(entries)[entries[i].0] == entries[i].1@ by {
            if i < entries.len() - 1 {
                assert(entries.drop_last()[i] == entries[i]);
                assert(entries[i].0 != entries.last().0);
            }
        }
    }
}

/// Inserting an entry anywhere before entries whose keys all differ from
/// its own is, at the map level, one insertion.
proof fn lemma_map_of_insert_mid(pre: Seq<(u64, String)>, e: (u64, String), post: Seq<(u64, String)>)
    requires
        forall|i: int| 0 <= i < post.len() ==> (#[trigger] post[i]).0 != e.0,
    ensures
        map_of(pre + seq![e] + post) == map_of(pre + post).insert(e.0, e.1@),
    decreases post.len(),
{
    if post.len() == 0 {
        assert(pre + seq![e] + post =~= (pre + seq![e]));
        assert((pre + seq![e]).drop_last() =~= pre);
        assert((pre + seq![e]).last() == e);
        assert(pre + post =~= pre);
    } else {
        let q = post.last();
        let post2 = post.drop_last();
        assert(forall|i: int| 0 <= i < post2.len() ==> (#[trigger] post2[i]).0 != e.0) by {
            assert(forall|i: int|
                0 <= i < post2.len() ==> post2[i] == (#[trigger] post[i]) && post[i].0 != e.0);
        }
        lemma_map_of_insert_mid(pre, e, post2);
        assert((pre + seq![e] + post).drop_last() =~= (pre + seq![e] + post2));
        assert((pre + seq![e] + post).last() == q);
        assert((pre + post).drop_last() =~= (pre + post2));
        assert((pre + post).last() == q);
        assert(map_of(pre + seq![e] + post) == map_of(pre + post2).insert(e.0, e.1@).insert(
            q.0,
            q.1@,
        ));
        assert(map_of(pre + post2).insert(e.0, e.1@).insert(q.0, q.1@) =~= map_of(
            pre + post2,
        ).insert(q.0, q.1@).insert(e.0, e.1@)) by {
            assert(q.0 != e.0);
        }
    }
}

/// Entries strictly below a new key, the new entry, then entries strictly
/// above it form a strictly ascending list.
proof fn lemma_sorted_concat(pre: Seq<(u64, String)>, e: (u64, String), post: Seq<(u64, String)>)
    requires
        forall|i: int, j: int|
            0 <= i < j < pre.len() ==> (#[trigger] pre[i]).0 < (#[trigger] pre[j]).0,
        forall|i: int, j: int|
            0 <= i < j < post.len() ==> (#[trigger] post[i]).0 < (#[trigger] post[j]).0,
        forall|i: int| 0 <= i < pre.len() ==> (#[trigger] pre[i]).0 < e.0,
        forall|i: int| 0 <= i < post.len() ==> e.0 < (#[trigger] post[i]).0,
    ensures
        forall|i: int, j: int|
            0 <= i < j < (pre + seq![e] + post).len() ==> (#[trigger] (pre + seq![e] + post)[i]).0
                < (#[trigger] (pre + seq![e] + post)[j]).0,
{
    let s = pre + seq![e] + post;
    assert forall|i: int, j: int| 0 <= i < j < s.len() implies (#[trigger] s[i]).0 < (
    #[trigger] s[j]).0 by {
        if i < pre.len() {
            assert(s[i] == pre[i]);
        } else if i == pre.len() {
            assert(s[i] == e);
        } else {
            assert(s[i] == post[i - pre.len() - 1]);
        }
        if j < pre.len() {
            assert(s[j] == pre[j]);
        } else if j == pre.len() {
            assert(s[j] == e);
        } else {
            assert(s[j] == post[j - pre.len() - 1]);
        }
    }
}

/// An ordered index from a numeric metric to the path of (one of) the
/// file(s) with that exact metric value. Keys are kept strictly sorted,
/// so each key appears once; inserting an existing key replaces its path.
#[derive(Debug)]
pub struct OrderedIndex {
    pub entries: Vec<(u64, String)>,
}

impl View for OrderedIndex {
    type V = Map<u64, Seq<char>>;

    open spec fn view(&self) -> Map<u64, Seq<char>> {
        map_of(self.entries@)
    }
}

impl OrderedIndex {
    /// Entries are strictly ascending by key.
    pub open spec fn wf(self) -> bool {
        forall|i: int, j: int|
            0 <= i < j < self.entries@.len() ==> (#[trigger] self.entries@[i]).0 < (
            #[trigger] self.entries@[j]).0
    }

    pub fn new() -> (r: OrderedIndex)
        ensures
            r.wf(),
            r@ == Map::<u64, Seq<char>>::empty(),
            r.entries@.len() == 0,
    {
        OrderedIndex { entries: Vec::new() }
    }

    /// Map-style insertion: the key's previous path, if any, is replaced.
    pub fn insert(&mut self, key: u64, value: String)
        requires
            old(self).wf(),
        ensures
            final(self).wf(),
            final(self)@ == old(self)@.insert(key, value@),
    {
        let len = self.entries.len();
        let mut pos: usize = 0;
        while pos < len && self.entries[pos].0 < key
            invariant
                pos <= len,
                len == self.entries@.len(),
                forall|i: int| 0 <= i < pos ==> (#[trigger] self.entries@[i]).0 < key,
            decreases len - pos,
        {
            pos = pos + 1;
        }
        let ghost old_entries = self.entries@;
        let ghost pre = old_entries.subrange(0, pos as int);
        let ghost e = (key, value);
        if pos < len && self.entries[pos].0 == key {
            let ghost post = old_entries.subrange(pos + 1, len as int);
            let ghost displaced = old_entries[pos as int];
            self.entries.remove(pos);
            self.entries.insert(pos, (key, value));
            proof {
                assert(self.entries@ =~= pre + seq![e] + post);
                assert(old_entries =~= pre + seq![displaced] + post);
                assert forall|i: int| 0 <= i < post.len() implies key < (#[trigger] post[i]).0 by {
                    assert(post[i] == old_entries[pos + 1 + i]);
                    assert(old_entries[pos as int].0 < old_entries[pos + 1 + i].0);
                }
                lemma_map_of_insert_mid(pre, e, post);
                lemma_map_of_insert_mid(pre, displaced, post);
                assert(map_of(pre + post).insert(displaced.0, displaced.1@).insert(key, value@)
                    =~= map_of(pre + post).insert(key, value@));
                assert(forall|i: int| 0 <= i < pre.len() ==> (#[trigger] pre[i]) == old_entries[i]);
                lemma_sorted_concat(pre, e, post);
            }
        } else {
            let ghost post = old_entries.subrange(pos as int, len as int);
            self.entries.insert(pos, (key, value));
            proof {
                assert(self.entries@ =~= pre + seq![e] + post);
                assert(old_entries =~= pre + post);
                assert forall|i: int| 0 <= i < post.len() implies key < (#[trigger] post[i]).0 by {
                    assert(post[i] == old_entries[pos + i]);
                    if i > 0 {
                        assert(old_entries[pos as int].0 < old_entries[pos + i].0);
                    }
                }
                lemma_map_of_insert_mid(pre, e, post);
                assert(forall|i: int| 0 <= i < pre.len() ==> (#[trigger] pre[i]) == old_entries[i]);
                lemma_sorted_concat(pre, e, post);
            }
        }
    }

    /// The entry with the least key, or `None` when the index is empty.
    pub fn first(&self) -> (r: Option<(u64, String)>)
        requires
            self.wf(),
        ensures
            (r is None) <==> self@ == Map::<u64, Seq<char>>::empty(),
            r matches Some(e) ==> self@.contains_key(e.0) && self@[e.0] == e.1@,
            r matches Some(e) ==> forall|k: u64| self@.contains_key(k) ==> e.0 <= k,
    {
        if self.entries.len() == 0 {
            proof {
                assert(self@ =~= Map::<u64, Seq<char>>::empty());
            }
            None
        } else {
            let k = self.entries[0].0;
            let v = self.entries[0].1.clone();
            proof {
                lemma_map_of_dom(self.entries@);
                lemma_map_of_values(self.entries@);
                assert(self@.contains_key(self.entries@[0].0));
                assert forall|k2: u64| self@.contains_key(k2) implies k <= k2 by {
                    let i = choose|i: int|
                        0 <= i < self.entries@.len() && (#[trigger] self.entries@[i]).0 == k2;
                    if i > 0 {
                        assert(self.entries@[0].0 < self.entries@[i].0);
                    }
                }
            }
            Some((k, v))
        }
    }

    /// The entry with the greatest key, or `None` when the index is empty.
    pub fn last(&self) -> (r: Option<(u64, String)>)
        requires
            self.wf(),
        ensures
            (r is None) <==> self@ == Map::<u64, Seq<char>>::empty(),
            r matches Some(e) ==> self@.contains_key(e.0) && self@[e.0] == e.1@,
            r matches Some(e) ==> forall|k: u64| self@.contains_key(k) ==> k <= e.0,
    {
        let len = self.entries.len();
        if len == 0 {
            proof {
                assert(self@ =~= Map::<u64, Seq<char>>::empty());
            }
            None
        } else {
            let k = self.entries[len - 1].0;
            let v = self.entries[len - 1].1.clone();
            proof {
                lemma_map_of_dom(self.entries@);
                lemma_map_of_values(self.entries@);
                assert(self@.contains_key(self.entries@[len - 1].0));
                assert forall|k2: u64| self@.contains_key(k2) implies k2 <= k by {
                    let i = choose|i: int|
                        0 <= i < self.entries@.len() && (#[trigger] self.entries@[i]).0 == k2;
                    if i < len - 1 {
                        assert(self.entries@[i].0 < self.entries@[len - 1].0);
                    }
                }
            }
            Some((k, v))
        }
    }
}

/// Running totals over every scanned file, together with the two ordered
/// extrema indexes. Built by folding one file's metrics at a time; the
/// fold is a plain sum, so its result does not depend on file order.
#[derive(Debug)]
pub struct Cache {
    /// Sum of the per-file line counts.
    pub total_lines: usize,
    /// Sum of the per-file byte sizes, kept in 64 bits so large trees
    /// do not overflow it.
    pub total_size: u64,
    /// How many files were folded in.
    pub num_files: usize,
    /// Ordered index from line count to the path of one file with that
    /// count.
    pub lines: OrderedIndex,
    /// Ordered index from byte size to the path of one file with that
    /// size.
    pub sizes: OrderedIndex,
}

impl Cache {
    /// Both indexes are well formed, and every line-index key fits back
    /// into `usize`, since each was inserted from a `usize` line count.
    pub open spec fn inv(self) -> bool {
        &&& self.lines.wf()
        &&& self.sizes.wf()
        &&& forall|k: u64| #[trigger] self.lines@.contains_key(k) ==> k <= usize::MAX
    }

    pub fn new() -> (r: Cache)
        ensures
            r.inv(),
            r.total_lines == 0,
            r.total_size == 0,
            r.num_files == 0,
            r.lines@ == Map::<u64, Seq<char>>::empty(),
            r.sizes@ == Map::<u64, Seq<char>>::empty(),
    {
        Cache {
            total_lines: 0,
            total_size: 0,
            num_files: 0,
            lines: OrderedIndex::new(),
            sizes: OrderedIndex::new(),
        }
    }

    /// Records that one file has `k` lines; an earlier file with the same
    /// line count is silently displaced from the index.
    pub fn insert_line(&mut self, k: usize, v: String)
        requires
            old(self).inv(),
        ensures
            final(self).inv(),
            final(self).lines@ == old(self).lines@.insert(k as u64, v@),
            final(self).sizes == old(self).sizes,
            final(self).total_lines == old(self).total_lines,
            final(self).total_size == old(self).total_size,
            final(self).num_files == old(self).num_files,
    {
        self.lines.insert(k as u64, v);
    }

    /// Records that one file is `k` bytes large; an earlier file of the
    /// same size is silently displaced from the index.
    pub fn insert_size(&mut self, k: u64, v: String)
        requires
            old(self).inv(),
        ensures
            final(self).inv(),
            final(self).sizes@ == old(self).sizes@.insert(k, v@),
            final(self).lines == old(self).lines,
            final(self).total_lines == old(self).total_lines,
            final(self).total_size == old(self).total_size,
            final(self).num_files == old(self).num_files,
    {
        self.sizes.insert(k, v);
    }

    /// The largest file by lines of code, or `None` when nothing was
    /// scanned.
    pub fn max_lines(&self) -> (r: Option<(usize, String)>)
        requires
            self.inv(),
        ensures
            (r is None) <==> self.lines@ == Map::<u64, Seq<char>>::empty(),
            r matches Some(e) ==> self.lines@.contains_key(e.0 as u64) && self.lines@[e.0 as u64]
                == e.1@,
            r matches Some(e) ==> forall|k: u64| self.lines@.contains_key(k) ==> k <= e.0 as u64,
    {
        match self.lines.last() {
            None => None,
            Some((k, v)) => Some((k as usize, v)),
        }
    }

    /// The file with the fewest lines of code, or `None` when nothing was
    /// scanned.
    pub fn min_lines(&self) -> (r: Option<(usize, String)>)
        requires
            self.inv(),
        ensures
            (r is None) <==> self.lines@ == Map::<u64, Seq<char>>::empty(),
            r matches Some(e) ==> self.lines@.contains_key(e.0 as u64) && self.lines@[e.0 as u64]
                == e.1@,
            r matches Some(e) ==> forall|k: u64| self.lines@.contains_key(k) ==> e.0 as u64 <= k,
    {
        match self.lines.first() {
            None => None,
            Some((k, v)) => Some((k as usize, v)),
        }
    }

    /// The average number of lines per scanned file, rounded toward zero,
    /// or `None` when nothing was scanned.
    pub fn average_lines(&self) -> (r: Option<usize>)
        ensures
            (r is None) <==> self.num_files == 0,
            r matches Some(a) ==> a == self.total_lines / self.num_files,
    {
        if self.num_files == 0 {
            None
        } else {
            Some(self.total_lines / self.num_files)
        }
    }

    /// The largest file by byte size, or `None` when nothing was scanned.
    pub fn max_size(&self) -> (r: Option<(u64, String)>)
        requires
            self.inv(),
        ensures
            (r is None) <==> self.sizes@ == Map::<u64, Seq<char>>::empty(),
            r matches Some(e) ==> self.sizes@.contains_key(e.0) && self.sizes@[e.0] == e.1@,
            r matches Some(e) ==> forall|k: u64| self.sizes@.contains_key(k) ==> k <= e.0,
    {
        self.sizes.last()
    }

    /// The smallest file by byte size, or `None` when nothing was scanned.
    pub fn min_size(&self) -> (r: Option<(u64, String)>)
        requires
            self.inv(),
        ensures
            (r is None) <==> self.sizes@ == Map::<u64, Seq<char>>::empty(),
            r matches Some(e) ==> self.sizes@.contains_key(e.0) && self.sizes@[e.0] == e.1@,
            r matches Some(e) ==> forall|k: u64| self.sizes@.contains_key(k) ==> e.0 <= k,
    {
        self.sizes.first()
    }

    /// The average byte size per scanned file, rounded toward zero, or
    /// `None` when nothing was scanned.
    pub fn average_size(&self) -> (r: Option<u64>)
        ensures
            (r is None) <==> self.num_files == 0,
            r matches Some(a) ==> a == self.total_size / (self.num_files as u64),
    {
        if self.num_files == 0 {
            None
        } else {
            Some(self.total_size / (self.num_files as u64))
        }
    }
}

} // verus!
