//! A counting map from bucket keys (seconds since the epoch) to totals,
//! kept in first-insertion order with distinct keys and sorted by key for
//! printing.

use vstd::prelude::*;

use crate::countmap::{bump_spec, count_in, idx_of, keys_distinct, lemma_bump, lemma_idx_of,
    merge_spec};

verus! {

/// A counting map keyed by bucket seconds.
pub struct HistMap {
    pub entries: Vec<(i64, u64)>,
}

impl HistMap {
    pub open spec fn view_entries(&self) -> Seq<(i64, u64)> {
        self.entries@
    }

    pub open spec fn wf(&self) -> bool {
        keys_distinct(self.entries@)
    }

    pub fn new() -> (r: HistMap)
        ensures
            r.wf(),
            r.view_entries() == Seq::<(i64, u64)>::empty(),
    {
        let r = HistMap { entries: Vec::new() };
        proof {
            assert(r.entries@ =~= Seq::<(i64, u64)>::empty());
        }
        r
    }

    /// Add `by` to bucket `key`'s total.
    pub fn bump(&mut self, key: i64, by: u64)
        requires
            old(self).wf(),
        ensures
            final(self).wf(),
            final(self).view_entries() == bump_spec(old(self).view_entries(), key, by),
    {
        let ghost pre = self.entries@;
        proof {
            lemma_idx_of(pre, key);
            lemma_bump(pre, key, by);
        }
        let n = self.entries.len();
        let mut i: usize = 0;
        while i < n
            invariant
                n == self.entries@.len(),
                i <= n,
                pre == self.entries@,
                pre == old(self).entries@,
                keys_distinct(pre),
                forall|j: int| 0 <= j < i ==> (#[trigger] pre[j].0) != key,
            decreases n - i,
        {
            if self.entries[i].0 == key {
                proof {
                    lemma_idx_of(pre, key);
                    match idx_of(pre, key) {
                        Some(i0) => {
                            if i0 < i as int {
                                assert(pre[i0].0 != key);
                            }
                            if i0 > i as int {
                                assert(pre[i as int].0 != key);
                            }
                        },
                        None => {
                            assert(pre[i as int].0 != key);
                        },
                    }
                }
                assert(idx_of(pre, key) == Some(i as int));
                let c = self.entries[i].1;
                let c2 = if by > u64::MAX - c {
                    u64::MAX
                } else {
                    c + by
                };
                self.entries[i] = (key, c2);
                return ;
            }
            i = i + 1;
        }
        assert(idx_of(pre, key) is None) by {
            lemma_idx_of(pre, key);
        }
        self.entries.push((key, by));
    }

    /// Fold the other map's totals into this one.
    pub fn merge(&mut self, other: &HistMap)
        requires
            old(self).wf(),
        ensures
            final(self).wf(),
            final(self).view_entries() == merge_spec(
                old(self).view_entries(),
                other.view_entries(),
            ),
    {
        let n = other.entries.len();
        let ghost b = other.entries@;
        proof {
            assert(b.subrange(0, n as int) =~= b);
        }
        let mut i: usize = 0;
        while i < n
            invariant
                n == other.entries@.len(),
                b == other.entries@,
                i <= n,
                self.wf(),
                merge_spec(old(self).entries@, b) == merge_spec(
                    self.entries@,
                    b.subrange(i as int, n as int),
                ),
            decreases n - i,
        {
            let ghost rest = b.subrange(i as int, n as int);
            let (k, c) = (other.entries[i].0, other.entries[i].1);
            proof {
                lemma_bump(self.entries@, b[i as int].0, b[i as int].1);
                assert(rest[0] == b[i as int]);
                assert(rest.drop_first() =~= b.subrange(i + 1, n as int));
            }
            self.bump(k, c);
            i = i + 1;
        }
        assert(b.subrange(i as int, n as int) =~= Seq::<(i64, u64)>::empty());
    }

    /// The total recorded for a bucket.
    pub fn get_count(&self, key: i64) -> (r: u64)
        ensures
            r == count_in(self.view_entries(), key),
    {
        let n = self.entries.len();
        proof {
            lemma_idx_of(self.entries@, key);
        }
        let mut i: usize = 0;
        while i < n
            invariant
                n == self.entries@.len(),
                i <= n,
                forall|j: int| 0 <= j < i ==> (#[trigger] self.entries@[j].0) != key,
            decreases n - i,
        {
            if self.entries[i].0 == key {
                proof {
                    lemma_idx_of(self.entries@, key);
                }
                return self.entries[i].1;
            }
            i = i + 1;
        }
        proof {
            lemma_idx_of(self.entries@, key);
        }
        0
    }

    /// The buckets in chronological order.
    pub fn sorted_entries(&self) -> (r: Vec<(i64, u64)>)
        ensures
            sorted_by_key(r@),
            r@.to_multiset() == self.view_entries().to_multiset(),
    {
        broadcast use vstd::seq_lib::group_to_multiset_ensures;

        let n = self.entries.len();
        let mut v: Vec<(i64, u64)> = Vec::new();
        proof {
            assert(v@.to_multiset() =~= self.entries@.subrange(0, 0).to_multiset()) by {
                assert(v@ =~= Seq::<(i64, u64)>::empty());
                assert(self.entries@.subrange(0, 0) =~= Seq::<(i64, u64)>::empty());
            }
        }
        let mut i: usize = 0;
        while i < n
            invariant
                i <= n,
                n == self.entries@.len(),
                sorted_by_key(v@),
                v@.to_multiset() == self.entries@.subrange(0, i as int).to_multiset(),
            decreases n - i,
        {
            let e = self.entries[i];
            let m = v.len();
            let mut p: usize = 0;
            while p < m && v[p].0 <= e.0
                invariant
                    p <= m,
                    m == v@.len(),
                    forall|t: int| 0 <= t < p ==> (#[trigger] v@[t]).0 <= e.0,
                decreases m - p,
            {
                p = p + 1;
            }
            let ghost vpre = v@;
            v.insert(p, e);
            proof {
                assert(v@ == vpre.insert(p as int, e));
                assert forall|a: int, b2: int| 0 <= a < b2 < v@.len() implies (
                #[trigger] v@[a]).0 <= (#[trigger] v@[b2]).0 by {
                    if a < p as int && b2 > p as int {
                        assert(v@[b2] == vpre[b2 - 1]);
                    } else if a == p as int && b2 > p as int {
                        assert(v@[b2] == vpre[b2 - 1]);
                    } else if a > p as int {
                        assert(v@[a] == vpre[a - 1] && v@[b2] == vpre[b2 - 1]);
                    }
                }
                vstd::seq_lib::to_multiset_insert(vpre, p as int, e);
                let pre_slice = self.entries@.subrange(0, i as int);
                assert(self.entries@.subrange(0, i + 1) =~= pre_slice.push(e));
                vstd::seq_lib::to_multiset_build(pre_slice, e);
            }
            i = i + 1;
        }
        assert(self.entries@.subrange(0, n as int) =~= self.entries@);
        v
    }
}

/// `sorted` lists exactly the buckets, in chronological order.
pub open spec fn is_chrono_sorted(entries: Seq<(i64, u64)>, sorted: Seq<(i64, u64)>) -> bool {
    sorted_by_key(sorted) && sorted.to_multiset() == entries.to_multiset()
}

/// The largest total among the buckets.
pub open spec fn max_count(s: Seq<(i64, u64)>) -> u64
    decreases s.len(),
{
    if s.len() == 0 {
        0u64
    } else if s.last().1 > max_count(s.drop_last()) {
        s.last().1
    } else {
        max_count(s.drop_last())
    }
}

/// Ascending by bucket key.
pub open spec fn sorted_by_key(s: Seq<(i64, u64)>) -> bool {
    forall|i: int, j: int| 0 <= i < j < s.len() ==> (#[trigger] s[i]).0 <= (#[trigger] s[j]).0
}

} // verus!
