//! A counting map from byte-string keys to totals, kept as an association
//! list in first-insertion order with distinct keys. Merging adds counts
//! key-wise; counts saturate instead of wrapping.

use vstd::prelude::*;

use crate::bytes_util::{copy_bytes, eq_bytes};

verus! {

/// Saturating addition on totals.
pub open spec fn sat_add(a: u64, b: u64) -> u64 {
    if a + b > u64::MAX {
        u64::MAX
    } else {
        (a + b) as u64
    }
}

/// Saturating addition is associative and commutative, so shard totals can
/// merge in any grouping.
pub proof fn lemma_sat_add_assoc(a: u64, b: u64, c: u64)
    ensures
        sat_add(sat_add(a, b), c) == sat_add(a, sat_add(b, c)),
        sat_add(a, b) == sat_add(b, a),
{
}

/// First index holding key `k`, if any.
pub open spec fn idx_of<K>(s: Seq<(K, u64)>, k: K) -> Option<int>
    decreases s.len(),
{
    if s.len() == 0 {
        None
    } else if s[0].0 == k {
        Some(0int)
    } else {
        match idx_of(s.drop_first(), k) {
            None => None,
            Some(i) => Some(i + 1),
        }
    }
}

/// The total recorded for key `k`; a missing key counts zero.
pub open spec fn count_in<K>(s: Seq<(K, u64)>, k: K) -> u64
    decreases s.len(),
{
    if s.len() == 0 {
        0u64
    } else if s[0].0 == k {
        s[0].1
    } else {
        count_in(s.drop_first(), k)
    }
}

/// All keys distinct.
pub open spec fn keys_distinct<K>(s: Seq<(K, u64)>) -> bool {
    forall|i: int, j: int| 0 <= i < j < s.len() ==> (#[trigger] s[i].0) != (#[trigger] s[j].0)
}

/// Add `by` to key `k`'s total, inserting the key at the end when new.
pub open spec fn bump_spec<K>(s: Seq<(K, u64)>, k: K, by: u64) -> Seq<(K, u64)> {
    match idx_of(s, k) {
        Some(i) => s.update(i, (k, sat_add(s[i].1, by))),
        None => s.push((k, by)),
    }
}

/// Fold `bump_spec` over the entries of `b`, in order.
pub open spec fn merge_spec<K>(a: Seq<(K, u64)>, b: Seq<(K, u64)>) -> Seq<(K, u64)>
    decreases b.len(),
{
    if b.len() == 0 {
        a
    } else {
        merge_spec(bump_spec(a, b[0].0, b[0].1), b.drop_first())
    }
}

pub proof fn lemma_idx_of<K>(s: Seq<(K, u64)>, k: K)
    ensures
        match idx_of(s, k) {
            Some(i) => 0 <= i < s.len() && s[i].0 == k && count_in(s, k) == s[i].1 && forall|j: int|
                0 <= j < i ==> (#[trigger] s[j].0) != k,
            None => count_in(s, k) == 0 && forall|j: int|
                0 <= j < s.len() ==> (#[trigger] s[j].0) != k,
        },
    decreases s.len(),
{
    if s.len() > 0 && s[0].0 != k {
        lemma_idx_of(s.drop_first(), k);
        assert(forall|j: int|
            1 <= j < s.len() ==> #[trigger] s[j] == s.drop_first()[j - 1]);
    }
}

/// Bumping changes exactly one key's total and keeps keys distinct.
pub proof fn lemma_bump<K>(s: Seq<(K, u64)>, k: K, by: u64)
    requires
        keys_distinct(s),
    ensures
        keys_distinct(bump_spec(s, k, by)),
        count_in(bump_spec(s, k, by), k) == sat_add(count_in(s, k), by),
        forall|k2: K| k2 != k ==> #[trigger] count_in(bump_spec(s, k, by), k2) == count_in(s, k2),
    decreases s.len(),
{
    lemma_idx_of(s, k);
    match idx_of(s, k) {
        Some(i) => {
            let s2 = s.update(i, (k, sat_add(s[i].1, by)));
            assert(keys_distinct(s2));
            lemma_count_update(s, i, (k, sat_add(s[i].1, by)));
        },
        None => {
            let s2 = s.push((k, by));
            assert forall|a: int, b: int| 0 <= a < b < s2.len() implies (#[trigger] s2[a].0) != (
            #[trigger] s2[b].0) by {
                if b < s.len() {
                } else {
                    assert(s2[b] == (k, by));
                    assert(s[a].0 != k);
                }
            }
            lemma_count_push(s, (k, by));
        },
    }
}

/// Counts after updating index `i` with an entry of the same key.
proof fn lemma_count_update_one<K>(s: Seq<(K, u64)>, i: int, e: (K, u64), k2: K)
    requires
        keys_distinct(s),
        0 <= i < s.len(),
        e.0 == s[i].0,
    ensures
        count_in(s.update(i, e), k2) == if k2 == e.0 {
            e.1
        } else {
            count_in(s, k2)
        },
    decreases s.len(),
{
    let s2 = s.update(i, e);
    if i == 0 {
        assert(s2[0] == e);
        assert(s2.drop_first() =~= s.drop_first());
    } else {
        assert(s2[0] == s[0]);
        assert(s2.drop_first() =~= s.drop_first().update(i - 1, e));
        assert(keys_distinct(s.drop_first())) by {
            assert(forall|j: int|
                0 <= j < s.len() - 1 ==> #[trigger] s.drop_first()[j] == s[j + 1]);
        }
        assert(s.drop_first()[i - 1] == s[i]);
        lemma_count_update_one(s.drop_first(), i - 1, e, k2);
        assert(s[0].0 != e.0);
    }
}

proof fn lemma_count_update<K>(s: Seq<(K, u64)>, i: int, e: (K, u64))
    requires
        keys_distinct(s),
        0 <= i < s.len(),
        e.0 == s[i].0,
    ensures
        count_in(s.update(i, e), e.0) == e.1,
        forall|k2: K| k2 != e.0 ==> #[trigger] count_in(s.update(i, e), k2) == count_in(
            s,
            k2,
        ),
    decreases s.len(),
{
    lemma_count_update_one(s, i, e, e.0);
    assert forall|k2: K| k2 != e.0 implies #[trigger] count_in(s.update(i, e), k2) == count_in(
        s,
        k2,
    ) by {
        lemma_count_update_one(s, i, e, k2);
    }
}

/// Counts after appending a fresh key.
proof fn lemma_count_push<K>(s: Seq<(K, u64)>, e: (K, u64))
    requires
        forall|j: int| 0 <= j < s.len() ==> (#[trigger] s[j].0) != e.0,
    ensures
        count_in(s.push(e), e.0) == e.1,
        forall|k2: K| k2 != e.0 ==> #[trigger] count_in(s.push(e), k2) == count_in(s, k2),
    decreases s.len(),
{
    let s2 = s.push(e);
    if s.len() == 0 {
        assert(s2[0] == e);
        assert(s2.drop_first() =~= Seq::<(K, u64)>::empty());
        assert(count_in(s2, e.0) == e.1);
        assert forall|k2: K| k2 != e.0 implies #[trigger] count_in(s2, k2) == count_in(
            s,
            k2,
        ) by {
            assert(count_in(s2.drop_first(), k2) == 0);
        }
    } else {
        assert(s2[0] == s[0]);
        assert(s2.drop_first() =~= s.drop_first().push(e));
        assert(forall|j: int| 0 <= j < s.len() - 1 ==> #[trigger] s.drop_first()[j] == s[j + 1]);
        lemma_count_push(s.drop_first(), e);
        assert(s[0].0 != e.0);
        assert(count_in(s2, e.0) == count_in(s2.drop_first(), e.0));
        assert forall|k2: K| k2 != e.0 implies #[trigger] count_in(s2, k2) == count_in(
            s,
            k2,
        ) by {
            if s[0].0 == k2 {
            } else {
                assert(count_in(s2, k2) == count_in(s2.drop_first(), k2));
            }
        }
    }
}

/// Merging keeps keys distinct and adds totals key-wise: the heart of the
/// aggregators' partition invariance.
pub proof fn lemma_merge<K>(a: Seq<(K, u64)>, b: Seq<(K, u64)>)
    requires
        keys_distinct(a),
    ensures
        keys_distinct(merge_spec(a, b)),
        forall|k: K| #[trigger] count_in(merge_spec(a, b), k) == sat_add(
            count_in(a, k),
            sum_counts(b, k),
        ),
    decreases b.len(),
{
    if b.len() == 0 {
        assert(forall|k: K| #[trigger] sum_counts(b, k) == 0);
    } else {
        lemma_bump(a, b[0].0, b[0].1);
        lemma_merge(bump_spec(a, b[0].0, b[0].1), b.drop_first());
        assert forall|k: K| #[trigger] count_in(merge_spec(a, b), k) == sat_add(
            count_in(a, k),
            sum_counts(b, k),
        ) by {
            let a2 = bump_spec(a, b[0].0, b[0].1);
            if k == b[0].0 {
                assert(count_in(a2, k) == sat_add(count_in(a, k), b[0].1));
            } else {
                assert(count_in(a2, k) == count_in(a, k));
            }
        }
    }
}

/// The sum of every total `b` records for key `k` (its entries need not be
/// distinct), saturating.
pub open spec fn sum_counts<K>(b: Seq<(K, u64)>, k: K) -> u64
    decreases b.len(),
{
    if b.len() == 0 {
        0u64
    } else if b[0].0 == k {
        sat_add(b[0].1, sum_counts(b.drop_first(), k))
    } else {
        sum_counts(b.drop_first(), k)
    }
}

/// Appending an entry moves a key's first index only when the key was
/// absent.
pub proof fn lemma_idx_of_push<K>(s: Seq<(K, u64)>, e: (K, u64), k: K)
    ensures
        idx_of(s.push(e), k) == match idx_of(s, k) {
            Some(i) => Some(i),
            None => if e.0 == k {
                Some(s.len() as int)
            } else {
                None
            },
        },
    decreases s.len(),
{
    let s2 = s.push(e);
    if s.len() == 0 {
        assert(s2.drop_first() =~= Seq::<(K, u64)>::empty());
    } else {
        assert(s2[0] == s[0]);
        assert(s2.drop_first() =~= s.drop_first().push(e));
        lemma_idx_of_push(s.drop_first(), e, k);
    }
}

/// A key's first index depends only on the key column.
pub proof fn lemma_idx_of_same_keys<K>(s1: Seq<(K, u64)>, s2: Seq<(K, u64)>, k: K)
    requires
        s1.len() == s2.len(),
        forall|t: int| 0 <= t < s1.len() ==> (#[trigger] s1[t]).0 == s2[t].0,
    ensures
        idx_of(s1, k) == idx_of(s2, k),
    decreases s1.len(),
{
    if s1.len() > 0 {
        assert(forall|t: int|
            0 <= t < s1.len() - 1 ==> (#[trigger] s1.drop_first()[t]) == s1[t + 1]);
        assert(forall|t: int|
            0 <= t < s2.len() - 1 ==> (#[trigger] s2.drop_first()[t]) == s2[t + 1]);
        lemma_idx_of_same_keys(s1.drop_first(), s2.drop_first(), k);
    }
}

/// Two bumps of one key collapse into one bump of the added totals.
pub proof fn lemma_bump_same_key<K>(s: Seq<(K, u64)>, k: K, c1: u64, c2: u64)
    requires
        keys_distinct(s),
    ensures
        bump_spec(bump_spec(s, k, c1), k, c2) == bump_spec(s, k, sat_add(c1, c2)),
{
    lemma_idx_of(s, k);
    match idx_of(s, k) {
        Some(i) => {
            let s1 = s.update(i, (k, sat_add(s[i].1, c1)));
            lemma_idx_of_same_keys(s1, s, k);
            assert(s1[i] == (k, sat_add(s[i].1, c1)));
            assert(bump_spec(s1, k, c2) =~= s.update(i, (k, sat_add(s[i].1, sat_add(c1, c2)))));
        },
        None => {
            let s1 = s.push((k, c1));
            lemma_idx_of_push(s, (k, c1), k);
            assert(idx_of(s1, k) == Some(s.len() as int));
            assert(s1[s.len() as int] == (k, c1));
            assert(bump_spec(s1, k, c2) =~= s.push((k, sat_add(c1, c2))));
        },
    }
}

/// Bumps of two different keys commute when the first key is already
/// present, so its position cannot move.
pub proof fn lemma_bump_commute<K>(s: Seq<(K, u64)>, k1: K, c1: u64, k2: K, c2: u64)
    requires
        keys_distinct(s),
        idx_of(s, k1) is Some,
        k1 != k2,
    ensures
        bump_spec(bump_spec(s, k1, c1), k2, c2) == bump_spec(bump_spec(s, k2, c2), k1, c1),
{
    lemma_idx_of(s, k1);
    lemma_idx_of(s, k2);
    let i = idx_of(s, k1).unwrap();
    let e1 = (k1, sat_add(s[i].1, c1));
    let s1 = s.update(i, e1);
    lemma_idx_of_same_keys(s1, s, k1);
    lemma_idx_of_same_keys(s1, s, k2);
    match idx_of(s, k2) {
        Some(j) => {
            let e2 = (k2, sat_add(s[j].1, c2));
            let s2 = s.update(j, e2);
            lemma_idx_of_same_keys(s2, s, k1);
            lemma_idx_of_same_keys(s2, s, k2);
            assert(i != j);
            assert(s1[j].1 == s[j].1);
            assert(s2[i].1 == s[i].1);
            assert(bump_spec(s1, k2, c2) =~= bump_spec(s2, k1, c1));
        },
        None => {
            lemma_idx_of_push(s, (k2, c2), k1);
            lemma_idx_of_same_keys(s.push((k2, c2)), s1.push((k2, c2)), k1);
            assert(idx_of(s1, k2) is None);
            let s2 = s.push((k2, c2));
            assert(idx_of(s2, k1) == Some(i));
            assert(s2[i].1 == s[i].1);
            assert(bump_spec(s1, k2, c2) =~= bump_spec(s2, k1, c1));
        },
    }
}

/// Merging a list with one entry appended bumps that entry last.
pub proof fn lemma_merge_push<K>(a: Seq<(K, u64)>, b: Seq<(K, u64)>, e: (K, u64))
    ensures
        merge_spec(a, b.push(e)) == bump_spec(merge_spec(a, b), e.0, e.1),
    decreases b.len(),
{
    let b2 = b.push(e);
    assert(b2.len() == b.len() + 1);
    assert(merge_spec(a, b2) == merge_spec(bump_spec(a, b2[0].0, b2[0].1), b2.drop_first()));
    if b.len() == 0 {
        assert(b2[0] == e);
        assert(b2.drop_first() =~= Seq::<(K, u64)>::empty());
        assert(merge_spec(bump_spec(a, e.0, e.1), b2.drop_first()) == bump_spec(a, e.0, e.1));
        assert(merge_spec(a, b) == a);
    } else {
        assert(b2[0] == b[0]);
        assert(b2.drop_first() =~= b.drop_first().push(e));
        lemma_merge_push(bump_spec(a, b[0].0, b[0].1), b.drop_first(), e);
        assert(merge_spec(a, b) == merge_spec(bump_spec(a, b[0].0, b[0].1), b.drop_first()));
    }
}

/// A bump of a key foreign to `b` floats out of the merge, provided the
/// key is already present on the accumulator side.
proof fn lemma_merge_bump_foreign<K>(a: Seq<(K, u64)>, k: K, c: u64, b: Seq<(K, u64)>)
    requires
        keys_distinct(a),
        idx_of(a, k) is Some,
        forall|t: int| 0 <= t < b.len() ==> (#[trigger] b[t]).0 != k,
    ensures
        merge_spec(bump_spec(a, k, c), b) == bump_spec(merge_spec(a, b), k, c),
    decreases b.len(),
{
    if b.len() == 0 {
    } else {
        let y = b[0];
        lemma_bump_commute(a, k, c, y.0, y.1);
        lemma_bump(a, y.0, y.1);
        lemma_idx_of(a, k);
        lemma_idx_of(bump_spec(a, y.0, y.1), k);
        // the key stays present after the other bump
        assert(idx_of(bump_spec(a, y.0, y.1), k) is Some) by {
            lemma_idx_of(a, y.0);
            match idx_of(a, y.0) {
                Some(j) => {
                    lemma_idx_of_same_keys(a.update(j, (y.0, sat_add(a[j].1, y.1))), a, k);
                },
                None => {
                    lemma_idx_of_push(a, (y.0, y.1), k);
                },
            }
        }
        lemma_merge_bump_foreign(bump_spec(a, y.0, y.1), k, c, b.drop_first());
    }
}

/// Merging after a bump of `b` equals merging `b` and bumping after: the
/// exchange at the heart of bit-exact partition invariance.
pub proof fn lemma_merge_bump<K>(a: Seq<(K, u64)>, b: Seq<(K, u64)>, k: K, c: u64)
    requires
        keys_distinct(a),
        keys_distinct(b),
    ensures
        merge_spec(a, bump_spec(b, k, c)) == bump_spec(merge_spec(a, b), k, c),
    decreases b.len(),
{
    lemma_idx_of(b, k);
    match idx_of(b, k) {
        None => {
            lemma_merge_push(a, b, (k, c));
        },
        Some(i) => {
            let bk = bump_spec(b, k, c);
            assert(bk == b.update(i, (k, sat_add(b[i].1, c))));
            if i == 0 {
                // the head is the bumped key: collapse the two bumps
                assert(bk[0] == (k, sat_add(b[0].1, c)));
                assert(bk.drop_first() =~= b.drop_first());
                lemma_bump_same_key(a, k, b[0].1, c);
                let a1 = bump_spec(a, k, b[0].1);
                lemma_bump(a, k, b[0].1);
                lemma_idx_of(a1, k);
                assert(idx_of(a1, k) is Some) by {
                    lemma_idx_of(a, k);
                    match idx_of(a, k) {
                        Some(j) => {
                            lemma_idx_of_same_keys(
                                a.update(j, (k, sat_add(a[j].1, b[0].1))),
                                a,
                                k,
                            );
                        },
                        None => {
                            lemma_idx_of_push(a, (k, b[0].1), k);
                        },
                    }
                }
                assert(forall|t: int|
                    0 <= t < b.drop_first().len() ==> (#[trigger] b.drop_first()[t]).0
                        != k) by {
                    assert(forall|t: int|
                        0 <= t < b.len() - 1 ==> (#[trigger] b.drop_first()[t]) == b[t + 1]);
                }
                lemma_merge_bump_foreign(a1, k, c, b.drop_first());
            } else {
                // the head key differs: push it into the accumulator first
                assert(bk[0] == b[0]);
                assert(bk.drop_first() =~= b.drop_first().update(i - 1, (k, sat_add(b[i].1, c))));
                assert(keys_distinct(b.drop_first())) by {
                    assert(forall|t: int|
                        0 <= t < b.len() - 1 ==> (#[trigger] b.drop_first()[t]) == b[t + 1]);
                }
                assert(idx_of(b.drop_first(), k) == Some(i - 1)) by {
                    assert(forall|t: int|
                        0 <= t < b.len() - 1 ==> (#[trigger] b.drop_first()[t]) == b[t + 1]);
                    lemma_idx_of(b.drop_first(), k);
                    match idx_of(b.drop_first(), k) {
                        Some(j2) => {
                            if j2 < i - 1 {
                                assert(b[j2 + 1].0 == k);
                            }
                            if j2 > i - 1 {
                                assert(b.drop_first()[i - 1].0 == k);
                            }
                        },
                        None => {
                            assert(b.drop_first()[i - 1].0 == k);
                        },
                    }
                }
                assert(b.drop_first()[i - 1] == b[i as int]);
                assert(bk.drop_first() =~= bump_spec(b.drop_first(), k, c));
                let a1 = bump_spec(a, b[0].0, b[0].1);
                lemma_bump(a, b[0].0, b[0].1);
                lemma_merge_bump(a1, b.drop_first(), k, c);
            }
        },
    }
}

/// A counting map from byte-string keys to saturating totals.
pub struct CountMap {
    pub entries: Vec<(Vec<u8>, u64)>,
}

impl CountMap {
    /// The entries as key sequences and totals, in insertion order.
    pub open spec fn view_entries(&self) -> Seq<(Seq<u8>, u64)> {
        Seq::new(self.entries@.len(), |i: int| (self.entries@[i].0@, self.entries@[i].1))
    }

    pub open spec fn wf(&self) -> bool {
        keys_distinct(self.view_entries())
    }

    pub fn new() -> (r: CountMap)
        ensures
            r.wf(),
            r.view_entries() == Seq::<(Seq<u8>, u64)>::empty(),
    {
        let r = CountMap { entries: Vec::new() };
        proof {
            assert(r.view_entries() =~= Seq::<(Seq<u8>, u64)>::empty());
        }
        r
    }

    /// Add `by` to `key`'s total.
    pub fn bump(&mut self, key: &[u8], by: u64)
        requires
            old(self).wf(),
        ensures
            final(self).wf(),
            final(self).view_entries() == bump_spec(old(self).view_entries(), key@, by),
    {
        let ghost pre = self.view_entries();
        proof {
            lemma_idx_of(pre, key@);
            lemma_bump(pre, key@, by);
        }
        let n = self.entries.len();
        let mut i: usize = 0;
        while i < n
            invariant
                n == self.entries@.len(),
                i <= n,
                pre == self.view_entries(),
                pre == old(self).view_entries(),
                keys_distinct(pre),
                forall|j: int| 0 <= j < i ==> (#[trigger] pre[j].0) != key@,
            decreases n - i,
        {
            if eq_bytes(self.entries[i].0.as_slice(), key) {
                assert(pre[i as int].0 == key@);
                proof {
                    lemma_idx_of(pre, key@);
                    match idx_of(pre, key@) {
                        Some(i0) => {
                            if i0 < i as int {
                                assert(pre[i0].0 != key@);
                            }
                            if i0 > i as int {
                                assert(pre[i as int].0 != key@);
                            }
                            assert(i0 == i as int);
                        },
                        None => {
                            assert(pre[i as int].0 != key@);
                        },
                    }
                }
                assert(idx_of(pre, key@) == Some(i as int));
                let c = self.entries[i].1;
                let c2 = if by > u64::MAX - c {
                    u64::MAX
                } else {
                    c + by
                };
                assert(c2 == sat_add(pre[i as int].1, by));
                let k2 = copy_bytes(key);
                self.entries[i] = (k2, c2);
                proof {
                    assert(self.view_entries() =~= pre.update(
                        i as int,
                        (key@, sat_add(pre[i as int].1, by)),
                    ));
                    assert(bump_spec(pre, key@, by) == pre.update(
                        i as int,
                        (key@, sat_add(pre[i as int].1, by)),
                    ));
                }
                return ;
            }
            i = i + 1;
        }
        assert(idx_of(pre, key@) is None) by {
            lemma_idx_of(pre, key@);
        }
        let k2 = copy_bytes(key);
        self.entries.push((k2, by));
        proof {
            assert(self.view_entries() =~= pre.push((key@, by)));
        }
    }

    /// Fold the other map's totals into this one.
    pub fn merge(&mut self, other: &CountMap)
        requires
            old(self).wf(),
        ensures
            final(self).wf(),
            final(self).view_entries() == merge_spec(
                old(self).view_entries(),
                other.view_entries(),
            ),
    {
        let n = other.entries.len();
        let ghost b = other.view_entries();
        proof {
            assert(b.subrange(0, n as int) =~= b);
        }
        let mut i: usize = 0;
        while i < n
            invariant
                n == other.entries@.len(),
                b == other.view_entries(),
                i <= n,
                self.wf(),
                merge_spec(old(self).view_entries(), b) == merge_spec(
                    self.view_entries(),
                    b.subrange(i as int, n as int),
                ),
            decreases n - i,
        {
            let ghost pre = self.view_entries();
            let ghost rest = b.subrange(i as int, n as int);
            let (k, c) = (copy_bytes(other.entries[i].0.as_slice()), other.entries[i].1);
            proof {
                lemma_bump(pre, b[i as int].0, b[i as int].1);
                assert(rest[0] == b[i as int]);
                assert(rest.drop_first() =~= b.subrange(i + 1, n as int));
            }
            self.bump(k.as_slice(), c);
            i = i + 1;
        }
        assert(b.subrange(i as int, n as int) =~= Seq::<(Seq<u8>, u64)>::empty());
    }

    /// The entries ordered for printing: descending by total, ties broken
    /// by ascending key.
    pub fn sorted_entries(&self) -> (r: Vec<(Vec<u8>, u64)>)
        ensures
            sorted_print_order(view_of(r@)),
            view_of(r@).to_multiset() == self.view_entries().to_multiset(),
    {
        let r = sort_entries_desc(&self.entries);
        proof {
            assert(view_of(self.entries@) =~= self.view_entries());
        }
        r
    }

    /// The total recorded for a key.
    pub fn get_count(&self, key: &[u8]) -> (r: u64)
        ensures
            r == count_in(self.view_entries(), key@),
    {
        let n = self.entries.len();
        let mut i: usize = 0;
        proof {
            lemma_idx_of(self.view_entries(), key@);
        }
        while i < n
            invariant
                n == self.entries@.len(),
                i <= n,
                forall|j: int| 0 <= j < i ==> (#[trigger] self.view_entries()[j].0) != key@,
            decreases n - i,
        {
            if eq_bytes(self.entries[i].0.as_slice(), key) {
                assert(self.view_entries()[i as int].0 == key@);
                proof {
                    lemma_idx_of(self.view_entries(), key@);
                }
                return self.entries[i].1;
            }
            i = i + 1;
        }
        proof {
            lemma_idx_of(self.view_entries(), key@);
        }
        0
    }
}


/// Lexicographic order on byte strings.
pub open spec fn bytes_le(a: Seq<u8>, b: Seq<u8>) -> bool
    decreases a.len(),
{
    if a.len() == 0 {
        true
    } else if b.len() == 0 {
        false
    } else if a[0] < b[0] {
        true
    } else if a[0] > b[0] {
        false
    } else {
        bytes_le(a.drop_first(), b.drop_first())
    }
}

/// Print order on entries: larger totals first, ties by ascending key.
pub open spec fn entry_le(x: (Seq<u8>, u64), y: (Seq<u8>, u64)) -> bool {
    x.1 > y.1 || (x.1 == y.1 && bytes_le(x.0, y.0))
}

/// The view of a vector of entries.
pub open spec fn view_of(s: Seq<(Vec<u8>, u64)>) -> Seq<(Seq<u8>, u64)> {
    Seq::new(s.len(), |i: int| (s[i].0@, s[i].1))
}

pub proof fn lemma_bytes_le_total(a: Seq<u8>, b: Seq<u8>)
    ensures
        bytes_le(a, b) || bytes_le(b, a),
    decreases a.len(),
{
    if a.len() > 0 && b.len() > 0 && a[0] == b[0] {
        lemma_bytes_le_total(a.drop_first(), b.drop_first());
    }
}

pub proof fn lemma_bytes_le_trans(a: Seq<u8>, b: Seq<u8>, c: Seq<u8>)
    requires
        bytes_le(a, b),
        bytes_le(b, c),
    ensures
        bytes_le(a, c),
    decreases a.len(),
{
    if a.len() > 0 && b.len() > 0 && c.len() > 0 && a[0] == b[0] && b[0] == c[0] {
        lemma_bytes_le_trans(a.drop_first(), b.drop_first(), c.drop_first());
    }
}

pub proof fn lemma_entry_le_total(x: (Seq<u8>, u64), y: (Seq<u8>, u64))
    ensures
        entry_le(x, y) || entry_le(y, x),
{
    lemma_bytes_le_total(x.0, y.0);
}

pub proof fn lemma_entry_le_trans(x: (Seq<u8>, u64), y: (Seq<u8>, u64), z: (Seq<u8>, u64))
    requires
        entry_le(x, y),
        entry_le(y, z),
    ensures
        entry_le(x, z),
{
    if x.1 == y.1 && y.1 == z.1 {
        lemma_bytes_le_trans(x.0, y.0, z.0);
    }
}

fn bytes_le_exec(a: &[u8], b: &[u8]) -> (r: bool)
    ensures
        r == bytes_le(a@, b@),
    decreases a@.len(),
{
    let an = a.len();
    let bn = b.len();
    proof {
        assert(a@.subrange(0, an as int) =~= a@);
        assert(b@.subrange(0, bn as int) =~= b@);
    }
    let mut i: usize = 0;
    loop
        invariant
            i <= an,
            i <= bn,
            an == a@.len(),
            bn == b@.len(),
            bytes_le(a@, b@) == bytes_le(
                a@.subrange(i as int, an as int),
                b@.subrange(i as int, bn as int),
            ),
        decreases an - i,
    {
        let ghost ar = a@.subrange(i as int, an as int);
        let ghost br = b@.subrange(i as int, bn as int);
        if i >= an {
            assert(ar.len() == 0);
            return true;
        }
        if i >= bn {
            assert(br.len() == 0 && ar.len() > 0);
            return false;
        }
        proof {
            assert(ar[0] == a@[i as int] && br[0] == b@[i as int]);
            assert(ar.drop_first() =~= a@.subrange(i + 1, an as int));
            assert(br.drop_first() =~= b@.subrange(i + 1, bn as int));
        }
        if a[i] < b[i] {
            return true;
        }
        if a[i] > b[i] {
            return false;
        }
        i = i + 1;
    }
}

fn entry_le_exec(x: &(Vec<u8>, u64), y: &(Vec<u8>, u64)) -> (r: bool)
    ensures
        r == entry_le((x.0@, x.1), (y.0@, y.1)),
{
    if x.1 > y.1 {
        true
    } else if x.1 == y.1 {
        bytes_le_exec(x.0.as_slice(), y.0.as_slice())
    } else {
        false
    }
}

/// Entries sorted for printing: descending by total, ties broken by
/// ascending key; the entries themselves are preserved.
pub fn sort_entries_desc(entries: &Vec<(Vec<u8>, u64)>) -> (r: Vec<(Vec<u8>, u64)>)
    ensures
        sorted_print_order(view_of(r@)),
        view_of(r@).to_multiset() == view_of(entries@).to_multiset(),
{
    broadcast use vstd::seq_lib::group_to_multiset_ensures;

    let n = entries.len();
    let mut v: Vec<(Vec<u8>, u64)> = Vec::new();
    let mut i: usize = 0;
    proof {
        assert(view_of(v@).to_multiset() =~= view_of(entries@.subrange(0, 0)).to_multiset()) by {
            assert(view_of(v@) =~= Seq::<(Seq<u8>, u64)>::empty());
            assert(view_of(entries@.subrange(0, 0)) =~= Seq::<(Seq<u8>, u64)>::empty());
        }
    }
    while i < n
        invariant
            i <= n,
            n == entries@.len(),
            sorted_print_order(view_of(v@)),
            view_of(v@).to_multiset() == view_of(entries@.subrange(0, i as int)).to_multiset(),
        decreases n - i,
    {
        let e = (copy_bytes(entries[i].0.as_slice()), entries[i].1);
        let ghost ev = (e.0@, e.1);
        // find the insertion point
        let m = v.len();
        let mut p: usize = 0;
        while p < m && entry_le_exec(&v[p], &e)
            invariant
                p <= m,
                m == v@.len(),
                ev == (e.0@, e.1),
                forall|t: int| 0 <= t < p ==> entry_le(((#[trigger] v@[t]).0@, v@[t].1), ev),
            decreases m - p,
        {
            p = p + 1;
        }
        let ghost vpre = view_of(v@);
        proof {
            assert(forall|t: int|
                0 <= t < p ==> #[trigger] vpre[t] == (v@[t].0@, v@[t].1));
        }
        v.insert(p, e);
        proof {
            assert(view_of(v@) =~= vpre.insert(p as int, ev));
            lemma_sorted_insert(vpre, p as int, ev);
            // multiset bookkeeping
            vstd::seq_lib::to_multiset_insert(vpre, p as int, ev);
            let ghost pre_slice = view_of(entries@.subrange(0, i as int));
            let ghost new_slice = view_of(entries@.subrange(0, i + 1));
            assert(new_slice =~= pre_slice.push(ev)) by {
                assert(forall|t: int|
                    0 <= t < i ==> entries@.subrange(0, i + 1)[t] == #[trigger] entries@.subrange(
                        0,
                        i as int,
                    )[t]);
            }
            vstd::seq_lib::to_multiset_build(pre_slice, ev);
        }
        i = i + 1;
    }
    assert(entries@.subrange(0, n as int) =~= entries@);
    v
}

/// `sorted` lists exactly the entries, in print order: descending by
/// total with ties broken by ascending key.
pub open spec fn is_print_sorted(entries: Seq<(Seq<u8>, u64)>, sorted: Seq<(Seq<u8>, u64)>) -> bool {
    sorted_print_order(sorted) && sorted.to_multiset() == entries.to_multiset()
}

/// The print order, stated over entry views.
pub open spec fn sorted_print_order(s: Seq<(Seq<u8>, u64)>) -> bool {
    forall|i: int, j: int| 0 <= i < j < s.len() ==> entry_le(#[trigger] s[i], #[trigger] s[j])
}

proof fn lemma_sorted_insert(s: Seq<(Seq<u8>, u64)>, p: int, e: (Seq<u8>, u64))
    requires
        sorted_print_order(s),
        0 <= p <= s.len(),
        forall|t: int| 0 <= t < p ==> entry_le(#[trigger] s[t], e),
        p < s.len() ==> !entry_le(s[p], e),
    ensures
        sorted_print_order(s.insert(p, e)),
{
    let s2 = s.insert(p, e);
    if p < s.len() {
        lemma_entry_le_total(s[p], e);
    }
    assert forall|i: int, j: int| 0 <= i < j < s2.len() implies entry_le(
        #[trigger] s2[i],
        #[trigger] s2[j],
    ) by {
        if i < p && j < p {
        } else if i < p && j == p {
        } else if i < p && j > p {
            assert(s2[j] == s[j - 1]);
        } else if i == p && j > p {
            assert(s2[j] == s[j - 1]);
            if p < s.len() && j - 1 > p {
                lemma_entry_le_trans(e, s[p], s[j - 1]);
            }
        } else {
            assert(s2[i] == s[i - 1] && s2[j] == s[j - 1]);
        }
    }
}

} // verus!
