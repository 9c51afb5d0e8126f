//! The top-N slow query aggregator: a bounded collection of the records
//! with the largest extracted durations, each holding an owned copy of its
//! record bytes.

use vstd::prelude::*;
use vstd::multiset::Multiset;

use crate::bytes_util::copy_bytes;
use crate::countmap::view_of;
use crate::duration::{extract_duration, extract_duration_spec, format_duration};
use crate::numbers::push_dec;
use crate::render::{push_bytes, push_lit};
use crate::Format;

verus! {

/// First index of a smallest duration.
pub open spec fn min_idx(s: Seq<(Seq<u8>, u64)>) -> int
    decreases s.len(),
{
    if s.len() <= 1 {
        0
    } else {
        let m = min_idx(s.drop_last());
        if s.last().1 < s[m].1 {
            s.len() - 1
        } else {
            m
        }
    }
}

pub proof fn lemma_min_idx(s: Seq<(Seq<u8>, u64)>)
    requires
        s.len() >= 1,
    ensures
        0 <= min_idx(s) < s.len(),
        forall|j: int| 0 <= j < s.len() ==> s[min_idx(s)].1 <= (#[trigger] s[j]).1,
    decreases s.len(),
{
    if s.len() > 1 {
        lemma_min_idx(s.drop_last());
        assert(forall|j: int| 0 <= j < s.len() - 1 ==> #[trigger] s[j] == s.drop_last()[j]);
    }
}

/// One insertion under the bounded-heap rule: push while below the limit,
/// else replace the first minimum when the new duration exceeds it.
pub open spec fn top_insert(s: Seq<(Seq<u8>, u64)>, limit: int, rec: Seq<u8>, d: u64) -> Seq<
    (Seq<u8>, u64),
> {
    if s.len() < limit {
        s.push((rec, d))
    } else if s.len() == 0 {
        s
    } else {
        let m = min_idx(s);
        if d > s[m].1 {
            s.remove(m).push((rec, d))
        } else {
            s
        }
    }
}

/// One record's effect: insert under the bounded-heap rule when it
/// carries a duration, otherwise no change.
pub open spec fn top_step(s: Seq<(Seq<u8>, u64)>, limit: int, rec: Seq<u8>) -> Seq<
    (Seq<u8>, u64),
> {
    match extract_duration_spec(rec) {
        None => s,
        Some(d) => top_insert(s, limit, rec, d),
    }
}

/// Fold `top_step` over a stream of records.
pub open spec fn top_fold_recs(s: Seq<(Seq<u8>, u64)>, limit: int, recs: Seq<Seq<u8>>) -> Seq<
    (Seq<u8>, u64),
>
    decreases recs.len(),
{
    if recs.len() == 0 {
        s
    } else {
        top_fold_recs(top_step(s, limit, recs[0]), limit, recs.drop_first())
    }
}

pub proof fn lemma_top_fold_recs_snoc(
    s: Seq<(Seq<u8>, u64)>,
    limit: int,
    recs: Seq<Seq<u8>>,
    x: Seq<u8>,
)
    ensures
        top_fold_recs(s, limit, recs.push(x)) == top_step(top_fold_recs(s, limit, recs), limit, x),
    decreases recs.len(),
{
    let r2 = recs.push(x);
    assert(top_fold_recs(s, limit, r2) == top_fold_recs(
        top_step(s, limit, r2[0]),
        limit,
        r2.drop_first(),
    ));
    if recs.len() == 0 {
        assert(r2[0] == x);
        assert(r2.drop_first() =~= Seq::<Seq<u8>>::empty());
    } else {
        assert(r2[0] == recs[0]);
        assert(r2.drop_first() =~= recs.drop_first().push(x));
        lemma_top_fold_recs_snoc(top_step(s, limit, recs[0]), limit, recs.drop_first(), x);
        assert(top_fold_recs(s, limit, recs) == top_fold_recs(
            top_step(s, limit, recs[0]),
            limit,
            recs.drop_first(),
        ));
    }
}

/// Fold `top_insert` over a stream of (record, duration) pairs.
pub open spec fn top_fold(s: Seq<(Seq<u8>, u64)>, limit: int, items: Seq<(Seq<u8>, u64)>) -> Seq<
    (Seq<u8>, u64),
>
    decreases items.len(),
{
    if items.len() == 0 {
        s
    } else {
        top_fold(top_insert(s, limit, items[0].0, items[0].1), limit, items.drop_first())
    }
}

/// The bounded-memory invariant the collection keeps against everything it
/// has dropped: below the limit nothing was dropped; at the limit every
/// dropped duration is at most the kept minimum.
pub open spec fn top_inv(kept: Seq<(Seq<u8>, u64)>, limit: int, dropped: Multiset<(Seq<u8>, u64)>)
    -> bool {
    &&& kept.len() <= limit
    &&& (kept.len() < limit ==> dropped =~= Multiset::empty())
    &&& (kept.len() >= 1 ==> forall|x: (Seq<u8>, u64)|
        dropped.count(x) > 0 ==> x.1 <= kept[min_idx(kept)].1)
}

/// One insertion preserves the invariant; the dropped pile grows by the
/// evicted entry or by the rejected newcomer.
pub proof fn lemma_top_insert(
    kept: Seq<(Seq<u8>, u64)>,
    limit: int,
    dropped: Multiset<(Seq<u8>, u64)>,
    rec: Seq<u8>,
    d: u64,
) -> (dropped2: Multiset<(Seq<u8>, u64)>)
    requires
        limit >= 1,
        top_inv(kept, limit, dropped),
    ensures
        top_inv(top_insert(kept, limit, rec, d), limit, dropped2),
        top_insert(kept, limit, rec, d).to_multiset().add(dropped2) == kept.to_multiset().add(
            dropped,
        ).insert((rec, d)),
        top_insert(kept, limit, rec, d).len() == if kept.len() < limit {
            kept.len() + 1
        } else {
            kept.len()
        },
{
    broadcast use vstd::seq_lib::group_to_multiset_ensures;
    broadcast use vstd::multiset::group_multiset_axioms;

    let e = (rec, d);
    let kept2 = top_insert(kept, limit, rec, d);
    if kept.len() < limit {
        assert(kept2 == kept.push(e));
        vstd::seq_lib::to_multiset_build(kept, e);
        assert(kept2.to_multiset().add(dropped) =~= kept.to_multiset().add(dropped).insert(e));
        if kept2.len() >= 1 {
            lemma_min_idx(kept2);
            assert forall|x: (Seq<u8>, u64)| dropped.count(x) > 0 implies x.1 <= kept2[min_idx(
                kept2,
            )].1 by {
                assert(dropped =~= Multiset::<(Seq<u8>, u64)>::empty());
            }
        }
        dropped
    } else {
        let m = min_idx(kept);
        lemma_min_idx(kept);
        if d > kept[m].1 {
            let without = kept.remove(m);
            assert(kept2 == without.push(e));
            vstd::seq_lib::to_multiset_remove(kept, m);
            vstd::seq_lib::to_multiset_build(without, e);
            let dropped2 = dropped.insert(kept[m]);
            assert(kept2.to_multiset().add(dropped2) =~= kept.to_multiset().add(dropped).insert(
                e,
            ));
            lemma_min_idx(kept2);
            let m2 = min_idx(kept2);
            assert forall|x: (Seq<u8>, u64)| dropped2.count(x) > 0 implies x.1 <= kept2[m2].1 by {
                // every kept2 entry is at least the old minimum
                assert(kept2[m2].1 >= kept[m].1) by {
                    if m2 < kept2.len() - 1 {
                        assert(kept2[m2] == without[m2]);
                        assert(without[m2] == if m2 < m {
                            kept[m2]
                        } else {
                            kept[m2 + 1]
                        });
                    } else {
                        assert(kept2[m2] == e);
                    }
                }
                if x == kept[m] {
                } else {
                    assert(dropped.count(x) > 0);
                }
            }
            dropped2
        } else {
            let dropped2 = dropped.insert(e);
            assert(kept2.to_multiset().add(dropped2) =~= kept.to_multiset().add(dropped).insert(
                e,
            ));
            dropped2
        }
    }
}

/// Top-N correctness over any stream: the fold keeps `min(limit, n)` items,
/// the kept items come from the stream, and every item dropped is no slower
/// than every item kept.
pub proof fn lemma_top_fold(limit: int, items: Seq<(Seq<u8>, u64)>) -> (dropped: Multiset<
    (Seq<u8>, u64),
>)
    requires
        limit >= 1,
    ensures
        top_fold(Seq::empty(), limit, items).len() == if items.len() < limit {
            items.len() as int
        } else {
            limit
        },
        top_fold(Seq::empty(), limit, items).to_multiset().add(dropped)
            == items.to_multiset(),
        forall|x: (Seq<u8>, u64), j: int|
            #![trigger dropped.count(x), top_fold(Seq::empty(), limit, items)[j]]
            dropped.count(x) > 0 && 0 <= j < top_fold(Seq::empty(), limit, items).len() ==> x.1
                <= top_fold(Seq::empty(), limit, items)[j].1,
{
    broadcast use vstd::seq_lib::group_to_multiset_ensures;
    broadcast use vstd::multiset::group_multiset_axioms;

    let r = lemma_top_fold_from(Seq::empty(), limit, Multiset::empty(), items);
    let kept = top_fold(Seq::empty(), limit, items);
    if kept.len() >= 1 {
        lemma_min_idx(kept);
    }
    assert(kept.to_multiset().add(r) =~= items.to_multiset()) by {
        assert(Seq::<(Seq<u8>, u64)>::empty().to_multiset().add(Multiset::empty())
            =~= Multiset::<(Seq<u8>, u64)>::empty());
    }
    r
}

proof fn lemma_top_fold_from(
    kept: Seq<(Seq<u8>, u64)>,
    limit: int,
    dropped: Multiset<(Seq<u8>, u64)>,
    items: Seq<(Seq<u8>, u64)>,
) -> (dropped2: Multiset<(Seq<u8>, u64)>)
    requires
        limit >= 1,
        top_inv(kept, limit, dropped),
    ensures
        top_inv(top_fold(kept, limit, items), limit, dropped2),
        top_fold(kept, limit, items).to_multiset().add(dropped2) == kept.to_multiset().add(
            dropped,
        ).add(items.to_multiset()),
        top_fold(kept, limit, items).len() == if kept.len() + items.len() < limit {
            kept.len() + items.len() as int
        } else {
            limit
        },
    decreases items.len(),
{
    broadcast use vstd::seq_lib::group_to_multiset_ensures;
    broadcast use vstd::multiset::group_multiset_axioms;

    if items.len() == 0 {
        assert(top_fold(kept, limit, items).to_multiset().add(dropped) =~= kept.to_multiset().add(
            dropped,
        ).add(items.to_multiset()));
        dropped
    } else {
        let e = items[0];
        let d1 = lemma_top_insert(kept, limit, dropped, e.0, e.1);
        let kept1 = top_insert(kept, limit, e.0, e.1);
        let d2 = lemma_top_fold_from(kept1, limit, d1, items.drop_first());
        assert(items.remove(0) =~= items.drop_first());
        vstd::seq_lib::to_multiset_remove(items, 0);
        assert(items.drop_first().to_multiset() =~= items.to_multiset().remove(e));
        assert(top_fold(kept, limit, items).to_multiset().add(d2) =~= kept.to_multiset().add(
            dropped,
        ).add(items.to_multiset()));
        d2
    }
}

/// The printed frame of each kept record, slowest first: the duration
/// between dashes, then the record's bytes.
pub open spec fn top_lines_of(s: Seq<(Seq<u8>, u64)>) -> Seq<u8>
    decreases s.len(),
{
    if s.len() == 0 {
        Seq::empty()
    } else {
        top_lines_of(s.drop_last()) + crate::bytes_util::sb("--- ")
            + crate::duration::format_duration_spec(s.last().1) + crate::bytes_util::sb(" ---\n")
            + s.last().0 + seq![10u8]
    }
}

/// The top-N slow query aggregator.
pub struct TopSlowQueries {
    pub limit: usize,
    pub items: Vec<(Vec<u8>, u64)>,
}

impl TopSlowQueries {
    pub open spec fn view_items(&self) -> Seq<(Seq<u8>, u64)> {
        view_of(self.items@)
    }

    pub open spec fn wf(&self) -> bool {
        self.items@.len() <= self.limit
    }

    pub fn new(limit: usize) -> (r: TopSlowQueries)
        ensures
            r.wf(),
            r.limit == limit,
            r.view_items() == Seq::<(Seq<u8>, u64)>::empty(),
    {
        let r = TopSlowQueries { limit, items: Vec::new() };
        proof {
            assert(r.view_items() =~= Seq::<(Seq<u8>, u64)>::empty());
        }
        r
    }

    /// A shard of the same shape with nothing seen.
    pub fn clone_empty(&self) -> (r: TopSlowQueries)
        ensures
            r.wf(),
            r.limit == self.limit,
            r.view_items() == Seq::<(Seq<u8>, u64)>::empty(),
    {
        TopSlowQueries::new(self.limit)
    }

    /// Insert one (record, duration) pair under the bounded-heap rule.
    fn insert_pair(&mut self, record: &[u8], d: u64)
        requires
            old(self).wf(),
        ensures
            final(self).wf(),
            final(self).limit == old(self).limit,
            final(self).view_items() == top_insert(
                old(self).view_items(),
                old(self).limit as int,
                record@,
                d,
            ),
    {
        let ghost pre = self.view_items();
        if self.items.len() < self.limit {
            self.items.push((copy_bytes(record), d));
            proof {
                assert(self.view_items() =~= pre.push((record@, d)));
            }
            return ;
        }
        if self.items.len() == 0 {
            return ;
        }
        // find the first minimum
        let n = self.items.len();
        let mut m: usize = 0;
        let mut i: usize = 1;
        while i < n
            invariant
                n == self.items@.len(),
                pre == self.view_items(),
                pre == old(self).view_items(),
                1 <= i <= n,
                m < i,
                m as int == min_idx(pre.subrange(0, i as int)),
            decreases n - i,
        {
            proof {
                let a = pre.subrange(0, i as int);
                let b = pre.subrange(0, i + 1);
                assert(b.drop_last() =~= a);
            }
            if self.items[i].1 < self.items[m].1 {
                m = i;
            }
            i = i + 1;
        }
        assert(pre.subrange(0, n as int) =~= pre);
        if d > self.items[m].1 {
            self.items.remove(m);
            self.items.push((copy_bytes(record), d));
            proof {
                assert(self.view_items() =~= pre.remove(m as int).push((record@, d)));
            }
        }
    }

    /// Feed one record: a record without an extractable duration is skipped.
    pub fn update(&mut self, record: &[u8], fmt: &Format) -> (r: Result<(), crate::error::Error>)
        requires
            old(self).wf(),
        ensures
            r is Ok,
            final(self).wf(),
            final(self).limit == old(self).limit,
            final(self).view_items() == match extract_duration_spec(record@) {
                None => old(self).view_items(),
                Some(d) => top_insert(
                    old(self).view_items(),
                    old(self).limit as int,
                    record@,
                    d,
                ),
            },
    {
        match extract_duration(record) {
            None => Ok(()),
            Some(d) => {
                self.insert_pair(record, d);
                Ok(())
            },
        }
    }

    /// Fold another shard's kept items into this one, under the same rule.
    pub fn merge(&mut self, other: &TopSlowQueries)
        requires
            old(self).wf(),
        ensures
            final(self).wf(),
            final(self).limit == old(self).limit,
            final(self).view_items() == top_fold(
                old(self).view_items(),
                old(self).limit as int,
                other.view_items(),
            ),
    {
        let n = other.items.len();
        let ghost b = other.view_items();
        proof {
            assert(b.subrange(0, n as int) =~= b);
        }
        let mut i: usize = 0;
        while i < n
            invariant
                n == other.items@.len(),
                b == other.view_items(),
                i <= n,
                self.wf(),
                self.limit == old(self).limit,
                top_fold(old(self).view_items(), old(self).limit as int, b) == top_fold(
                    self.view_items(),
                    self.limit as int,
                    b.subrange(i as int, n as int),
                ),
            decreases n - i,
        {
            let ghost rest = b.subrange(i as int, n as int);
            proof {
                assert(rest[0] == b[i as int]);
                assert(rest.drop_first() =~= b.subrange(i + 1, n as int));
            }
            let rec = copy_bytes(other.items[i].0.as_slice());
            let d = other.items[i].1;
            self.insert_pair(rec.as_slice(), d);
            i = i + 1;
        }
        assert(b.subrange(i as int, n as int) =~= Seq::<(Seq<u8>, u64)>::empty());
    }

    /// Render: the `Top <n> slowest queries:` header, then each kept
    /// record slowest first (ties by ascending record bytes), framed by its
    /// duration.
    pub fn render(&self) -> (out: Vec<u8>)
        ensures
            exists|sorted: Seq<(Seq<u8>, u64)>|
                #![trigger crate::countmap::is_print_sorted(self.view_items(), sorted)]
                crate::countmap::is_print_sorted(self.view_items(), sorted) && out@
                    == crate::bytes_util::sb("Top ") + crate::numbers::dec_digits(
                    sorted.len(),
                ) + crate::bytes_util::sb(" slowest queries:\n") + top_lines_of(sorted),
    {
        let sorted = crate::countmap::sort_entries_desc(&self.items);
        let ghost sv = crate::countmap::view_of(sorted@);
        let mut out: Vec<u8> = Vec::new();
        push_lit(&mut out, "Top ");
        push_dec(&mut out, sorted.len() as u64);
        push_lit(&mut out, " slowest queries:\n");
        let ghost head = crate::bytes_util::sb("Top ") + crate::numbers::dec_digits(sv.len())
            + crate::bytes_util::sb(" slowest queries:\n");
        proof {
            assert(sv.subrange(0, 0) =~= Seq::<(Seq<u8>, u64)>::empty());
            assert(out@ =~= head + top_lines_of(sv.subrange(0, 0)));
        }
        let n = sorted.len();
        let mut i: usize = 0;
        while i < n
            invariant
                n == sorted@.len(),
                i <= n,
                sv == crate::countmap::view_of(sorted@),
                head == crate::bytes_util::sb("Top ") + crate::numbers::dec_digits(sv.len())
                    + crate::bytes_util::sb(" slowest queries:\n"),
                out@ == head + top_lines_of(sv.subrange(0, i as int)),
            decreases n - i,
        {
            push_lit(&mut out, "--- ");
            let dur = format_duration(sorted[i].1);
            push_bytes(&mut out, dur.as_slice());
            push_lit(&mut out, " ---\n");
            push_bytes(&mut out, sorted[i].0.as_slice());
            out.push(10);
            proof {
                assert(sv.subrange(0, i + 1).drop_last() =~= sv.subrange(0, i as int));
                assert(sv.subrange(0, i + 1).last() == sv[i as int]);
                assert(sv[i as int] == (sorted@[i as int].0@, sorted@[i as int].1));
                assert(out@ =~= head + top_lines_of(sv.subrange(0, i + 1)));
            }
            i = i + 1;
        }
        proof {
            assert(sv.subrange(0, n as int) =~= sv);
            assert(crate::countmap::is_print_sorted(self.view_items(), sv));
        }
        out
    }
}

} // verus!
