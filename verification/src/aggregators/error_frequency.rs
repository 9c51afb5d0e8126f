//! The error-frequency aggregator: how often each message text occurs,
//! with a global top-N cut applied only when printing, after every merge.

use vstd::prelude::*;

use crate::countmap::{
    bump_spec, count_in, lemma_bump, lemma_merge, merge_spec, sat_add, sum_counts, CountMap,
};
use crate::format::message_spec;
use crate::render::{push_count_line, push_lit};
use crate::Format;

verus! {

/// One record's effect: bump its message's count; a record without an
/// extractable message flows past.
pub open spec fn freq_step(s: Seq<(Seq<u8>, u64)>, rec: Seq<u8>, fmt: Format) -> Seq<
    (Seq<u8>, u64),
> {
    match message_spec(fmt, rec) {
        None => s,
        Some(m) => bump_spec(s, m, 1),
    }
}

/// Fold a stream of records into a count state.
pub open spec fn freq_fold(s: Seq<(Seq<u8>, u64)>, recs: Seq<Seq<u8>>, fmt: Format) -> Seq<
    (Seq<u8>, u64),
>
    decreases recs.len(),
{
    if recs.len() == 0 {
        s
    } else {
        freq_fold(freq_step(s, recs[0], fmt), recs.drop_first(), fmt)
    }
}

/// How many records of the stream carry message `k`, as a saturating total.
pub open spec fn msg_weight(recs: Seq<Seq<u8>>, fmt: Format, k: Seq<u8>) -> u64
    decreases recs.len(),
{
    if recs.len() == 0 {
        0u64
    } else {
        let rest = msg_weight(recs.drop_first(), fmt, k);
        if message_spec(fmt, recs[0]) == Some(k) {
            sat_add(1, rest)
        } else {
            rest
        }
    }
}

/// Folding a stream adds each message's number of occurrences to its count.
pub proof fn lemma_freq_fold_counts(s: Seq<(Seq<u8>, u64)>, recs: Seq<Seq<u8>>, fmt: Format)
    requires
        crate::countmap::keys_distinct(s),
    ensures
        crate::countmap::keys_distinct(freq_fold(s, recs, fmt)),
        forall|k: Seq<u8>| #[trigger] count_in(freq_fold(s, recs, fmt), k) == sat_add(
            count_in(s, k),
            msg_weight(recs, fmt, k),
        ),
    decreases recs.len(),
{
    if recs.len() == 0 {
    } else {
        let s1 = freq_step(s, recs[0], fmt);
        match message_spec(fmt, recs[0]) {
            None => {},
            Some(m) => {
                lemma_bump(s, m, 1);
            },
        }
        lemma_freq_fold_counts(s1, recs.drop_first(), fmt);
        assert forall|k: Seq<u8>| #[trigger] count_in(freq_fold(s, recs, fmt), k) == sat_add(
            count_in(s, k),
            msg_weight(recs, fmt, k),
        ) by {
            match message_spec(fmt, recs[0]) {
                None => {},
                Some(m) => {
                    if k == m {
                        assert(count_in(s1, k) == sat_add(count_in(s, k), 1));
                    } else {
                        assert(count_in(s1, k) == count_in(s, k));
                    }
                },
            }
        }
    }
}

/// Partition invariance of the counts: merging a shard built from the
/// second part of a stream into the state built from the first yields, for
/// every message, the same total as one scan over the whole stream.
pub proof fn lemma_freq_partition(r1: Seq<Seq<u8>>, r2: Seq<Seq<u8>>, fmt: Format)
    ensures
        forall|k: Seq<u8>|
            #![trigger count_in(merge_spec(freq_fold(Seq::empty(), r1, fmt), freq_fold(Seq::empty(), r2, fmt)), k)]
            count_in(
                merge_spec(freq_fold(Seq::empty(), r1, fmt), freq_fold(Seq::empty(), r2, fmt)),
                k,
            ) == count_in(freq_fold(Seq::empty(), r1 + r2, fmt), k),
{
    let empty = Seq::<(Seq<u8>, u64)>::empty();
    lemma_freq_fold_counts(empty, r1, fmt);
    lemma_freq_fold_counts(empty, r2, fmt);
    lemma_freq_fold_counts(empty, r1 + r2, fmt);
    lemma_merge(freq_fold(empty, r1, fmt), freq_fold(empty, r2, fmt));
    lemma_sum_counts_is_weight(freq_fold(empty, r2, fmt), r2, fmt);
    lemma_msg_weight_concat(r1, r2, fmt);
}

/// In a distinct-key state built from a stream, summing entry totals for a
/// key is just its count.
proof fn lemma_sum_counts_is_weight(s: Seq<(Seq<u8>, u64)>, r2: Seq<Seq<u8>>, fmt: Format)
    requires
        crate::countmap::keys_distinct(s),
    ensures
        forall|k: Seq<u8>| #[trigger] sum_counts(s, k) == count_in(s, k),
{
    assert forall|k: Seq<u8>| #[trigger] sum_counts(s, k) == count_in(s, k) by {
        lemma_sum_counts_distinct(s, k);
    }
}

proof fn lemma_sum_counts_distinct(s: Seq<(Seq<u8>, u64)>, k: Seq<u8>)
    requires
        crate::countmap::keys_distinct(s),
    ensures
        sum_counts(s, k) == count_in(s, k),
    decreases s.len(),
{
    if s.len() == 0 {
    } else {
        assert(crate::countmap::keys_distinct(s.drop_first())) by {
            assert(forall|j: int|
                0 <= j < s.len() - 1 ==> #[trigger] s.drop_first()[j] == s[j + 1]);
        }
        lemma_sum_counts_distinct(s.drop_first(), k);
        if s[0].0 == k {
            // no later entry holds k, so the tail contributes zero
            lemma_count_zero_when_absent(s.drop_first(), k);
        }
    }
}

proof fn lemma_count_zero_when_absent(s: Seq<(Seq<u8>, u64)>, k: Seq<u8>)
    requires
        forall|j: int| 0 <= j < s.len() ==> (#[trigger] s[j].0) != k,
    ensures
        sum_counts(s, k) == 0,
    decreases s.len(),
{
    if s.len() > 0 {
        assert(forall|j: int| 0 <= j < s.len() - 1 ==> #[trigger] s.drop_first()[j] == s[j + 1]);
        lemma_count_zero_when_absent(s.drop_first(), k);
    }
}

/// Occurrences in a concatenated stream add up.
proof fn lemma_msg_weight_concat(r1: Seq<Seq<u8>>, r2: Seq<Seq<u8>>, fmt: Format)
    ensures
        forall|k: Seq<u8>| #[trigger] msg_weight(r1 + r2, fmt, k) == sat_add(
            msg_weight(r1, fmt, k),
            msg_weight(r2, fmt, k),
        ),
    decreases r1.len(),
{
    if r1.len() == 0 {
        assert forall|k: Seq<u8>| #[trigger] msg_weight(r1 + r2, fmt, k) == sat_add(
            msg_weight(r1, fmt, k),
            msg_weight(r2, fmt, k),
        ) by {
            assert(r1 + r2 =~= r2);
        }
    } else {
        lemma_msg_weight_concat(r1.drop_first(), r2, fmt);
        assert forall|k: Seq<u8>| #[trigger] msg_weight(r1 + r2, fmt, k) == sat_add(
            msg_weight(r1, fmt, k),
            msg_weight(r2, fmt, k),
        ) by {
            assert((r1 + r2).drop_first() =~= r1.drop_first() + r2);
            assert((r1 + r2)[0] == r1[0]);
            assert(msg_weight((r1 + r2).drop_first(), fmt, k) == sat_add(
                msg_weight(r1.drop_first(), fmt, k),
                msg_weight(r2, fmt, k),
            ));
            let a = msg_weight(r1.drop_first(), fmt, k);
            let b = msg_weight(r2, fmt, k);
            assert(sat_add(1, sat_add(a, b)) == sat_add(sat_add(1, a), b));
        }
    }
}


pub proof fn lemma_freq_fold_snoc(s: Seq<(Seq<u8>, u64)>, recs: Seq<Seq<u8>>, x: Seq<u8>, fmt: Format)
    ensures
        freq_fold(s, recs.push(x), fmt) == freq_step(freq_fold(s, recs, fmt), x, fmt),
    decreases recs.len(),
{
    let r2 = recs.push(x);
    assert(freq_fold(s, r2, fmt) == freq_fold(freq_step(s, r2[0], fmt), r2.drop_first(), fmt));
    if recs.len() == 0 {
        assert(r2[0] == x);
        assert(r2.drop_first() =~= Seq::<Seq<u8>>::empty());
    } else {
        assert(r2[0] == recs[0]);
        assert(r2.drop_first() =~= recs.drop_first().push(x));
        lemma_freq_fold_snoc(freq_step(s, recs[0], fmt), recs.drop_first(), x, fmt);
        assert(freq_fold(s, recs, fmt) == freq_fold(
            freq_step(s, recs[0], fmt),
            recs.drop_first(),
            fmt,
        ));
    }
}

pub proof fn lemma_freq_fold_append(s: Seq<(Seq<u8>, u64)>, r1: Seq<Seq<u8>>, r2: Seq<Seq<u8>>, fmt: Format)
    ensures
        freq_fold(s, r1 + r2, fmt) == freq_fold(freq_fold(s, r1, fmt), r2, fmt),
    decreases r1.len(),
{
    if r1.len() == 0 {
        assert(r1 + r2 =~= r2);
    } else {
        assert((r1 + r2)[0] == r1[0]);
        assert((r1 + r2).drop_first() =~= r1.drop_first() + r2);
        lemma_freq_fold_append(freq_step(s, r1[0], fmt), r1.drop_first(), r2, fmt);
    }
}

/// Folding a stream into a state equals merging in the shard built from
/// that stream alone.
pub proof fn lemma_freq_merge_fold(a: Seq<(Seq<u8>, u64)>, r2: Seq<Seq<u8>>, fmt: Format)
    requires
        crate::countmap::keys_distinct(a),
    ensures
        merge_spec(a, freq_fold(Seq::empty(), r2, fmt)) == freq_fold(a, r2, fmt),
    decreases r2.len(),
{
    let empty = Seq::<(Seq<u8>, u64)>::empty();
    if r2.len() == 0 {
    } else {
        let r1 = r2.drop_last();
        let x = r2.last();
        assert(r2 =~= r1.push(x));
        lemma_freq_merge_fold(a, r1, fmt);
        lemma_freq_fold_snoc(empty, r1, x, fmt);
        lemma_freq_fold_snoc(a, r1, x, fmt);
        lemma_freq_fold_counts(empty, r1, fmt);
        match message_spec(fmt, x) {
            None => {},
            Some(m) => {
                crate::countmap::lemma_merge_bump(a, freq_fold(empty, r1, fmt), m, 1);
            },
        }
    }
}

/// Partition invariance, exactly: merging the shard built from the second
/// part of a stream into the state built from the first yields, entry for
/// entry and in the same order, the state of one scan over the whole
/// stream.
pub proof fn lemma_freq_partition_exact(r1: Seq<Seq<u8>>, r2: Seq<Seq<u8>>, fmt: Format)
    ensures
        merge_spec(freq_fold(Seq::empty(), r1, fmt), freq_fold(Seq::empty(), r2, fmt))
            == freq_fold(Seq::empty(), r1 + r2, fmt),
{
    let empty = Seq::<(Seq<u8>, u64)>::empty();
    lemma_freq_fold_counts(empty, r1, fmt);
    lemma_freq_merge_fold(freq_fold(empty, r1, fmt), r2, fmt);
    lemma_freq_fold_append(empty, r1, r2, fmt);
}

/// The error-frequency aggregator: message text to count, with a print
/// limit.
pub struct ErrorFrequencyAggregator {
    pub counts: CountMap,
    pub limit: usize,
}

impl ErrorFrequencyAggregator {
    pub open spec fn wf(&self) -> bool {
        self.counts.wf()
    }

    pub open spec fn view_counts(&self) -> Seq<(Seq<u8>, u64)> {
        self.counts.view_entries()
    }

    /// A fresh aggregator with the default print limit of ten.
    pub fn new() -> (r: ErrorFrequencyAggregator)
        ensures
            r.wf(),
            r.limit == 10,
            r.view_counts() == Seq::<(Seq<u8>, u64)>::empty(),
    {
        ErrorFrequencyAggregator { counts: CountMap::new(), limit: 10 }
    }

    /// A shard of the same shape with nothing counted.
    pub fn clone_empty(&self) -> (r: ErrorFrequencyAggregator)
        ensures
            r.wf(),
            r.limit == self.limit,
            r.view_counts() == Seq::<(Seq<u8>, u64)>::empty(),
    {
        ErrorFrequencyAggregator { counts: CountMap::new(), limit: self.limit }
    }

    /// Count one record's message.
    pub fn update(&mut self, record: &[u8], fmt: &Format) -> (r: Result<(), crate::error::Error>)
        requires
            old(self).wf(),
        ensures
            r is Ok,
            final(self).wf(),
            final(self).limit == old(self).limit,
            final(self).view_counts() == freq_step(old(self).view_counts(), record@, *fmt),
    {
        match fmt.message_from_bytes(record) {
            None => Ok(()),
            Some(m) => {
                self.counts.bump(m.as_slice(), 1);
                Ok(())
            },
        }
    }

    /// Add another shard's counts into this one.
    pub fn merge(&mut self, other: &ErrorFrequencyAggregator)
        requires
            old(self).wf(),
        ensures
            final(self).wf(),
            final(self).limit == old(self).limit,
            final(self).view_counts() == merge_spec(
                old(self).view_counts(),
                other.view_counts(),
            ),
    {
        self.counts.merge(&other.counts);
    }

    /// Render: the header, then at most `limit` messages as count lines,
    /// most frequent first with ties broken by ascending key; the global
    /// top-N cut happens here, after every merge, so merging stays
    /// order-insensitive.
    pub fn render(&self) -> (out: Vec<u8>)
        ensures
            exists|sorted: Seq<(Seq<u8>, u64)>|
                #![trigger crate::countmap::is_print_sorted(self.view_counts(), sorted)]
                crate::countmap::is_print_sorted(self.view_counts(), sorted) && out@
                    == crate::bytes_util::sb("Most frequent error messages:\n")
                    + crate::render::count_lines_of(
                    sorted.subrange(
                        0,
                        if sorted.len() < self.limit {
                            sorted.len() as int
                        } else {
                            self.limit as int
                        },
                    ),
                ),
    {
        let sorted = self.counts.sorted_entries();
        let ghost sv = crate::countmap::view_of(sorted@);
        let mut out: Vec<u8> = Vec::new();
        push_lit(&mut out, "Most frequent error messages:\n");
        let ghost header = crate::bytes_util::sb("Most frequent error messages:\n");
        let n = sorted.len();
        let cap = if n < self.limit {
            n
        } else {
            self.limit
        };
        proof {
            assert(sv.subrange(0, 0) =~= Seq::<(Seq<u8>, u64)>::empty());
            assert(out@ =~= header + crate::render::count_lines_of(sv.subrange(0, 0)));
        }
        let mut i: usize = 0;
        while i < cap
            invariant
                cap <= n,
                n == sorted@.len(),
                sv == crate::countmap::view_of(sorted@),
                cap == if n < self.limit {
                    n as int
                } else {
                    self.limit as int
                },
                i <= cap,
                header == crate::bytes_util::sb("Most frequent error messages:\n"),
                out@ == header + crate::render::count_lines_of(sv.subrange(0, i as int)),
            decreases cap - i,
        {
            push_count_line(&mut out, sorted[i].1, sorted[i].0.as_slice());
            proof {
                assert(sv.subrange(0, i + 1).drop_last() =~= sv.subrange(0, i as int));
                assert(sv.subrange(0, i + 1).last() == sv[i as int]);
                assert(sv[i as int] == (sorted@[i as int].0@, sorted@[i as int].1));
            }
            i = i + 1;
        }
        proof {
            assert(crate::countmap::is_print_sorted(self.view_counts(), sv));
        }
        out
    }
}

} // verus!
