//! The error histogram: counts of surviving records per time bucket, the
//! bucket being the record's epoch second floored to the configured width.

use vstd::prelude::*;

use crate::countmap::{bump_spec, count_in, lemma_bump, lemma_merge, merge_spec, sat_add,
    sum_counts};
use crate::error::Error;
use crate::histmap::HistMap;
use crate::numbers::push_dec;
use crate::render::{push_bytes, push_lit, push_run};
use crate::timeparse::LogInstant;

verus! {

/// The bucket of an instant: its epoch second floored to the width.
pub open spec fn bucket_of(t: LogInstant, width: u64) -> int {
    let secs = t.nanos / 1000000000;
    (secs / width as int) * width
}

/// An instant the histogram can bucket: at or after the epoch and within
/// the representable range.
pub open spec fn bucketable(t: LogInstant) -> bool {
    0 <= t.nanos && t.nanos / 1000000000 <= i64::MAX
}

/// One record's effect on the bucket counts.
pub open spec fn hist_step(s: Seq<(i64, u64)>, t: LogInstant, width: u64) -> Seq<(i64, u64)> {
    if bucketable(t) {
        bump_spec(s, bucket_of(t, width) as i64, 1)
    } else {
        s
    }
}

/// Fold a stream of instants into bucket counts.
pub open spec fn hist_fold(s: Seq<(i64, u64)>, ts: Seq<LogInstant>, width: u64) -> Seq<
    (i64, u64),
>
    decreases ts.len(),
{
    if ts.len() == 0 {
        s
    } else {
        hist_fold(hist_step(s, ts[0], width), ts.drop_first(), width)
    }
}

/// How many instants of the stream fall in bucket `k`.
pub open spec fn bucket_weight(ts: Seq<LogInstant>, width: u64, k: i64) -> u64
    decreases ts.len(),
{
    if ts.len() == 0 {
        0u64
    } else {
        let rest = bucket_weight(ts.drop_first(), width, k);
        if bucketable(ts[0]) && bucket_of(ts[0], width) as i64 == k {
            sat_add(1, rest)
        } else {
            rest
        }
    }
}

/// Folding a stream adds each bucket's number of instants to its count.
pub proof fn lemma_hist_fold_counts(s: Seq<(i64, u64)>, ts: Seq<LogInstant>, width: u64)
    requires
        crate::countmap::keys_distinct(s),
    ensures
        crate::countmap::keys_distinct(hist_fold(s, ts, width)),
        forall|k: i64| #[trigger] count_in(hist_fold(s, ts, width), k) == sat_add(
            count_in(s, k),
            bucket_weight(ts, width, k),
        ),
    decreases ts.len(),
{
    if ts.len() == 0 {
    } else {
        let s1 = hist_step(s, ts[0], width);
        if bucketable(ts[0]) {
            lemma_bump(s, bucket_of(ts[0], width) as i64, 1);
        }
        lemma_hist_fold_counts(s1, ts.drop_first(), width);
        assert forall|k: i64| #[trigger] count_in(hist_fold(s, ts, width), k) == sat_add(
            count_in(s, k),
            bucket_weight(ts, width, k),
        ) by {
            if bucketable(ts[0]) {
                if bucket_of(ts[0], width) as i64 == k {
                    assert(count_in(s1, k) == sat_add(count_in(s, k), 1));
                } else {
                    assert(count_in(s1, k) == count_in(s, k));
                }
            }
        }
    }
}

/// Histogram additivity: the histogram of a concatenated stream equals,
/// bucket-wise, the merge of the two parts' histograms.
pub proof fn lemma_hist_additivity(t1: Seq<LogInstant>, t2: Seq<LogInstant>, width: u64)
    ensures
        forall|k: i64|
            #![trigger count_in(merge_spec(hist_fold(Seq::empty(), t1, width), hist_fold(Seq::empty(), t2, width)), k)]
            count_in(
                merge_spec(
                    hist_fold(Seq::empty(), t1, width),
                    hist_fold(Seq::empty(), t2, width),
                ),
                k,
            ) == count_in(hist_fold(Seq::empty(), t1 + t2, width), k),
{
    let empty = Seq::<(i64, u64)>::empty();
    lemma_hist_fold_counts(empty, t1, width);
    lemma_hist_fold_counts(empty, t2, width);
    lemma_hist_fold_counts(empty, t1 + t2, width);
    lemma_merge(hist_fold(empty, t1, width), hist_fold(empty, t2, width));
    assert forall|k: i64| #[trigger] sum_counts(hist_fold(empty, t2, width), k) == count_in(
        hist_fold(empty, t2, width),
        k,
    ) by {
        lemma_sum_counts_distinct_i64(hist_fold(empty, t2, width), k);
    }
    lemma_bucket_weight_concat(t1, t2, width);
}

proof fn lemma_sum_counts_distinct_i64(s: Seq<(i64, u64)>, k: i64)
    requires
        crate::countmap::keys_distinct(s),
    ensures
        sum_counts(s, k) == count_in(s, k),
    decreases s.len(),
{
    if s.len() > 0 {
        assert(crate::countmap::keys_distinct(s.drop_first())) by {
            assert(forall|j: int|
                0 <= j < s.len() - 1 ==> #[trigger] s.drop_first()[j] == s[j + 1]);
        }
        lemma_sum_counts_distinct_i64(s.drop_first(), k);
        if s[0].0 == k {
            lemma_sum_zero_absent_i64(s.drop_first(), k);
        }
    }
}

proof fn lemma_sum_zero_absent_i64(s: Seq<(i64, u64)>, k: i64)
    requires
        forall|j: int| 0 <= j < s.len() ==> (#[trigger] s[j].0) != k,
    ensures
        sum_counts(s, k) == 0,
    decreases s.len(),
{
    if s.len() > 0 {
        assert(forall|j: int| 0 <= j < s.len() - 1 ==> #[trigger] s.drop_first()[j] == s[j + 1]);
        lemma_sum_zero_absent_i64(s.drop_first(), k);
    }
}

proof fn lemma_bucket_weight_concat(t1: Seq<LogInstant>, t2: Seq<LogInstant>, width: u64)
    ensures
        forall|k: i64| #[trigger] bucket_weight(t1 + t2, width, k) == sat_add(
            bucket_weight(t1, width, k),
            bucket_weight(t2, width, k),
        ),
    decreases t1.len(),
{
    if t1.len() == 0 {
        assert forall|k: i64| #[trigger] bucket_weight(t1 + t2, width, k) == sat_add(
            bucket_weight(t1, width, k),
            bucket_weight(t2, width, k),
        ) by {
            assert(t1 + t2 =~= t2);
        }
    } else {
        lemma_bucket_weight_concat(t1.drop_first(), t2, width);
        assert forall|k: i64| #[trigger] bucket_weight(t1 + t2, width, k) == sat_add(
            bucket_weight(t1, width, k),
            bucket_weight(t2, width, k),
        ) by {
            assert((t1 + t2).drop_first() =~= t1.drop_first() + t2);
            assert((t1 + t2)[0] == t1[0]);
            assert(bucket_weight((t1 + t2).drop_first(), width, k) == sat_add(
                bucket_weight(t1.drop_first(), width, k),
                bucket_weight(t2, width, k),
            ));
            let a = bucket_weight(t1.drop_first(), width, k);
            let b = bucket_weight(t2, width, k);
            assert(sat_add(1, sat_add(a, b)) == sat_add(sat_add(1, a), b));
        }
    }
}


pub proof fn lemma_hist_fold_snoc(s: Seq<(i64, u64)>, ts: Seq<LogInstant>, x: LogInstant, width: u64)
    ensures
        hist_fold(s, ts.push(x), width) == hist_step(hist_fold(s, ts, width), x, width),
    decreases ts.len(),
{
    let t2 = ts.push(x);
    assert(hist_fold(s, t2, width) == hist_fold(hist_step(s, t2[0], width), t2.drop_first(), width));
    if ts.len() == 0 {
        assert(t2[0] == x);
        assert(t2.drop_first() =~= Seq::<LogInstant>::empty());
    } else {
        assert(t2[0] == ts[0]);
        assert(t2.drop_first() =~= ts.drop_first().push(x));
        lemma_hist_fold_snoc(hist_step(s, ts[0], width), ts.drop_first(), x, width);
        assert(hist_fold(s, ts, width) == hist_fold(
            hist_step(s, ts[0], width),
            ts.drop_first(),
            width,
        ));
    }
}

pub proof fn lemma_hist_fold_append(s: Seq<(i64, u64)>, t1: Seq<LogInstant>, t2: Seq<LogInstant>, width: u64)
    ensures
        hist_fold(s, t1 + t2, width) == hist_fold(hist_fold(s, t1, width), t2, width),
    decreases t1.len(),
{
    if t1.len() == 0 {
        assert(t1 + t2 =~= t2);
    } else {
        assert((t1 + t2)[0] == t1[0]);
        assert((t1 + t2).drop_first() =~= t1.drop_first() + t2);
        lemma_hist_fold_append(hist_step(s, t1[0], width), t1.drop_first(), t2, width);
    }
}

pub proof fn lemma_hist_merge_fold(a: Seq<(i64, u64)>, t2: Seq<LogInstant>, width: u64)
    requires
        crate::countmap::keys_distinct(a),
    ensures
        merge_spec(a, hist_fold(Seq::empty(), t2, width)) == hist_fold(a, t2, width),
    decreases t2.len(),
{
    let empty = Seq::<(i64, u64)>::empty();
    if t2.len() == 0 {
    } else {
        let t1 = t2.drop_last();
        let x = t2.last();
        assert(t2 =~= t1.push(x));
        lemma_hist_merge_fold(a, t1, width);
        lemma_hist_fold_snoc(empty, t1, x, width);
        lemma_hist_fold_snoc(a, t1, x, width);
        lemma_hist_fold_counts(empty, t1, width);
        if bucketable(x) {
            crate::countmap::lemma_merge_bump(
                a,
                hist_fold(empty, t1, width),
                bucket_of(x, width) as i64,
                1,
            );
        }
    }
}

/// Histogram partition invariance, exactly: the histogram of a
/// concatenated stream equals, bucket for bucket and in the same order,
/// the merge of the two parts' histograms.
pub proof fn lemma_hist_partition_exact(t1: Seq<LogInstant>, t2: Seq<LogInstant>, width: u64)
    ensures
        merge_spec(hist_fold(Seq::empty(), t1, width), hist_fold(Seq::empty(), t2, width))
            == hist_fold(Seq::empty(), t1 + t2, width),
{
    let empty = Seq::<(i64, u64)>::empty();
    lemma_hist_fold_counts(empty, t1, width);
    lemma_hist_merge_fold(hist_fold(empty, t1, width), t2, width);
    lemma_hist_fold_append(empty, t1, t2, width);
}

/// A bucket whose wall-clock time the renderer can show.
pub open spec fn hist_renderable(bucket: i64) -> bool {
    0 <= bucket <= 253402300799
}

/// The bar width of a count against the maximum: `count/mx` of fifty
/// columns, rounded, capped at fifty.
pub open spec fn hist_fill(count: u64, mx: u64) -> int {
    let f = (count * 100 + mx) / (2 * mx);
    if f > 50 {
        50int
    } else {
        f as int
    }
}

/// The printed histogram lines: renderable buckets only, each with its
/// time, bar and count.
pub open spec fn hist_lines_of(s: Seq<(i64, u64)>, mx: u64) -> Seq<u8>
    decreases s.len(),
{
    if s.len() == 0 {
        Seq::<u8>::empty()
    } else {
        hist_lines_of(s.drop_last(), mx) + if hist_renderable(s.last().0) {
            seq![91u8] + crate::render::ts_render_naive(s.last().0 as int) + crate::bytes_util::sb(
                "] ",
            ) + crate::render::byte_run(35, hist_fill(s.last().1, mx)) + crate::render::byte_run(
                45,
                50 - hist_fill(s.last().1, mx),
            ) + seq![32u8] + crate::numbers::dec_digits(s.last().1 as nat) + seq![10u8]
        } else {
            Seq::<u8>::empty()
        }
    }
}

/// The error histogram aggregator.
pub struct ErrorHistogramAggregator {
    pub bucket_width: u64,
    pub buckets: HistMap,
}

impl ErrorHistogramAggregator {
    pub open spec fn wf(&self) -> bool {
        self.buckets.wf() && 1 <= self.bucket_width <= i64::MAX
    }

    pub open spec fn view_buckets(&self) -> Seq<(i64, u64)> {
        self.buckets.view_entries()
    }

    /// A fresh histogram over buckets of `bucket_width` seconds.
    pub fn new(bucket_width: u64) -> (r: ErrorHistogramAggregator)
        requires
            1 <= bucket_width <= i64::MAX,
        ensures
            r.wf(),
            r.bucket_width == bucket_width,
            r.view_buckets() == Seq::<(i64, u64)>::empty(),
    {
        ErrorHistogramAggregator { bucket_width, buckets: HistMap::new() }
    }

    /// A shard of the same width with nothing counted.
    pub fn clone_empty(&self) -> (r: ErrorHistogramAggregator)
        requires
            self.wf(),
        ensures
            r.wf(),
            r.bucket_width == self.bucket_width,
            r.view_buckets() == Seq::<(i64, u64)>::empty(),
    {
        ErrorHistogramAggregator { bucket_width: self.bucket_width, buckets: HistMap::new() }
    }

    /// Count one record's instant into its bucket. An instant before the
    /// epoch or beyond the representable range is a reported error.
    pub fn update(&mut self, log_time: LogInstant) -> (r: Result<(), Error>)
        requires
            old(self).wf(),
        ensures
            final(self).wf(),
            final(self).bucket_width == old(self).bucket_width,
            r is Ok <==> bucketable(log_time),
            final(self).view_buckets() == hist_step(
                old(self).view_buckets(),
                log_time,
                old(self).bucket_width,
            ),
    {
        if log_time.nanos < 0 {
            return Err(Error::TimestampBeforeEpoch);
        }
        let secs128 = log_time.nanos / 1000000000;
        if secs128 > i64::MAX as i128 {
            return Err(Error::TimestampOutOfRange);
        }
        let secs = secs128 as i64;
        let w = self.bucket_width as i64;
        proof {
            vstd::arithmetic::div_mod::lemma_fundamental_div_mod(secs as int, w as int);
            vstd::arithmetic::div_mod::lemma_mod_division_less_than_divisor(secs as int, w as int);
            assert((secs as int / w as int) * w as int == w as int * (secs as int / w as int))
                by (nonlinear_arith);
            assert(0 <= (secs as int / w as int) * w as int <= secs as int);
        }
        let bucket = (secs / w) * w;
        self.buckets.bump(bucket, 1);
        Ok(())
    }

    /// Add another shard's buckets into this one.
    pub fn merge(&mut self, other: &ErrorHistogramAggregator)
        requires
            old(self).wf(),
        ensures
            final(self).wf(),
            final(self).bucket_width == old(self).bucket_width,
            final(self).view_buckets() == merge_spec(
                old(self).view_buckets(),
                other.view_buckets(),
            ),
    {
        self.buckets.merge(&other.buckets);
    }

    /// Render: nothing when every count is zero; otherwise each renderable
    /// bucket in chronological order, as its wall-clock time, a
    /// fifty-column bar of `#` scaled (rounded) to the largest count and
    /// padded with `-`, and the count.
    #[verifier::rlimit(100)]
    #[verifier::spinoff_prover]
    pub fn render(&self) -> (out: Vec<u8>)
        ensures
            exists|sorted: Seq<(i64, u64)>|
                #![trigger crate::histmap::is_chrono_sorted(self.view_buckets(), sorted)]
                crate::histmap::is_chrono_sorted(self.view_buckets(), sorted) && out@ == if crate
                    ::histmap::max_count(sorted) == 0 {
                    Seq::<u8>::empty()
                } else {
                    hist_lines_of(sorted, crate::histmap::max_count(sorted))
                },
    {
        let sorted = self.buckets.sorted_entries();
        let ghost sv = sorted@;
        let n = sorted.len();
        let mut mx: u64 = 0;
        let mut i: usize = 0;
        while i < n
            invariant
                i <= n,
                n == sorted@.len(),
                sv == sorted@,
                mx == crate::histmap::max_count(sv.subrange(0, i as int)),
            decreases n - i,
        {
            proof {
                assert(sv.subrange(0, i + 1).drop_last() =~= sv.subrange(0, i as int));
                assert(sv.subrange(0, i + 1).last() == sv[i as int]);
            }
            if sorted[i].1 > mx {
                mx = sorted[i].1;
            }
            i = i + 1;
        }
        assert(sv.subrange(0, n as int) =~= sv);
        let mut out: Vec<u8> = Vec::new();
        if mx == 0 {
            proof {
                assert(crate::histmap::is_chrono_sorted(self.view_buckets(), sv));
            }
            return out;
        }
        proof {
            assert(sv.subrange(0, 0) =~= Seq::<(i64, u64)>::empty());
            assert(out@ =~= hist_lines_of(sv.subrange(0, 0), mx as u64));
        }
        let mut j: usize = 0;
        while j < n
            invariant
                j <= n,
                n == sorted@.len(),
                sv == sorted@,
                mx >= 1,
                mx == crate::histmap::max_count(sv),
                out@ == hist_lines_of(sv.subrange(0, j as int), mx),
            decreases n - j,
        {
            let (bucket, count) = (sorted[j].0, sorted[j].1);
            if 0 <= bucket && bucket <= 253402300799i64 {
                out.push('[' as u8);
                let ts = crate::render::format_instant_naive(bucket);
                push_bytes(&mut out, ts.as_slice());
                push_lit(&mut out, "] ");
                let filled128: u128 = (count as u128 * 100 + mx as u128) / (2 * mx as u128);
                let filled: usize = if filled128 > 50 {
                    50
                } else {
                    filled128 as usize
                };
                push_run(&mut out, '#' as u8, filled);
                push_run(&mut out, '-' as u8, 50 - filled);
                out.push(' ' as u8);
                push_dec(&mut out, count);
                out.push(10);
            }
            proof {
                assert(sv.subrange(0, j + 1).drop_last() =~= sv.subrange(0, j as int));
                assert(sv.subrange(0, j + 1).last() == sv[j as int]);
                assert(out@ =~= hist_lines_of(sv.subrange(0, j + 1), mx));
            }
            j = j + 1;
        }
        proof {
            assert(crate::histmap::is_chrono_sorted(self.view_buckets(), sv));
        }
        out
    }
}

} // verus!
