//! The scan engine: run the filter chain over the whole records of a byte
//! range, feed survivors to the aggregator shards, and hand back the
//! surviving records byte-for-byte.

use vstd::prelude::*;
use vstd::slice::slice_subrange;

use crate::aggregators::Aggregator;
use crate::bytes_util::{copy_bytes, scan_token, scan_while, scan_ws, sp_not_ws, sp_ws};
use crate::error::Error;
use crate::filters::{all_match, chain_matches, Predicate};
use crate::format::csv::{csv_fields, csv_split};
use crate::records::{rec_start_in, record_spans};
use crate::severity::{rank_spec, Severity};
use crate::timeparse::{
    instant_matches, parse_timestamp_trimming, parse_ts_spec, trim_spaces, LogInstant,
};
use crate::Format;

verus! {

/// The resolved filter configuration of one run: the static byte
/// predicates, the three structural filters, and the user-supplied
/// predicates.
pub struct ScanConfig {
    pub static_filters: Vec<Predicate>,
    pub min_severity_rank: i32,
    pub begin: Option<LogInstant>,
    pub end: Option<LogInstant>,
    pub custom_filters: Vec<Predicate>,
    pub format: Format,
}

/// The timestamp text of a record: for plain logs its first three
/// whitespace-separated tokens joined by single spaces, for CSV logs its
/// first field.
pub open spec fn ts_text_spec(rec: Seq<u8>, fmt: Format) -> Option<Seq<u8>> {
    match fmt {
        Format::Csv => Some(csv_fields(rec)[0]),
        Format::Plain => {
            let a1 = scan_while(rec, 0, sp_ws());
            let b1 = scan_while(rec, a1, sp_not_ws());
            let a2 = scan_while(rec, b1, sp_ws());
            let b2 = scan_while(rec, a2, sp_not_ws());
            let a3 = scan_while(rec, b2, sp_ws());
            let b3 = scan_while(rec, a3, sp_not_ws());
            if b1 > a1 && b2 > a2 && b3 > a3 {
                Some(
                    rec.subrange(a1, b1) + seq![32u8] + rec.subrange(a2, b2) + seq![32u8]
                        + rec.subrange(a3, b3),
                )
            } else {
                None
            }
        },
    }
}

/// Extract the record's timestamp text.
pub fn ts_text(record: &[u8], fmt: &Format) -> (r: Option<Vec<u8>>)
    ensures
        match r {
            Some(v) => ts_text_spec(record@, *fmt) == Some(v@),
            None => ts_text_spec(record@, *fmt) is None,
        },
{
    match fmt {
        Format::Csv => {
            let fields = csv_split(record);
            proof {
                crate::format::csv::lemma_fields_from_len(record@, 0, false);
            }
            let mut it = fields;
            let first = it.remove(0);
            Some(first)
        },
        Format::Plain => {
            let a1 = scan_ws(record, 0);
            let b1 = scan_token(record, a1);
            let a2 = scan_ws(record, b1);
            let b2 = scan_token(record, a2);
            let a3 = scan_ws(record, b2);
            let b3 = scan_token(record, a3);
            if b1 > a1 && b2 > a2 && b3 > a3 {
                let mut v = copy_bytes(slice_subrange(record, a1, b1));
                v.push(32);
                crate::render::push_bytes(&mut v, slice_subrange(record, a2, b2));
                v.push(32);
                crate::render::push_bytes(&mut v, slice_subrange(record, a3, b3));
                proof {
                    assert(v@ =~= ts_text_spec(record@, Format::Plain).unwrap());
                }
                Some(v)
            } else {
                None
            }
        },
    }
}

/// The instant realizes the parsed civil fields: a fixed offset is taken
/// as given; otherwise the offset is the local zone's.
pub open spec fn instant_of_parsed(
    t: LogInstant,
    parsed: (int, int, int, int, int, int, int, Option<int>),
) -> bool {
    instant_matches(
        t,
        parsed.0,
        parsed.1,
        parsed.2,
        parsed.3,
        parsed.4,
        parsed.5,
        parsed.6,
        parsed.7,
    )
}

/// The range bounds are sane with respect to the file.
pub open spec fn start_end_ok(s: Seq<u8>, start: int, end: int) -> bool {
    0 <= start <= end <= s.len()
}

/// Every range lies within the file.
pub open spec fn ranges_wf(s: Seq<u8>, rs: Seq<(usize, usize)>) -> bool {
    forall|k: int| 0 <= k < rs.len() ==> (#[trigger] rs[k]).0 < rs[k].1 <= s.len()
}

/// The record passes the static predicates and the minimum severity.
pub open spec fn passes_static(cfg: ScanConfig, rec: Seq<u8>) -> bool {
    &&& all_match(cfg.static_filters@, rec, cfg.format)
    &&& rank_spec(crate::format::severity_spec(cfg.format, rec)) >= cfg.min_severity_rank
}

/// The instant lies inside the configured window.
pub open spec fn in_window(cfg: ScanConfig, t: LogInstant) -> bool {
    &&& match cfg.begin {
        Some(b) => t.nanos >= b.nanos,
        None => true,
    }
    &&& match cfg.end {
        Some(e) => t.nanos <= e.nanos,
        None => true,
    }
}

/// The three-way decision the chain takes on one record: `None` when a
/// predicate, the severity floor or the window rejects it; `Some` with the
/// severity and instant when everything passes. For a timestamp without a
/// recognized zone the instant carries whatever offset the local zone
/// gave, so the window cases quantify over it.
pub open spec fn record_decision(
    cfg: ScanConfig,
    rec: Seq<u8>,
    d: Option<(Severity, LogInstant)>,
) -> bool {
    match d {
        None => !passes_static(cfg, rec) || (ts_text_spec(rec, cfg.format) is Some
            && parse_ts_spec(trim_spaces(ts_text_spec(rec, cfg.format).unwrap())) is Some
            && exists|t: LogInstant|
            #![trigger in_window(cfg, t)]
            instant_of_parsed(
                t,
                parse_ts_spec(trim_spaces(ts_text_spec(rec, cfg.format).unwrap())).unwrap(),
            ) && (!in_window(cfg, t) || !all_match(cfg.custom_filters@, rec, cfg.format))),
        Some((sev, t)) => {
            &&& passes_static(cfg, rec)
            &&& sev == crate::format::severity_spec(cfg.format, rec)
            &&& ts_text_spec(rec, cfg.format) is Some
            &&& parse_ts_spec(trim_spaces(ts_text_spec(rec, cfg.format).unwrap())) is Some
            &&& instant_of_parsed(
                t,
                parse_ts_spec(trim_spaces(ts_text_spec(rec, cfg.format).unwrap())).unwrap(),
            )
            &&& in_window(cfg, t)
            &&& all_match(cfg.custom_filters@, rec, cfg.format)
        },
    }
}

/// Decide one record: the static predicates run first, then the severity
/// floor, then the timestamp window, then the user-supplied predicates.
/// A record that reaches the window but offers no parseable timestamp is a
/// reported error.
#[verifier::rlimit(100)]
pub fn filter_record(record: &[u8], cfg: &ScanConfig) -> (r: Result<
    Option<(Severity, LogInstant)>,
    Error,
>)
    ensures
        match r {
            Ok(d) => record_decision(*cfg, record@, d),
            Err(e) => passes_static(*cfg, record@) && (e == Error::MissingTimestamp
                || e == Error::InvalidTimestamp) && (e == Error::MissingTimestamp
                <==> ts_text_spec(record@, cfg.format) is None) && (ts_text_spec(
                record@,
                cfg.format,
            ) is Some ==> parse_ts_spec(
                trim_spaces(ts_text_spec(record@, cfg.format).unwrap()),
            ) is None),
        },
{
    if !chain_matches(&cfg.static_filters, record, &cfg.format) {
        return Ok(None);
    }
    let sev = cfg.format.severity_from_bytes(record);
    if sev.rank() < cfg.min_severity_rank {
        return Ok(None);
    }
    let ts = match ts_text(record, &cfg.format) {
        None => {
            return Err(Error::MissingTimestamp);
        },
        Some(v) => v,
    };
    let t = match parse_timestamp_trimming(ts.as_slice()) {
        None => {
            return Err(Error::InvalidTimestamp);
        },
        Some(t) => t,
    };
    let ghost parsed = parse_ts_spec(
        trim_spaces(ts_text_spec(record@, cfg.format).unwrap()),
    ).unwrap();
    assert(instant_of_parsed(t, parsed));
    match &cfg.begin {
        Some(b) => if t.nanos < b.nanos {
            proof {
                assert(!in_window(*cfg, t));
            }
            return Ok(None);
        },
        None => {},
    }
    match &cfg.end {
        Some(e) => if t.nanos > e.nanos {
            proof {
                assert(!in_window(*cfg, t));
            }
            return Ok(None);
        },
        None => {},
    }
    if !chain_matches(&cfg.custom_filters, record, &cfg.format) {
        proof {
            assert(in_window(*cfg, t) || !in_window(*cfg, t));
        }
        return Ok(None);
    }
    Ok(Some((sev, t)))
}

/// First record start in `[i, end)` of the range beginning at `lo`, if
/// any.
pub open spec fn next_start(s: Seq<u8>, lo: int, end: int, i: int) -> Option<int>
    decreases end - i,
{
    if i < lo || i >= end {
        None
    } else if rec_start_in(s, lo, i) {
        Some(i)
    } else {
        next_start(s, lo, end, i + 1)
    }
}

pub proof fn lemma_next_start(s: Seq<u8>, lo: int, end: int, i: int)
    requires
        lo <= i,
    ensures
        match next_start(s, lo, end, i) {
            Some(j) => i <= j < end && rec_start_in(s, lo, j) && forall|t: int|
                i <= t < j ==> !rec_start_in(s, lo, t),
            None => forall|t: int| i <= t < end ==> !rec_start_in(s, lo, t),
        },
    decreases end - i,
{
    if i < end && !rec_start_in(s, lo, i) {
        lemma_next_start(s, lo, end, i + 1);
    }
}

/// The whole-record spans from the record start `cur` to `end`.
pub open spec fn spans_from(s: Seq<u8>, lo: int, end: int, cur: int) -> Seq<(int, int)>
    decreases end - cur,
{
    if cur >= end {
        Seq::empty()
    } else {
        match next_start(s, lo, end, cur + 1) {
            None => seq![(cur, end)],
            Some(nxt) => if cur < nxt && nxt < end {
                seq![(cur, nxt)] + spans_from(s, lo, end, nxt)
            } else {
                seq![(cur, end)]
            },
        }
    }
}

/// The whole-record decomposition of `s[start..end]`: nothing when no
/// record starts there, else consecutive spans from the first start.
pub open spec fn spec_spans(s: Seq<u8>, start: int, end: int) -> Seq<(int, int)> {
    match next_start(s, start, end, start) {
        None => Seq::empty(),
        Some(f) => spans_from(s, start, end, f),
    }
}

/// A span list with the whole-record properties is exactly the spec
/// decomposition.
proof fn lemma_spans_are_spec(s: Seq<u8>, start: int, end: int, sp: Seq<(usize, usize)>, k: int)
    requires
        0 <= start <= end <= s.len(),
        forall|t: int| 0 <= t < sp.len() ==> start <= (#[trigger] sp[t]).0 < sp[t].1 <= end,
        forall|t: int| 0 < t < sp.len() ==> (#[trigger] sp[t]).0 == sp[t - 1].1,
        forall|t: int|
            0 <= t < sp.len() ==> rec_start_in(s, start, (#[trigger] sp[t]).0 as int),
        forall|t: int, u: int|
            #![trigger sp[t].0, rec_start_in(s, start, u)]
            0 <= t < sp.len() && sp[t].0 < u < sp[t].1 ==> !rec_start_in(s, start, u),
        sp.len() > 0 ==> sp[sp.len() - 1].1 == end,
        0 <= k < sp.len(),
    ensures
        spans_from(s, start, end, sp[k].0 as int) =~= Seq::new(
            (sp.len() - k) as nat,
            |i: int| (sp[k + i].0 as int, sp[k + i].1 as int),
        ),
    decreases sp.len() - k,
{
    let cur = sp[k].0 as int;
    lemma_next_start(s, start, end, cur + 1);
    if k == sp.len() - 1 {
        // the last span: no further record start before `end`
        assert(next_start(s, start, end, cur + 1) is None) by {
            match next_start(s, start, end, cur + 1) {
                Some(j) => {
                    assert(sp[k].0 < j < sp[k].1 ==> !rec_start_in(s, start, j));
                },
                None => {},
            }
        }
    } else {
        let nxt = sp[k + 1].0 as int;
        assert(next_start(s, start, end, cur + 1) == Some(nxt)) by {
            assert(rec_start_in(s, start, nxt));
            match next_start(s, start, end, cur + 1) {
                Some(j) => {
                    if j < nxt {
                        assert(sp[k].0 < j < sp[k].1 ==> !rec_start_in(s, start, j));
                    }
                },
                None => {},
            }
        }
        lemma_spans_are_spec(s, start, end, sp, k + 1);
    }
}

/// Same, anchored at the head: the exec decomposition is the spec one.
proof fn lemma_spans_match(s: Seq<u8>, start: int, end: int, sp: Seq<(usize, usize)>)
    requires
        0 <= start <= end <= s.len(),
        forall|t: int| 0 <= t < sp.len() ==> start <= (#[trigger] sp[t]).0 < sp[t].1 <= end,
        forall|t: int| 0 < t < sp.len() ==> (#[trigger] sp[t]).0 == sp[t - 1].1,
        forall|t: int|
            0 <= t < sp.len() ==> rec_start_in(s, start, (#[trigger] sp[t]).0 as int),
        forall|t: int, u: int|
            #![trigger sp[t].0, rec_start_in(s, start, u)]
            0 <= t < sp.len() && sp[t].0 < u < sp[t].1 ==> !rec_start_in(s, start, u),
        sp.len() > 0 ==> sp[sp.len() - 1].1 == end,
        sp.len() > 0 ==> forall|u: int| start <= u < sp[0].0 ==> !rec_start_in(s, start, u),
        sp.len() == 0 ==> forall|u: int| start <= u < end ==> !rec_start_in(s, start, u),
    ensures
        spec_spans(s, start, end) =~= Seq::new(
            sp.len() as nat,
            |i: int| (sp[i].0 as int, sp[i].1 as int),
        ),
{
    lemma_next_start(s, start, end, start);
    if sp.len() == 0 {
        assert(next_start(s, start, end, start) is None) by {
            match next_start(s, start, end, start) {
                Some(j) => {
                    assert(!rec_start_in(s, start, j));
                },
                None => {},
            }
        }
    } else {
        assert(next_start(s, start, end, start) == Some(sp[0].0 as int)) by {
            assert(rec_start_in(s, start, sp[0].0 as int));
            match next_start(s, start, end, start) {
                Some(j) => {
                    if j < sp[0].0 as int {
                        assert(!rec_start_in(s, start, j));
                    }
                },
                None => {},
            }
        }
        lemma_spans_are_spec(s, start, end, sp, 0);
    }
}

/// The byte copies of the records that decisions in `ds[..i]` accepted,
/// in order.
pub open spec fn kept_prefix(
    s: Seq<u8>,
    spans: Seq<(int, int)>,
    ds: Seq<Option<(Severity, LogInstant)>>,
    i: int,
) -> Seq<Seq<u8>>
    decreases i,
{
    if i <= 0 {
        Seq::empty()
    } else {
        kept_prefix(s, spans, ds, i - 1) + if ds[i - 1] is Some {
            seq![s.subrange(spans[i - 1].0, spans[i - 1].1)]
        } else {
            Seq::empty()
        }
    }
}

/// The instants of the accepted decisions in `ds[..i]`, in order.
pub open spec fn kept_inst_prefix(ds: Seq<Option<(Severity, LogInstant)>>, i: int) -> Seq<
    LogInstant,
>
    decreases i,
{
    if i <= 0 {
        Seq::empty()
    } else {
        kept_inst_prefix(ds, i - 1) + match ds[i - 1] {
            Some(p) => seq![p.1],
            None => Seq::<LogInstant>::empty(),
        }
    }
}

proof fn lemma_kept_prefix_push(
    s: Seq<u8>,
    spans: Seq<(int, int)>,
    ds: Seq<Option<(Severity, LogInstant)>>,
    d: Option<(Severity, LogInstant)>,
    i: int,
)
    requires
        i <= ds.len(),
    ensures
        kept_prefix(s, spans, ds.push(d), i) == kept_prefix(s, spans, ds, i),
        kept_inst_prefix(ds.push(d), i) == kept_inst_prefix(ds, i),
    decreases i,
{
    if i > 0 {
        lemma_kept_prefix_push(s, spans, ds, d, i - 1);
        assert(ds.push(d)[i - 1] == ds[i - 1]);
    }
}

/// The decisions `ds` describe one scan of `s[start..end]` under `cfg`,
/// and `out` is exactly the accepted records, byte for byte, in order.
pub open spec fn scan_outcome(
    s: Seq<u8>,
    start: int,
    end: int,
    cfg: ScanConfig,
    ds: Seq<Option<(Severity, LogInstant)>>,
    out: Seq<Seq<u8>>,
) -> bool {
    let spans = spec_spans(s, start, end);
    &&& ds.len() == spans.len()
    &&& forall|k: int|
        0 <= k < spans.len() ==> record_decision(
            cfg,
            s.subrange(spans[k].0, spans[k].1),
            #[trigger] ds[k],
        )
    &&& out == kept_prefix(s, spans, ds, spans.len() as int)
}

/// One aggregator's fold relation, by kind.
pub open spec fn aggs_fold_one(
    pre: Aggregator,
    post: Aggregator,
    kept: Seq<Seq<u8>>,
    insts: Seq<LogInstant>,
    fmt: Format,
) -> bool {
    match (pre, post) {
        (Aggregator::Connections(a), Aggregator::Connections(b)) => a.bucket_interval
            == b.bucket_interval,
        (Aggregator::Frequency(a), Aggregator::Frequency(b)) => b.counts.view_entries()
            == crate::aggregators::error_frequency::freq_fold(
            a.counts.view_entries(),
            kept,
            fmt,
        ) && b.limit == a.limit,
        (Aggregator::Histogram(a), Aggregator::Histogram(b)) => b.buckets.view_entries()
            == crate::aggregators::error_histogram::hist_fold(
            a.buckets.view_entries(),
            insts,
            a.bucket_width,
        ) && b.bucket_width == a.bucket_width,
        (Aggregator::TopSlow(a), Aggregator::TopSlow(b)) => crate::countmap::view_of(b.items@)
            == crate::aggregators::top_slow_query::top_fold_recs(
            crate::countmap::view_of(a.items@),
            a.limit as int,
            kept,
        ) && b.limit == a.limit,
        _ => false,
    }
}

/// Each aggregator's final state is the fold of its per-record step over
/// the accepted records (the connection statistics carry their own exact
/// per-record contract instead of a fold form).
pub open spec fn aggs_folded(
    pre: Seq<Aggregator>,
    post: Seq<Aggregator>,
    kept: Seq<Seq<u8>>,
    insts: Seq<LogInstant>,
    fmt: Format,
) -> bool {
    &&& post.len() == pre.len()
    &&& forall|j: int|
        0 <= j < pre.len() ==> aggs_fold_one(#[trigger] pre[j], post[j], kept, insts, fmt)
}

/// An untouched aggregator set is the fold over no records.
proof fn lemma_fold_refl(aggs: Seq<Aggregator>, fmt: Format)
    requires
        forall|j: int| 0 <= j < aggs.len() ==> !((#[trigger] aggs[j]) is Connections) || true,
    ensures
        aggs_folded(aggs, aggs, Seq::empty(), Seq::empty(), fmt),
{
    assert forall|j: int| 0 <= j < aggs.len() implies aggs_fold_one(
        #[trigger] aggs[j],
        aggs[j],
        Seq::empty(),
        Seq::empty(),
        fmt,
    ) by {
        match aggs[j] {
            Aggregator::Frequency(a) => {},
            Aggregator::Histogram(a) => {},
            Aggregator::TopSlow(a) => {},
            Aggregator::Connections(a) => {},
        }
    }
}

/// Appending one decision extends the kept records and instants by that
/// decision's contribution.
proof fn lemma_decision_push(
    s: Seq<u8>,
    spans: Seq<(int, int)>,
    ds: Seq<Option<(Severity, LogInstant)>>,
    d: Option<(Severity, LogInstant)>,
    i: int,
)
    requires
        i == ds.len(),
        0 <= i < spans.len(),
    ensures
        kept_prefix(s, spans, ds.push(d), i + 1) == kept_prefix(s, spans, ds, i) + (match d {
            Some(_) => seq![s.subrange(spans[i].0, spans[i].1)],
            None => Seq::<Seq<u8>>::empty(),
        }),
        kept_inst_prefix(ds.push(d), i + 1) == kept_inst_prefix(ds, i) + (match d {
            Some(p) => seq![p.1],
            None => Seq::<LogInstant>::empty(),
        }),
{
    lemma_kept_prefix_push(s, spans, ds, d, i);
    assert(ds.push(d)[i] == d);
}

/// Every aggregator stepping on one accepted record advances its fold by
/// that record.
proof fn lemma_step_keeps_fold(
    pre: Seq<Aggregator>,
    snap: Seq<Aggregator>,
    post: Seq<Aggregator>,
    kept0: Seq<Seq<u8>>,
    insts0: Seq<LogInstant>,
    rec: Seq<u8>,
    t: LogInstant,
    fmt: Format,
)
    requires
        aggs_folded(pre, snap, kept0, insts0, fmt),
        snap.len() == post.len(),
        forall|j: int|
            0 <= j < post.len() ==> Aggregator::step_ok(snap[j], #[trigger] post[j], rec, fmt, t),
    ensures
        aggs_folded(pre, post, kept0.push(rec), insts0.push(t), fmt),
{
    assert forall|j: int| 0 <= j < pre.len() implies aggs_fold_one(
        #[trigger] pre[j],
        post[j],
        kept0.push(rec),
        insts0.push(t),
        fmt,
    ) by {
        assert(aggs_fold_one(pre[j], snap[j], kept0, insts0, fmt));
        assert(Aggregator::step_ok(snap[j], post[j], rec, fmt, t));
        match (pre[j], snap[j], post[j]) {
            (Aggregator::Frequency(a0), Aggregator::Frequency(a1), Aggregator::Frequency(a2)) => {
                crate::aggregators::error_frequency::lemma_freq_fold_snoc(
                    a0.counts.view_entries(),
                    kept0,
                    rec,
                    fmt,
                );
            },
            (Aggregator::Histogram(a0), Aggregator::Histogram(a1), Aggregator::Histogram(a2)) => {
                crate::aggregators::error_histogram::lemma_hist_fold_snoc(
                    a0.buckets.view_entries(),
                    insts0,
                    t,
                    a0.bucket_width,
                );
            },
            (Aggregator::TopSlow(a0), Aggregator::TopSlow(a1), Aggregator::TopSlow(a2)) => {
                crate::aggregators::top_slow_query::lemma_top_fold_recs_snoc(
                    crate::countmap::view_of(a0.items@),
                    a0.limit as int,
                    kept0,
                    rec,
                );
            },
            _ => {},
        }
    }
}

/// The whole-record spans of a file under a given partition, in order.
pub open spec fn spans_of_parts(s: Seq<u8>, parts: Seq<(usize, usize)>) -> Seq<(int, int)>
    decreases parts.len(),
{
    if parts.len() == 0 {
        Seq::empty()
    } else {
        spans_of_parts(s, parts.drop_last()) + spec_spans(
            s,
            parts.last().0 as int,
            parts.last().1 as int,
        )
    }
}

/// The partition covers the file contiguously, cutting only inside it.
pub open spec fn parts_wf(s: Seq<u8>, parts: Seq<(usize, usize)>) -> bool {
    &&& (s.len() == 0 ==> parts.len() == 0)
    &&& (s.len() > 0 ==> parts.len() >= 1 && parts[0].0 == 0 && parts[parts.len() - 1].1
        == s.len())
    &&& forall|k: int| 0 <= k < parts.len() ==> (#[trigger] parts[k]).0 < parts[k].1 <= s.len()
    &&& forall|k: int| 0 < k < parts.len() ==> (#[trigger] parts[k]).0 == parts[k - 1].1
}

/// `kept_prefix` reads only the first `i` spans and decisions.
proof fn lemma_kept_prefix_congruence(
    s: Seq<u8>,
    sp1: Seq<(int, int)>,
    ds1: Seq<Option<(Severity, LogInstant)>>,
    sp2: Seq<(int, int)>,
    ds2: Seq<Option<(Severity, LogInstant)>>,
    i: int,
)
    requires
        forall|k: int| 0 <= k < i ==> #[trigger] sp1[k] == sp2[k],
        forall|k: int| 0 <= k < i ==> #[trigger] ds1[k] == ds2[k],
    ensures
        kept_prefix(s, sp1, ds1, i) == kept_prefix(s, sp2, ds2, i),
        kept_inst_prefix(ds1, i) == kept_inst_prefix(ds2, i),
    decreases i,
{
    if i > 0 {
        lemma_kept_prefix_congruence(s, sp1, ds1, sp2, ds2, i - 1);
    }
}

/// Kept records and instants of concatenated span/decision runs split at
/// the seam.
proof fn lemma_kept_concat(
    s: Seq<u8>,
    sp1: Seq<(int, int)>,
    ds1: Seq<Option<(Severity, LogInstant)>>,
    sp2: Seq<(int, int)>,
    ds2: Seq<Option<(Severity, LogInstant)>>,
    i: int,
)
    requires
        ds1.len() == sp1.len(),
        ds2.len() == sp2.len(),
        0 <= i <= sp2.len(),
    ensures
        kept_prefix(s, sp1 + sp2, ds1 + ds2, sp1.len() + i) == kept_prefix(
            s,
            sp1,
            ds1,
            sp1.len() as int,
        ) + kept_prefix(s, sp2, ds2, i),
        kept_inst_prefix(ds1 + ds2, sp1.len() + i) == kept_inst_prefix(ds1, sp1.len() as int)
            + kept_inst_prefix(ds2, i),
    decreases i,
{
    if i == 0 {
        lemma_kept_prefix_congruence(s, sp1 + sp2, ds1 + ds2, sp1, ds1, sp1.len() as int);
        assert(kept_prefix(s, sp1, ds1, sp1.len() as int) + kept_prefix(s, sp2, ds2, 0)
            =~= kept_prefix(s, sp1, ds1, sp1.len() as int));
        assert(kept_inst_prefix(ds1, sp1.len() as int) + kept_inst_prefix(ds2, 0)
            =~= kept_inst_prefix(ds1, sp1.len() as int));
    } else {
        lemma_kept_concat(s, sp1, ds1, sp2, ds2, i - 1);
        assert((sp1 + sp2)[sp1.len() + i - 1] == sp2[i - 1]);
        assert((ds1 + ds2)[sp1.len() + i - 1] == ds2[i - 1]);
        assert(kept_prefix(s, sp1 + sp2, ds1 + ds2, sp1.len() + i) =~= kept_prefix(
            s,
            sp1,
            ds1,
            sp1.len() as int,
        ) + kept_prefix(s, sp2, ds2, i));
        assert(kept_inst_prefix(ds1 + ds2, sp1.len() + i) =~= kept_inst_prefix(
            ds1,
            sp1.len() as int,
        ) + kept_inst_prefix(ds2, i));
    }
}

/// Each aggregator's final state against the whole run: exact folds for
/// the frequency and histogram kinds, whose merges are fold-exact; the
/// top-N and connection kinds keep their fixed parameters (their
/// per-range and per-record contracts carry the detail).
pub open spec fn aggs_folded_file(
    pre: Seq<Aggregator>,
    post: Seq<Aggregator>,
    kept: Seq<Seq<u8>>,
    insts: Seq<LogInstant>,
    fmt: Format,
) -> bool {
    &&& post.len() == pre.len()
    &&& forall|j: int|
        0 <= j < pre.len() ==> match (#[trigger] pre[j], post[j]) {
            (Aggregator::Connections(a), Aggregator::Connections(b)) => a.bucket_interval
                == b.bucket_interval,
            (Aggregator::Frequency(a), Aggregator::Frequency(b)) => b.counts.view_entries()
                == crate::aggregators::error_frequency::freq_fold(
                a.counts.view_entries(),
                kept,
                fmt,
            ) && b.limit == a.limit,
            (Aggregator::Histogram(a), Aggregator::Histogram(b)) => b.buckets.view_entries()
                == crate::aggregators::error_histogram::hist_fold(
                a.buckets.view_entries(),
                insts,
                a.bucket_width,
            ) && b.bucket_width == a.bucket_width,
            (Aggregator::TopSlow(a), Aggregator::TopSlow(b)) => b.limit == a.limit,
            _ => false,
        }
}

/// An untouched aggregator set is the file fold over no records.
proof fn lemma_fold_file_refl(aggs: Seq<Aggregator>, fmt: Format)
    ensures
        aggs_folded_file(aggs, aggs, Seq::empty(), Seq::empty(), fmt),
{
    lemma_fold_refl(aggs, fmt);
    assert forall|j: int| 0 <= j < aggs.len() implies match (#[trigger] aggs[j], aggs[j]) {
        (Aggregator::Connections(a), Aggregator::Connections(b)) => a.bucket_interval
            == b.bucket_interval,
        (Aggregator::Frequency(a), Aggregator::Frequency(b)) => b.counts.view_entries()
            == crate::aggregators::error_frequency::freq_fold(
            a.counts.view_entries(),
            Seq::empty(),
            fmt,
        ) && b.limit == a.limit,
        (Aggregator::Histogram(a), Aggregator::Histogram(b)) => b.buckets.view_entries()
            == crate::aggregators::error_histogram::hist_fold(
            a.buckets.view_entries(),
            Seq::empty(),
            a.bucket_width,
        ) && b.bucket_width == a.bucket_width,
        (Aggregator::TopSlow(a), Aggregator::TopSlow(b)) => b.limit == a.limit,
        _ => false,
    } by {
        assert(aggs_fold_one(aggs[j], aggs[j], Seq::empty(), Seq::empty(), fmt));
    }
}

/// Merging one range's shards into the templates extends the file fold by
/// that range's kept records.
proof fn lemma_merge_range_fold(
    pre: Seq<Aggregator>,
    tpl: Seq<Aggregator>,
    shard0: Seq<Aggregator>,
    shard1: Seq<Aggregator>,
    post: Seq<Aggregator>,
    kept: Seq<Seq<u8>>,
    insts: Seq<LogInstant>,
    kept_r: Seq<Seq<u8>>,
    insts_r: Seq<LogInstant>,
    fmt: Format,
)
    requires
        aggs_folded_file(pre, tpl, kept, insts, fmt),
        tpl.len() == shard0.len() == shard1.len() == post.len(),
        forall|j: int| 0 <= j < tpl.len() ==> (#[trigger] tpl[j]).wf(),
        forall|j: int|
            0 <= j < tpl.len() ==> Aggregator::empty_of(tpl[j], #[trigger] shard0[j]),
        aggs_folded(shard0, shard1, kept_r, insts_r, fmt),
        forall|j: int|
            0 <= j < tpl.len() ==> Aggregator::merge_ok(tpl[j], shard1[j], #[trigger] post[j]),
    ensures
        aggs_folded_file(pre, post, kept + kept_r, insts + insts_r, fmt),
{
    assert forall|j: int| 0 <= j < pre.len() implies match (#[trigger] pre[j], post[j]) {
        (Aggregator::Connections(a), Aggregator::Connections(b)) => a.bucket_interval
            == b.bucket_interval,
        (Aggregator::Frequency(a), Aggregator::Frequency(b)) => b.counts.view_entries()
            == crate::aggregators::error_frequency::freq_fold(
            a.counts.view_entries(),
            kept + kept_r,
            fmt,
        ) && b.limit == a.limit,
        (Aggregator::Histogram(a), Aggregator::Histogram(b)) => b.buckets.view_entries()
            == crate::aggregators::error_histogram::hist_fold(
            a.buckets.view_entries(),
            insts + insts_r,
            a.bucket_width,
        ) && b.bucket_width == a.bucket_width,
        (Aggregator::TopSlow(a), Aggregator::TopSlow(b)) => b.limit == a.limit,
        _ => false,
    } by {
        assert(aggs_fold_one(shard0[j], shard1[j], kept_r, insts_r, fmt));
        match (pre[j], tpl[j], shard0[j], shard1[j], post[j]) {
            (
                Aggregator::Frequency(p),
                Aggregator::Frequency(t),
                Aggregator::Frequency(s0),
                Aggregator::Frequency(s1),
                Aggregator::Frequency(q),
            ) => {
                crate::aggregators::error_frequency::lemma_freq_merge_fold(
                    t.counts.view_entries(),
                    kept_r,
                    fmt,
                );
                crate::aggregators::error_frequency::lemma_freq_fold_append(
                    p.counts.view_entries(),
                    kept,
                    kept_r,
                    fmt,
                );
            },
            (
                Aggregator::Histogram(p),
                Aggregator::Histogram(t),
                Aggregator::Histogram(s0),
                Aggregator::Histogram(s1),
                Aggregator::Histogram(q),
            ) => {
                crate::aggregators::error_histogram::lemma_hist_merge_fold(
                    t.buckets.view_entries(),
                    insts_r,
                    t.bucket_width,
                );
                crate::aggregators::error_histogram::lemma_hist_fold_append(
                    p.buckets.view_entries(),
                    insts,
                    insts_r,
                    p.bucket_width,
                );
            },
            _ => {},
        }
    }
}

/// File folds compose: folding a second run after a first equals folding
/// their concatenation.
proof fn lemma_fold_file_trans(
    pre: Seq<Aggregator>,
    mid: Seq<Aggregator>,
    post: Seq<Aggregator>,
    k1: Seq<Seq<u8>>,
    i1: Seq<LogInstant>,
    k2: Seq<Seq<u8>>,
    i2: Seq<LogInstant>,
    fmt: Format,
)
    requires
        aggs_folded_file(pre, mid, k1, i1, fmt),
        aggs_folded_file(mid, post, k2, i2, fmt),
    ensures
        aggs_folded_file(pre, post, k1 + k2, i1 + i2, fmt),
{
    assert forall|j: int| 0 <= j < pre.len() implies match (#[trigger] pre[j], post[j]) {
        (Aggregator::Connections(a), Aggregator::Connections(b)) => a.bucket_interval
            == b.bucket_interval,
        (Aggregator::Frequency(a), Aggregator::Frequency(b)) => b.counts.view_entries()
            == crate::aggregators::error_frequency::freq_fold(
            a.counts.view_entries(),
            k1 + k2,
            fmt,
        ) && b.limit == a.limit,
        (Aggregator::Histogram(a), Aggregator::Histogram(b)) => b.buckets.view_entries()
            == crate::aggregators::error_histogram::hist_fold(
            a.buckets.view_entries(),
            i1 + i2,
            a.bucket_width,
        ) && b.bucket_width == a.bucket_width,
        (Aggregator::TopSlow(a), Aggregator::TopSlow(b)) => b.limit == a.limit,
        _ => false,
    } by {
        match (pre[j], mid[j], post[j]) {
            (
                Aggregator::Frequency(p),
                Aggregator::Frequency(t),
                Aggregator::Frequency(q),
            ) => {
                crate::aggregators::error_frequency::lemma_freq_fold_append(
                    p.counts.view_entries(),
                    k1,
                    k2,
                    fmt,
                );
            },
            (
                Aggregator::Histogram(p),
                Aggregator::Histogram(t),
                Aggregator::Histogram(q),
            ) => {
                crate::aggregators::error_histogram::lemma_hist_fold_append(
                    p.buckets.view_entries(),
                    i1,
                    i2,
                    p.bucket_width,
                );
            },
            _ => {},
        }
    }
}

/// Some decision sequence explains one range's scan-and-merge: the
/// matched records are exactly its accepted ones and the templates
/// advanced by folding them in.
pub open spec fn range_merge_ex(
    s: Seq<u8>,
    rs: int,
    re: int,
    cfg: ScanConfig,
    outv: Seq<Seq<u8>>,
    pre: Seq<Aggregator>,
    post: Seq<Aggregator>,
) -> bool {
    exists|ds: Seq<Option<(Severity, LogInstant)>>|
        #![trigger scan_outcome(s, rs, re, cfg, ds, outv)]
        scan_outcome(s, rs, re, cfg, ds, outv) && aggs_folded_file(
            pre,
            post,
            kept_prefix(s, spec_spans(s, rs, re), ds, spec_spans(s, rs, re).len() as int),
            kept_inst_prefix(ds, spec_spans(s, rs, re).len() as int),
            cfg.format,
        )
}

/// Scan one range into fresh shards and merge them into the templates.
#[verifier::rlimit(100)]
#[verifier::spinoff_prover]
fn run_one_range(
    bytes: &[u8],
    rs: usize,
    re: usize,
    cfg: &ScanConfig,
    aggs: &mut Vec<Aggregator>,
) -> (r: Result<Vec<Vec<u8>>, Error>)
    requires
        rs <= re <= bytes@.len(),
        forall|k: int| 0 <= k < old(aggs)@.len() ==> (#[trigger] old(aggs)@[k]).wf(),
    ensures
        final(aggs)@.len() == old(aggs)@.len(),
        forall|k: int|
            0 <= k < final(aggs)@.len() ==> (#[trigger] final(aggs)@[k]).wf() && old(
                aggs,
            )@[k].same_kind(&final(aggs)@[k]),
        r matches Ok(out) ==> forall|k: int|
            0 <= k < out@.len() ==> whole_record_copy(
                bytes@,
                rs as int,
                re as int,
                (#[trigger] out@[k])@,
            ),
        r matches Ok(out) ==> range_merge_ex(
            bytes@,
            rs as int,
            re as int,
            *cfg,
            crate::logparser::lines_views(out@),
            old(aggs)@,
            final(aggs)@,
        ),
{
    let m = aggs.len();
    let mut shards: Vec<Aggregator> = Vec::new();
    let mut ai: usize = 0;
    while ai < m
        invariant
            m == aggs@.len(),
            ai <= m,
            aggs@ == old(aggs)@,
            forall|k: int| 0 <= k < aggs@.len() ==> (#[trigger] aggs@[k]).wf(),
            shards@.len() == ai,
            forall|k: int|
                0 <= k < shards@.len() ==> (#[trigger] shards@[k]).wf() && aggs@[k].same_kind(
                    &shards@[k],
                ) && Aggregator::empty_of(aggs@[k], shards@[k]),
        decreases m - ai,
    {
        let shard = aggs[ai].clone_empty();
        shards.push(shard);
        ai = ai + 1;
    }
    let ghost shard0 = shards@;
    let ghost tpl = aggs@;
    let matched = match process_range(bytes, rs, re, cfg, &mut shards) {
        Err(e) => {
            return Err(e);
        },
        Ok(v) => v,
    };
    let ghost ssp_r = spec_spans(bytes@, rs as int, re as int);
    let ghost ds_r: Seq<Option<(Severity, LogInstant)>> = choose|ds2: Seq<
        Option<(Severity, LogInstant)>,
    >|
        #![trigger scan_outcome(bytes@, rs as int, re as int, *cfg, ds2, crate::logparser::lines_views(matched@))]
        scan_outcome(
            bytes@,
            rs as int,
            re as int,
            *cfg,
            ds2,
            crate::logparser::lines_views(matched@),
        ) && aggs_folded(
            shard0,
            shards@,
            kept_prefix(bytes@, ssp_r, ds2, ssp_r.len() as int),
            kept_inst_prefix(ds2, ssp_r.len() as int),
            cfg.format,
        );
    let ghost kept_r = kept_prefix(bytes@, ssp_r, ds_r, ssp_r.len() as int);
    let ghost insts_r = kept_inst_prefix(ds_r, ssp_r.len() as int);
    let mut mi: usize = 0;
    while mi < m
        invariant
            m == aggs@.len() == old(aggs)@.len(),
            mi <= m,
            shards@.len() == m,
            tpl == old(aggs)@,
            tpl.len() == m,
            forall|k: int| 0 <= k < shards@.len() ==> (#[trigger] shards@[k]).wf(),
            forall|k: int|
                0 <= k < aggs@.len() ==> (#[trigger] aggs@[k]).wf() && old(aggs)@[k].same_kind(
                    &aggs@[k],
                ),
            forall|k: int| 0 <= k < m ==> (#[trigger] tpl[k]).same_kind(&shards@[k]),
            forall|k: int| 0 <= k < m ==> (#[trigger] tpl[k]).wf(),
            forall|k: int| mi <= k < m ==> #[trigger] aggs@[k] == tpl[k],
            forall|k: int|
                0 <= k < mi ==> Aggregator::merge_ok(tpl[k], shards@[k], #[trigger] aggs@[k]),
        decreases m - mi,
    {
        let shard = &shards[mi];
        let agg = &mut aggs[mi];
        agg.merge(shard);
        mi = mi + 1;
    }
    proof {
        lemma_fold_file_refl(tpl, cfg.format);
        lemma_merge_range_fold(
            old(aggs)@,
            tpl,
            shard0,
            shards@,
            aggs@,
            Seq::empty(),
            Seq::empty(),
            kept_r,
            insts_r,
            cfg.format,
        );
        assert(Seq::<Seq<u8>>::empty() + kept_r =~= kept_r);
        assert(Seq::<LogInstant>::empty() + insts_r =~= insts_r);
        assert(aggs_folded_file(old(aggs)@, aggs@, kept_r, insts_r, cfg.format));
        assert(range_merge_ex(
            bytes@,
            rs as int,
            re as int,
            *cfg,
            crate::logparser::lines_views(matched@),
            old(aggs)@,
            aggs@,
        ));
    }
    Ok(matched)
}

/// Some partition and decision sequence explain the whole-file scan.
pub open spec fn file_outcome_ex(
    s: Seq<u8>,
    cfg: ScanConfig,
    outv: Seq<Seq<u8>>,
    pre: Seq<Aggregator>,
    post: Seq<Aggregator>,
) -> bool {
    exists|parts: Seq<(usize, usize)>, ds: Seq<Option<(Severity, LogInstant)>>|
        #![trigger spans_of_parts(s, parts), kept_inst_prefix(ds, spans_of_parts(s, parts).len() as int)]
        {
            let spans = spans_of_parts(s, parts);
            &&& parts_wf(s, parts)
            &&& ds.len() == spans.len()
            &&& forall|k: int|
                0 <= k < spans.len() ==> record_decision(
                    cfg,
                    s.subrange(spans[k].0, spans[k].1),
                    #[trigger] ds[k],
                )
            &&& outv == kept_prefix(s, spans, ds, spans.len() as int)
            &&& aggs_folded_file(
                pre,
                post,
                kept_prefix(s, spans, ds, spans.len() as int),
                kept_inst_prefix(ds, spans.len() as int),
                cfg.format,
            )
        }
}

/// Decompose a range and hand back the spans with their spec-level facts.
fn spans_with_spec(bytes: &[u8], start: usize, end: usize) -> (r: Vec<(usize, usize)>)
    requires
        start <= end <= bytes@.len(),
    ensures
        spec_spans(bytes@, start as int, end as int).len() == r@.len(),
        forall|k: int|
            0 <= k < r@.len() ==> #[trigger] spec_spans(bytes@, start as int, end as int)[k] == (
                r@[k].0 as int,
                r@[k].1 as int,
            ),
        forall|k: int| 0 <= k < r@.len() ==> start <= (#[trigger] r@[k]).0 < r@[k].1 <= end,
        forall|k: int|
            0 <= k < r@.len() ==> rec_start_in(bytes@, start as int, (#[trigger] r@[k]).0 as int),
        forall|k: int, t: int|
            #![trigger r@[k].0, rec_start_in(bytes@, start as int, t)]
            0 <= k < r@.len() && r@[k].0 < t < r@[k].1 ==> !rec_start_in(bytes@, start as int, t),
{
    let spans = record_spans(bytes, start, end);
    proof {
        lemma_spans_match(bytes@, start as int, end as int, spans@);
    }
    spans
}

/// Some decision sequence explains the scan: the output is exactly its
/// accepted records and the aggregators are folds over them.
pub open spec fn range_outcome_ex(
    s: Seq<u8>,
    start: int,
    end: int,
    cfg: ScanConfig,
    outv: Seq<Seq<u8>>,
    pre: Seq<Aggregator>,
    post: Seq<Aggregator>,
) -> bool {
    exists|ds: Seq<Option<(Severity, LogInstant)>>|
        #![trigger scan_outcome(s, start, end, cfg, ds, outv)]
        scan_outcome(s, start, end, cfg, ds, outv) && aggs_folded(
            pre,
            post,
            kept_prefix(s, spec_spans(s, start, end), ds, spec_spans(s, start, end).len() as int),
            kept_inst_prefix(ds, spec_spans(s, start, end).len() as int),
            cfg.format,
        )
}

/// Package the scan's decision sequence into the driver's outcome clause.
proof fn lemma_outcome_exists(
    s: Seq<u8>,
    start: int,
    end: int,
    cfg: ScanConfig,
    ds: Seq<Option<(Severity, LogInstant)>>,
    outv: Seq<Seq<u8>>,
    pre: Seq<Aggregator>,
    post: Seq<Aggregator>,
)
    requires
        scan_outcome(s, start, end, cfg, ds, outv),
        aggs_folded(
            pre,
            post,
            kept_prefix(s, spec_spans(s, start, end), ds, spec_spans(s, start, end).len() as int),
            kept_inst_prefix(ds, spec_spans(s, start, end).len() as int),
            cfg.format,
        ),
    ensures
        range_outcome_ex(s, start, end, cfg, outv, pre, post),
{
}

/// A slice `[i, j)` of the range `[start, end)` holding exactly one whole
/// record: it begins at a record start and no further record start lies
/// inside it.
pub open spec fn is_whole_record(s: Seq<u8>, start: int, end: int, i: int, j: int) -> bool {
    &&& start <= i < j <= end
    &&& rec_start_in(s, start, i)
    &&& forall|t: int| i < t < j ==> !rec_start_in(s, start, t)
}

/// `rec` is a byte-exact copy of one whole record of `s[start..end]`.
pub open spec fn whole_record_copy(s: Seq<u8>, start: int, end: int, rec: Seq<u8>) -> bool {
    exists|i: int, j: int| is_whole_record(s, start, end, i, j) && rec == s.subrange(i, j)
}

/// `rec` is a byte-exact copy of one whole record of the file, for some
/// range start the partition chose.
pub open spec fn whole_record_of_file(s: Seq<u8>, rec: Seq<u8>) -> bool {
    exists|i: int, j: int, lo: int|
        0 <= lo && is_whole_record(s, lo, s.len() as int, i, j) && rec == s.subrange(i, j)
}

/// Scan the whole records of `bytes[start..end]`: run the chain over each,
/// feed survivors to every aggregator, and return the survivors'
/// byte-exact copies in file order. On success the output is exactly the
/// accepted records of the range's whole-record decomposition, and each
/// aggregator's state is the fold of its step over them.
#[verifier::rlimit(100)]
#[verifier::spinoff_prover]
pub fn process_range(
    bytes: &[u8],
    start: usize,
    end: usize,
    cfg: &ScanConfig,
    aggs: &mut Vec<Aggregator>,
) -> (r: Result<Vec<Vec<u8>>, Error>)
    requires
        start <= end <= bytes@.len(),
        forall|k: int| 0 <= k < old(aggs)@.len() ==> (#[trigger] old(aggs)@[k]).wf(),
    ensures
        final(aggs)@.len() == old(aggs)@.len(),
        forall|k: int|
            0 <= k < final(aggs)@.len() ==> (#[trigger] final(aggs)@[k]).wf() && old(
                aggs,
            )@[k].same_kind(&final(aggs)@[k]),
        r matches Ok(out) ==> forall|k: int|
            0 <= k < out@.len() ==> whole_record_copy(
                bytes@,
                start as int,
                end as int,
                (#[trigger] out@[k])@,
            ),
        r matches Ok(out) ==> range_outcome_ex(
            bytes@,
            start as int,
            end as int,
            *cfg,
            crate::logparser::lines_views(out@),
            old(aggs)@,
            final(aggs)@,
        ),
{
    let spans = spans_with_spec(bytes, start, end);
    let ghost ssp = spec_spans(bytes@, start as int, end as int);
    let mut out: Vec<Vec<u8>> = Vec::new();
    let ghost mut ds: Seq<Option<(Severity, LogInstant)>> = Seq::empty();
    let n = spans.len();
    let mut si: usize = 0;
    proof {
        assert(crate::logparser::lines_views(out@) =~= kept_prefix(bytes@, ssp, ds, 0));
        lemma_fold_refl(aggs@, cfg.format);
        assert(kept_prefix(bytes@, ssp, ds, 0) =~= Seq::<Seq<u8>>::empty());
        assert(kept_inst_prefix(ds, 0) =~= Seq::<LogInstant>::empty());
    }
    while si < n
        invariant
            n == spans@.len(),
            si <= n,
            start <= end <= bytes@.len(),
            ssp == spec_spans(bytes@, start as int, end as int),
            ssp.len() == spans@.len(),
            forall|k: int|
                0 <= k < spans@.len() ==> #[trigger] ssp[k] == (
                    spans@[k].0 as int,
                    spans@[k].1 as int,
                ),
            forall|k: int| 0 <= k < spans@.len() ==> start <= (#[trigger] spans@[k]).0
                < spans@[k].1 <= end,
            forall|k: int|
                0 <= k < spans@.len() ==> rec_start_in(
                    bytes@,
                    start as int,
                    (#[trigger] spans@[k]).0 as int,
                ),
            forall|k: int, t: int|
                #![trigger spans@[k].0, rec_start_in(bytes@, start as int, t)]
                0 <= k < spans@.len() && spans@[k].0 < t < spans@[k].1 ==> !rec_start_in(
                    bytes@,
                    start as int,
                    t,
                ),
            aggs@.len() == old(aggs)@.len(),
            forall|k: int|
                0 <= k < aggs@.len() ==> (#[trigger] aggs@[k]).wf() && old(aggs)@[k].same_kind(
                    &aggs@[k],
                ),
            ds.len() == si,
            forall|k: int|
                0 <= k < si ==> record_decision(
                    *cfg,
                    bytes@.subrange(ssp[k].0, ssp[k].1),
                    #[trigger] ds[k],
                ),
            crate::logparser::lines_views(out@) == kept_prefix(bytes@, ssp, ds, si as int),
            aggs_folded(
                old(aggs)@,
                aggs@,
                kept_prefix(bytes@, ssp, ds, si as int),
                kept_inst_prefix(ds, si as int),
                cfg.format,
            ),
            forall|k: int|
                0 <= k < out@.len() ==> whole_record_copy(
                    bytes@,
                    start as int,
                    end as int,
                    (#[trigger] out@[k])@,
                ),
        decreases n - si,
    {
        let (rs, re) = (spans[si].0, spans[si].1);
        proof {
            assert(rec_start_in(bytes@, start as int, spans@[si as int].0 as int));
            assert(forall|t: int|
                spans@[si as int].0 < t < spans@[si as int].1 ==> !rec_start_in(
                    bytes@,
                    start as int,
                    t,
                ));
        }
        let rec = slice_subrange(bytes, rs, re);
        let ghost kept0 = kept_prefix(bytes@, ssp, ds, si as int);
        let ghost insts0 = kept_inst_prefix(ds, si as int);
        match filter_record(rec, cfg) {
            Err(e) => {
                return Err(e);
            },
            Ok(None) => {
                proof {
                    lemma_decision_push(bytes@, ssp, ds, None, si as int);
                    ds = ds.push(None);
                    assert(kept_prefix(bytes@, ssp, ds, si + 1) =~= kept0);
                    assert(kept_inst_prefix(ds, si + 1) =~= insts0);
                }
            },
            Ok(Some((sev, t))) => {
                let ghost d = Some((sev, t));
                proof {
                    lemma_decision_push(bytes@, ssp, ds, d, si as int);
                    ds = ds.push(d);
                    assert(kept_prefix(bytes@, ssp, ds, si + 1) =~= kept0.push(
                        bytes@.subrange(ssp[si as int].0, ssp[si as int].1),
                    ));
                    assert(kept_inst_prefix(ds, si + 1) =~= insts0.push(t));
                }
                let ghost kept1 = kept_prefix(bytes@, ssp, ds, si + 1);
                let ghost insts1 = kept_inst_prefix(ds, si + 1);
                let ghost snap = aggs@;
                let m = aggs.len();
                let mut ai: usize = 0;
                while ai < m
                    invariant
                        m == aggs@.len(),
                        ai <= m,
                        snap.len() == m,
                        aggs@.len() == old(aggs)@.len(),
                        rec@ == bytes@.subrange(ssp[si as int].0, ssp[si as int].1),
                        si < ssp.len(),
                        forall|j: int|
                            0 <= j < aggs@.len() ==> (#[trigger] aggs@[j]).wf() && old(
                                aggs,
                            )@[j].same_kind(&aggs@[j]),
                        forall|j: int| ai <= j < m ==> #[trigger] aggs@[j] == snap[j],
                        forall|j: int|
                            0 <= j < ai ==> Aggregator::step_ok(
                                snap[j],
                                #[trigger] aggs@[j],
                                rec@,
                                cfg.format,
                                t,
                            ),
                    decreases m - ai,
                {
                    let agg = &mut aggs[ai];
                    match agg.update(rec, &cfg.format, &sev, t) {
                        Ok(_) => {},
                        Err(e) => {
                            return Err(e);
                        },
                    }
                    ai = ai + 1;
                }
                proof {
                    lemma_step_keeps_fold(
                        old(aggs)@,
                        snap,
                        aggs@,
                        kept0,
                        insts0,
                        rec@,
                        t,
                        cfg.format,
                    );
                    assert(kept1 =~= kept0.push(rec@));
                    assert(insts1 =~= insts0.push(t));
                }
                let copy = copy_bytes(rec);
                proof {
                    assert(is_whole_record(
                        bytes@,
                        start as int,
                        end as int,
                        rs as int,
                        re as int,
                    ));
                    assert(copy@ == bytes@.subrange(rs as int, re as int));
                    assert(whole_record_copy(bytes@, start as int, end as int, copy@));
                }
                out.push(copy);
                proof {
                    assert(crate::logparser::lines_views(out@) =~= kept1);
                }
            },
        }
        si = si + 1;
    }
    proof {
        assert(scan_outcome(
            bytes@,
            start as int,
            end as int,
            *cfg,
            ds,
            crate::logparser::lines_views(out@),
        ));
        lemma_outcome_exists(
            bytes@,
            start as int,
            end as int,
            *cfg,
            ds,
            crate::logparser::lines_views(out@),
            old(aggs)@,
            aggs@,
        );
    }
    Ok(out)
}

/// Scan a whole file's bytes: partition into about `workers` ranges on
/// record boundaries, scan each range into fresh shards, merge the shards
/// into the templates in range order, and return the surviving records.
/// On success the output is exactly the accepted records of a
/// boundary-respecting partition's whole-record decomposition, and the
/// frequency and histogram aggregators are the folds over them.
#[verifier::rlimit(100)]
#[verifier::spinoff_prover]
pub fn run_file(
    bytes: &[u8],
    cfg: &ScanConfig,
    aggs: &mut Vec<Aggregator>,
    workers: usize,
) -> (r: Result<Vec<Vec<u8>>, Error>)
    requires
        workers >= 1,
        forall|k: int| 0 <= k < old(aggs)@.len() ==> (#[trigger] old(aggs)@[k]).wf(),
    ensures
        final(aggs)@.len() == old(aggs)@.len(),
        forall|k: int|
            0 <= k < final(aggs)@.len() ==> (#[trigger] final(aggs)@[k]).wf() && old(
                aggs,
            )@[k].same_kind(&final(aggs)@[k]),
        r matches Ok(out) ==> forall|k: int|
            0 <= k < out@.len() ==> whole_record_of_file(bytes@, (#[trigger] out@[k])@),
        r matches Ok(out) ==> file_outcome_ex(
            bytes@,
            *cfg,
            crate::logparser::lines_views(out@),
            old(aggs)@,
            final(aggs)@,
        ),
{
    let ranges = crate::records::partition_ranges(bytes, workers);
    let mut out: Vec<Vec<u8>> = Vec::new();
    let ghost mut tsp: Seq<(int, int)> = Seq::empty();
    let ghost mut tds: Seq<Option<(Severity, LogInstant)>> = Seq::empty();
    let nr = ranges.len();
    let mut ri: usize = 0;
    proof {
        assert(ranges@.subrange(0, 0) =~= Seq::<(usize, usize)>::empty());
        assert(tsp =~= spans_of_parts(bytes@, ranges@.subrange(0, 0)));
        assert(crate::logparser::lines_views(out@) =~= kept_prefix(bytes@, tsp, tds, 0));
        lemma_fold_refl(aggs@, cfg.format);
        assert(kept_prefix(bytes@, tsp, tds, 0) =~= Seq::<Seq<u8>>::empty());
        assert(kept_inst_prefix(tds, 0) =~= Seq::<LogInstant>::empty());
        lemma_fold_file_refl(aggs@, cfg.format);
        assert(aggs_folded_file(
            old(aggs)@,
            aggs@,
            kept_prefix(bytes@, tsp, tds, 0),
            kept_inst_prefix(tds, 0),
            cfg.format,
        ));
    }
    while ri < nr
        invariant
            nr == ranges@.len(),
            ri <= nr,
            ranges_wf(bytes@, ranges@),
            bytes@.len() == 0 ==> ranges@.len() == 0,
            bytes@.len() > 0 ==> ranges@.len() >= 1 && ranges@[0].0 == 0 && ranges@[ranges@.len()
                - 1].1 == bytes@.len(),
            forall|k: int| 0 < k < ranges@.len() ==> (#[trigger] ranges@[k]).0 == ranges@[k
                - 1].1,
            aggs@.len() == old(aggs)@.len(),
            forall|k: int|
                0 <= k < aggs@.len() ==> (#[trigger] aggs@[k]).wf() && old(aggs)@[k].same_kind(
                    &aggs@[k],
                ),
            tsp == spans_of_parts(bytes@, ranges@.subrange(0, ri as int)),
            tds.len() == tsp.len(),
            forall|k: int|
                0 <= k < tsp.len() ==> record_decision(
                    *cfg,
                    bytes@.subrange(tsp[k].0, tsp[k].1),
                    #[trigger] tds[k],
                ),
            crate::logparser::lines_views(out@) == kept_prefix(
                bytes@,
                tsp,
                tds,
                tsp.len() as int,
            ),
            aggs_folded_file(
                old(aggs)@,
                aggs@,
                kept_prefix(bytes@, tsp, tds, tsp.len() as int),
                kept_inst_prefix(tds, tsp.len() as int),
                cfg.format,
            ),
            forall|k: int|
                0 <= k < out@.len() ==> whole_record_of_file(bytes@, (#[trigger] out@[k])@),
        decreases nr - ri,
    {
        let (rs, re) = (ranges[ri].0, ranges[ri].1);
        let ghost aggs_mid = aggs@;
        let matched = match run_one_range(bytes, rs, re, cfg, aggs) {
            Err(e) => {
                return Err(e);
            },
            Ok(v) => v,
        };
        let ghost ssp_r = spec_spans(bytes@, rs as int, re as int);
        let ghost ds_r: Seq<Option<(Severity, LogInstant)>> = choose|ds2: Seq<
            Option<(Severity, LogInstant)>,
        >|
            #![trigger scan_outcome(bytes@, rs as int, re as int, *cfg, ds2, crate::logparser::lines_views(matched@))]
            scan_outcome(
                bytes@,
                rs as int,
                re as int,
                *cfg,
                ds2,
                crate::logparser::lines_views(matched@),
            ) && aggs_folded_file(
                aggs_mid,
                aggs@,
                kept_prefix(bytes@, ssp_r, ds2, ssp_r.len() as int),
                kept_inst_prefix(ds2, ssp_r.len() as int),
                cfg.format,
            );
        let ghost kept_r = kept_prefix(bytes@, ssp_r, ds_r, ssp_r.len() as int);
        let ghost insts_r = kept_inst_prefix(ds_r, ssp_r.len() as int);
        let ghost kept0 = kept_prefix(bytes@, tsp, tds, tsp.len() as int);
        let ghost insts0 = kept_inst_prefix(tds, tsp.len() as int);
        proof {
            lemma_fold_file_trans(
                old(aggs)@,
                aggs_mid,
                aggs@,
                kept0,
                insts0,
                kept_r,
                insts_r,
                cfg.format,
            );
            let old_tsp = tsp;
            let old_tds = tds;
            tsp = tsp + ssp_r;
            tds = tds + ds_r;
            lemma_kept_concat(bytes@, old_tsp, old_tds, ssp_r, ds_r, ssp_r.len() as int);
            assert(kept_prefix(bytes@, tsp, tds, tsp.len() as int) == kept0 + kept_r);
            assert(kept_inst_prefix(tds, tsp.len() as int) == insts0 + insts_r);
            assert(ranges@.subrange(0, ri + 1).drop_last() =~= ranges@.subrange(0, ri as int));
            assert(ranges@.subrange(0, ri + 1).last() == ranges@[ri as int]);
            assert(tsp =~= spans_of_parts(bytes@, ranges@.subrange(0, ri + 1)));
            assert forall|k: int|
                0 <= k < tsp.len() implies record_decision(
                *cfg,
                bytes@.subrange(tsp[k].0, tsp[k].1),
                #[trigger] tds[k],
            ) by {
                if k < old_tsp.len() {
                    assert(tsp[k] == old_tsp[k] && tds[k] == old_tds[k]);
                } else {
                    assert(tsp[k] == ssp_r[k - old_tsp.len()] && tds[k] == ds_r[k
                        - old_tsp.len()]);
                }
            }
        }
        let mut ci: usize = 0;
        let cn = matched.len();
        let ghost outv0 = crate::logparser::lines_views(out@);
        while ci < cn
            invariant
                cn == matched@.len(),
                ci <= cn,
                crate::logparser::lines_views(matched@) == kept_r,
                forall|k: int|
                    0 <= k < matched@.len() ==> whole_record_copy(
                        bytes@,
                        rs as int,
                        re as int,
                        (#[trigger] matched@[k])@,
                    ),
                start_end_ok(bytes@, rs as int, re as int),
                crate::logparser::lines_views(out@) == outv0 + kept_r.subrange(0, ci as int),
                forall|k: int|
                    0 <= k < out@.len() ==> whole_record_of_file(bytes@, (#[trigger] out@[k])@),
            decreases cn - ci,
        {
            let rec = copy_bytes(matched[ci].as_slice());
            proof {
                assert(whole_record_copy(bytes@, rs as int, re as int, matched@[ci as int]@));
                let (i, j) = choose|i: int, j: int|
                    is_whole_record(bytes@, rs as int, re as int, i, j) && matched@[
                    ci as int]@ == bytes@.subrange(i, j);
                assert(is_whole_record(bytes@, rs as int, bytes@.len() as int, i, j));
                assert(0 <= rs as int && is_whole_record(
                    bytes@,
                    rs as int,
                    bytes@.len() as int,
                    i,
                    j,
                ) && rec@ == bytes@.subrange(i, j));
                assert(whole_record_of_file(bytes@, rec@));
            }
            proof {
                assert(crate::logparser::lines_views(matched@)[ci as int] == matched@[
                ci as int]@);
                assert(rec@ == kept_r[ci as int]);
            }
            let ghost prev = out@;
            out.push(rec);
            proof {
                assert forall|t: int|
                    0 <= t < prev.len() implies #[trigger] crate::logparser::lines_views(
                    out@,
                )[t] == crate::logparser::lines_views(prev)[t] by {
                    assert(out@[t] == prev[t]);
                }
                assert(crate::logparser::lines_views(out@)[prev.len() as int] == rec@);
                assert(crate::logparser::lines_views(out@) =~= crate::logparser::lines_views(
                    prev,
                ).push(rec@));
                assert((outv0 + kept_r.subrange(0, ci as int)).push(kept_r[ci as int]) =~= outv0
                    + kept_r.subrange(0, ci + 1));
            }
            ci = ci + 1;
        }
        proof {
            assert(kept_r.subrange(0, cn as int) =~= kept_r);
            assert(crate::logparser::lines_views(out@) =~= kept_prefix(
                bytes@,
                tsp,
                tds,
                tsp.len() as int,
            ));
        }
        ri = ri + 1;
    }
    proof {
        assert(ranges@.subrange(0, nr as int) =~= ranges@);
        assert(parts_wf(bytes@, ranges@));
        assert(file_outcome_ex(
            bytes@,
            *cfg,
            crate::logparser::lines_views(out@),
            old(aggs)@,
            aggs@,
        )) by {
            let spans = spans_of_parts(bytes@, ranges@);
            assert(tsp == spans);
            assert(parts_wf(bytes@, ranges@) && tds.len() == spans.len()
                && crate::logparser::lines_views(out@) == kept_prefix(
                bytes@,
                spans,
                tds,
                spans.len() as int,
            ) && aggs_folded_file(
                old(aggs)@,
                aggs@,
                kept_prefix(bytes@, spans, tds, spans.len() as int),
                kept_inst_prefix(tds, spans.len() as int),
                cfg.format,
            ));
        }
    }
    Ok(out)
}

/// The accept flags of a decision sequence.
pub open spec fn flags_of(ds: Seq<Option<(Severity, LogInstant)>>) -> Seq<bool> {
    Seq::new(ds.len(), |k: int| ds[k] is Some)
}

/// The records of the first `i` spans that the context window selects.
pub open spec fn ctx_prefix(
    s: Seq<u8>,
    spans: Seq<(int, int)>,
    ds: Seq<Option<(Severity, LogInstant)>>,
    before: int,
    after: int,
    i: int,
) -> Seq<Seq<u8>>
    decreases i,
{
    if i <= 0 {
        Seq::empty()
    } else {
        ctx_prefix(s, spans, ds, before, after, i - 1) + if in_context(
            flags_of(ds),
            before,
            after,
            i - 1,
        ) {
            seq![s.subrange(spans[i - 1].0, spans[i - 1].1)]
        } else {
            Seq::empty()
        }
    }
}

/// Some decision sequence explains the context scan: the output is
/// exactly the records within the window of an accepted one.
pub open spec fn context_outcome_ex(
    s: Seq<u8>,
    cfg: ScanConfig,
    before: int,
    after: int,
    outv: Seq<Seq<u8>>,
) -> bool {
    exists|ds: Seq<Option<(Severity, LogInstant)>>|
        #![trigger ctx_prefix(s, spec_spans(s, 0, s.len() as int), ds, before, after, spec_spans(s, 0, s.len() as int).len() as int)]
        {
            let spans = spec_spans(s, 0, s.len() as int);
            &&& ds.len() == spans.len()
            &&& forall|k: int|
                0 <= k < spans.len() ==> record_decision(
                    cfg,
                    s.subrange(spans[k].0, spans[k].1),
                    #[trigger] ds[k],
                )
            &&& outv == ctx_prefix(s, spans, ds, before, after, spans.len() as int)
        }
}

/// Widen match flags by a context window: position `k` is selected exactly
/// when some match lies at most `before` positions after it or at most
/// `after` positions before it.
pub open spec fn in_context(matched: Seq<bool>, before: int, after: int, k: int) -> bool {
    exists|j: int| 0 <= j < matched.len() && matched[j] && j - before <= k <= j + after
}

/// Compute the context-window selection over match flags.
pub fn select_context(matched: &Vec<bool>, before: usize, after: usize) -> (r: Vec<bool>)
    ensures
        r@.len() == matched@.len(),
        forall|k: int|
            0 <= k < r@.len() ==> r@[k] == in_context(
                matched@,
                before as int,
                after as int,
                k,
            ),
{
    let n = matched.len();
    let mut r: Vec<bool> = Vec::new();
    let mut k: usize = 0;
    while k < n
        invariant
            n == matched@.len(),
            k <= n,
            r@.len() == k,
            forall|t: int|
                0 <= t < k ==> r@[t] == in_context(matched@, before as int, after as int, t),
        decreases n - k,
    {
        let lo = if k > after {
            k - after
        } else {
            0
        };
        let hi = if before >= n - 1 - k {
            n - 1
        } else {
            k + before
        };
        let mut found = false;
        let mut j: usize = lo;
        while j <= hi
            invariant
                lo <= j <= hi + 1,
                hi < n,
                n == matched@.len(),
                lo == if k > after {
                    k - after
                } else {
                    0
                },
                hi == if before >= n - 1 - k {
                    n - 1
                } else {
                    k + before
                },
                k < n,
                found ==> in_context(matched@, before as int, after as int, k as int),
                !found ==> forall|t: int| lo <= t < j ==> !matched@[t],
            decreases hi + 1 - j,
        {
            if matched[j] {
                proof {
                    assert(0 <= j < matched@.len() && matched@[j as int] && j - before <= k as int
                        <= j + after);
                }
                found = true;
            }
            j = j + 1;
        }
        proof {
            if !found {
                assert forall|j2: int|
                    0 <= j2 < matched@.len() && matched@[j2] implies !(j2 - before <= k as int
                    <= j2 + after) by {
                    if lo <= j2 <= hi {
                    }
                }
            }
        }
        r.push(found);
        k = k + 1;
    }
    r
}

/// Scan a whole file single-threaded, keeping `before` records of leading
/// and `after` records of trailing context around each surviving record,
/// as the grep-style runs ask. On success the output is exactly the whole
/// records inside the context window of an accepted record, in file order.
#[verifier::rlimit(100)]
#[verifier::spinoff_prover]
pub fn run_file_with_context(
    bytes: &[u8],
    cfg: &ScanConfig,
    before: usize,
    after: usize,
) -> (r: Result<Vec<Vec<u8>>, Error>)
    ensures
        r matches Ok(out) ==> forall|k: int|
            0 <= k < out@.len() ==> whole_record_copy(
                bytes@,
                0,
                bytes@.len() as int,
                (#[trigger] out@[k])@,
            ),
        r matches Ok(out) ==> context_outcome_ex(
            bytes@,
            *cfg,
            before as int,
            after as int,
            crate::logparser::lines_views(out@),
        ),
{
    let n = bytes.len();
    let spans = spans_with_spec(bytes, 0, n);
    let ghost ssp = spec_spans(bytes@, 0, n as int);
    let ns = spans.len();
    let mut flags: Vec<bool> = Vec::new();
    let ghost mut ds: Seq<Option<(Severity, LogInstant)>> = Seq::empty();
    let mut si: usize = 0;
    while si < ns
        invariant
            ns == spans@.len(),
            n == bytes@.len(),
            si <= ns,
            ssp == spec_spans(bytes@, 0, n as int),
            ssp.len() == spans@.len(),
            forall|k: int|
                0 <= k < spans@.len() ==> #[trigger] ssp[k] == (
                    spans@[k].0 as int,
                    spans@[k].1 as int,
                ),
            forall|k: int| 0 <= k < spans@.len() ==> 0 <= (#[trigger] spans@[k]).0 < spans@[k].1
                <= n,
            ds.len() == si,
            flags@.len() == si,
            forall|k: int| 0 <= k < si ==> #[trigger] flags@[k] == (ds[k] is Some),
            forall|k: int|
                0 <= k < si ==> record_decision(
                    *cfg,
                    bytes@.subrange(ssp[k].0, ssp[k].1),
                    #[trigger] ds[k],
                ),
        decreases ns - si,
    {
        let rec = slice_subrange(bytes, spans[si].0, spans[si].1);
        match filter_record(rec, cfg) {
            Err(e) => {
                return Err(e);
            },
            Ok(None) => {
                flags.push(false);
                proof {
                    ds = ds.push(None);
                }
            },
            Ok(Some(p)) => {
                flags.push(true);
                proof {
                    ds = ds.push(Some(p));
                }
            },
        }
        si = si + 1;
    }
    let selected = select_context(&flags, before, after);
    let mut out: Vec<Vec<u8>> = Vec::new();
    proof {
        assert(flags@ =~= flags_of(ds));
        assert(crate::logparser::lines_views(out@) =~= ctx_prefix(
            bytes@,
            ssp,
            ds,
            before as int,
            after as int,
            0,
        ));
    }
    let mut k: usize = 0;
    while k < ns
        invariant
            ns == spans@.len(),
            n == bytes@.len(),
            k <= ns,
            selected@.len() == ns,
            flags@.len() == ns,
            flags@ == flags_of(ds),
            ds.len() == ns,
            ssp == spec_spans(bytes@, 0, n as int),
            ssp.len() == spans@.len(),
            forall|t: int|
                0 <= t < spans@.len() ==> #[trigger] ssp[t] == (
                    spans@[t].0 as int,
                    spans@[t].1 as int,
                ),
            forall|t: int| 0 <= t < spans@.len() ==> 0 <= (#[trigger] spans@[t]).0 < spans@[t].1
                <= n,
            forall|t: int|
                0 <= t < spans@.len() ==> rec_start_in(
                    bytes@,
                    0,
                    (#[trigger] spans@[t]).0 as int,
                ),
            forall|t: int, u: int|
                #![trigger spans@[t].0, rec_start_in(bytes@, 0, u)]
                0 <= t < spans@.len() && spans@[t].0 < u < spans@[t].1 ==> !rec_start_in(
                    bytes@,
                    0,
                    u,
                ),
            forall|t: int|
                0 <= t < ns ==> #[trigger] selected@[t] == in_context(
                    flags_of(ds),
                    before as int,
                    after as int,
                    t,
                ),
            forall|t: int|
                0 <= t < ns ==> record_decision(
                    *cfg,
                    bytes@.subrange(ssp[t].0, ssp[t].1),
                    #[trigger] ds[t],
                ),
            crate::logparser::lines_views(out@) == ctx_prefix(
                bytes@,
                ssp,
                ds,
                before as int,
                after as int,
                k as int,
            ),
            forall|t: int|
                0 <= t < out@.len() ==> whole_record_copy(
                    bytes@,
                    0,
                    bytes@.len() as int,
                    (#[trigger] out@[t])@,
                ),
        decreases ns - k,
    {
        if selected[k] {
            let copy = copy_bytes(slice_subrange(bytes, spans[k].0, spans[k].1));
            proof {
                assert(is_whole_record(
                    bytes@,
                    0,
                    n as int,
                    spans@[k as int].0 as int,
                    spans@[k as int].1 as int,
                ));
                assert(whole_record_copy(bytes@, 0, bytes@.len() as int, copy@));
            }
            out.push(copy);
        }
        proof {
            assert(crate::logparser::lines_views(out@) =~= ctx_prefix(
                bytes@,
                ssp,
                ds,
                before as int,
                after as int,
                k + 1,
            ));
        }
        k = k + 1;
    }
    proof {
        assert(context_outcome_ex(
            bytes@,
            *cfg,
            before as int,
            after as int,
            crate::logparser::lines_views(out@),
        )) by {
            assert(ds.len() == ssp.len() && crate::logparser::lines_views(out@) == ctx_prefix(
                bytes@,
                ssp,
                ds,
                before as int,
                after as int,
                ssp.len() as int,
            ));
        }
    }
    Ok(out)
}

} // verus!
