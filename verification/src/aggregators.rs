//! The aggregators: stateful sinks that absorb filtered records, merge
//! across shards, and render deterministic, sorted output.

use vstd::prelude::*;

pub mod connections;
pub mod error_frequency;
pub mod error_histogram;
pub mod slow_query;
pub mod top_slow_query;
pub mod zero;

pub use connections::ConnectionsAggregator;
pub use error_frequency::ErrorFrequencyAggregator;
pub use error_histogram::ErrorHistogramAggregator;
pub use slow_query::SlowQueryAggregator;
pub use top_slow_query::TopSlowQueries;
pub use zero::ZeroAgregator;

use crate::error::Error;
use crate::severity::Severity;
use crate::timeparse::LogInstant;
use crate::Format;

verus! {

/// One aggregator of the run's set, as a tagged variant; shard and template
/// always carry the same tag, so a merge can never cross kinds.
pub enum Aggregator {
    Connections(ConnectionsAggregator),
    Frequency(ErrorFrequencyAggregator),
    Histogram(ErrorHistogramAggregator),
    TopSlow(TopSlowQueries),
}

impl Aggregator {
    pub open spec fn wf(&self) -> bool {
        match self {
            Aggregator::Connections(a) => a.wf(),
            Aggregator::Frequency(a) => a.wf(),
            Aggregator::Histogram(a) => a.wf(),
            Aggregator::TopSlow(a) => a.wf(),
        }
    }

    /// Both sides carry the same variant and fixed parameters.
    pub open spec fn same_kind(&self, other: &Aggregator) -> bool {
        match (self, other) {
            (Aggregator::Connections(a), Aggregator::Connections(b)) => a.bucket_interval
                == b.bucket_interval,
            (Aggregator::Frequency(a), Aggregator::Frequency(b)) => a.limit == b.limit,
            (Aggregator::Histogram(a), Aggregator::Histogram(b)) => a.bucket_width
                == b.bucket_width,
            (Aggregator::TopSlow(a), Aggregator::TopSlow(b)) => a.limit == b.limit,
            _ => false,
        }
    }

    /// One record's effect on this aggregator's abstract state, by kind;
    /// the connection statistics keep their own exact per-type contract.
    pub open spec fn step_ok(
        pre: Aggregator,
        post: Aggregator,
        rec: Seq<u8>,
        fmt: Format,
        log_time: LogInstant,
    ) -> bool {
        match (pre, post) {
            (Aggregator::Connections(a), Aggregator::Connections(b)) => a.bucket_interval
                == b.bucket_interval,
            (Aggregator::Frequency(a), Aggregator::Frequency(b)) => b.counts.view_entries()
                == crate::aggregators::error_frequency::freq_step(
                a.counts.view_entries(),
                rec,
                fmt,
            ) && b.limit == a.limit,
            (Aggregator::Histogram(a), Aggregator::Histogram(b)) => b.buckets.view_entries()
                == crate::aggregators::error_histogram::hist_step(
                a.buckets.view_entries(),
                log_time,
                a.bucket_width,
            ) && b.bucket_width == a.bucket_width,
            (Aggregator::TopSlow(a), Aggregator::TopSlow(b)) => crate::countmap::view_of(
                b.items@,
            ) == crate::aggregators::top_slow_query::top_step(
                crate::countmap::view_of(a.items@),
                a.limit as int,
                rec,
            ) && b.limit == a.limit,
            _ => false,
        }
    }

    /// Feed one surviving record into this aggregator.
    pub fn update(
        &mut self,
        record: &[u8],
        fmt: &Format,
        severity: &Severity,
        log_time: LogInstant,
    ) -> (r: Result<(), Error>)
        requires
            old(self).wf(),
        ensures
            final(self).wf(),
            old(self).same_kind(final(self)),
            Self::step_ok(*old(self), *final(self), record@, *fmt, log_time),
    {
        match self {
            Aggregator::Connections(a) => a.update(record, fmt, severity, log_time),
            Aggregator::Frequency(a) => a.update(record, fmt),
            Aggregator::Histogram(a) => a.update(log_time),
            Aggregator::TopSlow(a) => a.update(record, fmt),
        }
    }

    /// What merging a shard does, by kind.
    pub open spec fn merge_ok(pre: Aggregator, other: Aggregator, post: Aggregator) -> bool {
        match (pre, other, post) {
            (
                Aggregator::Connections(a),
                Aggregator::Connections(o),
                Aggregator::Connections(b),
            ) => a.bucket_interval == b.bucket_interval,
            (Aggregator::Frequency(a), Aggregator::Frequency(o), Aggregator::Frequency(b)) => b
                .counts.view_entries() == crate::countmap::merge_spec(
                a.counts.view_entries(),
                o.counts.view_entries(),
            ) && b.limit == a.limit,
            (Aggregator::Histogram(a), Aggregator::Histogram(o), Aggregator::Histogram(b)) => b
                .buckets.view_entries() == crate::countmap::merge_spec(
                a.buckets.view_entries(),
                o.buckets.view_entries(),
            ) && b.bucket_width == a.bucket_width,
            (Aggregator::TopSlow(a), Aggregator::TopSlow(o), Aggregator::TopSlow(b)) => crate
                ::countmap::view_of(b.items@) == crate::aggregators::top_slow_query::top_fold(
                crate::countmap::view_of(a.items@),
                a.limit as int,
                crate::countmap::view_of(o.items@),
            ) && b.limit == a.limit,
            _ => false,
        }
    }

    /// Fold a shard of the same kind into this template.
    pub fn merge(&mut self, other: &Aggregator)
        requires
            old(self).wf(),
            old(self).same_kind(other),
        ensures
            final(self).wf(),
            old(self).same_kind(final(self)),
            Self::merge_ok(*old(self), *other, *final(self)),
    {
        match (self, other) {
            (Aggregator::Connections(a), Aggregator::Connections(b)) => a.merge(b),
            (Aggregator::Frequency(a), Aggregator::Frequency(b)) => a.merge(b),
            (Aggregator::Histogram(a), Aggregator::Histogram(b)) => a.merge(b),
            (Aggregator::TopSlow(a), Aggregator::TopSlow(b)) => a.merge(b),
            _ => {},
        }
    }

    /// The shard starts empty, with the template's fixed parameters.
    pub open spec fn empty_of(pre: Aggregator, post: Aggregator) -> bool {
        match (pre, post) {
            (Aggregator::Connections(a), Aggregator::Connections(b)) => a.bucket_interval
                == b.bucket_interval,
            (Aggregator::Frequency(a), Aggregator::Frequency(b)) => b.counts.view_entries()
                == Seq::<(Seq<u8>, u64)>::empty() && b.limit == a.limit,
            (Aggregator::Histogram(a), Aggregator::Histogram(b)) => b.buckets.view_entries()
                == Seq::<(i64, u64)>::empty() && b.bucket_width == a.bucket_width,
            (Aggregator::TopSlow(a), Aggregator::TopSlow(b)) => crate::countmap::view_of(
                b.items@,
            ) == Seq::<(Seq<u8>, u64)>::empty() && b.limit == a.limit,
            _ => false,
        }
    }

    /// A shard of the same kind with empty state.
    pub fn clone_empty(&self) -> (r: Aggregator)
        requires
            self.wf(),
        ensures
            r.wf(),
            self.same_kind(&r),
            Self::empty_of(*self, r),
    {
        match self {
            Aggregator::Connections(a) => Aggregator::Connections(a.clone_empty()),
            Aggregator::Frequency(a) => Aggregator::Frequency(a.clone_empty()),
            Aggregator::Histogram(a) => Aggregator::Histogram(a.clone_empty()),
            Aggregator::TopSlow(a) => Aggregator::TopSlow(a.clone_empty()),
        }
    }

    /// Render this aggregator's state for printing.
    pub fn render(&self) -> Vec<u8> {
        match self {
            Aggregator::Connections(a) => a.render(),
            Aggregator::Frequency(a) => a.render(),
            Aggregator::Histogram(a) => a.render(),
            Aggregator::TopSlow(a) => a.render(),
        }
    }
}

} // verus!
