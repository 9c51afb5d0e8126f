//! The filter chain: pure predicates over record bytes, each a concrete
//! type behind one trait, combined into an ordered chain whose acceptance
//! does not depend on the order of its predicates.

use vstd::prelude::*;

use crate::Format;

pub mod filter_contains;
pub mod filter_contains_ci;
pub mod filter_slow;
pub mod filter_starts_with;
pub mod locking_filter;
pub mod system_filter;

pub use filter_contains::FilterContains;
pub use filter_contains_ci::FilterContainsCi;
pub use filter_slow::FilterSlow;
pub use filter_starts_with::FilterStartsWith;
pub use locking_filter::LockingFilter;
pub use system_filter::SystemFilter;

verus! {

/// A predicate over one record's bytes and its format.
pub trait Filter {
    /// What the predicate holds of a record.
    spec fn spec_matches(&self, rec: Seq<u8>, fmt: Format) -> bool;

    /// Decide the predicate on a record.
    fn matches(&self, record: &[u8], fmt: &Format) -> (r: bool)
        ensures
            r == self.spec_matches(record@, *fmt),
    ;
}

/// One predicate of the chain, as a tagged variant.
pub enum Predicate {
    Contains(FilterContains),
    ContainsCi(FilterContainsCi),
    StartsWith(FilterStartsWith),
    Slow(FilterSlow),
    Locking(LockingFilter),
    System(SystemFilter),
}

impl Filter for Predicate {
    open spec fn spec_matches(&self, rec: Seq<u8>, fmt: Format) -> bool {
        match self {
            Predicate::Contains(f) => f.spec_matches(rec, fmt),
            Predicate::ContainsCi(f) => f.spec_matches(rec, fmt),
            Predicate::StartsWith(f) => f.spec_matches(rec, fmt),
            Predicate::Slow(f) => f.spec_matches(rec, fmt),
            Predicate::Locking(f) => f.spec_matches(rec, fmt),
            Predicate::System(f) => f.spec_matches(rec, fmt),
        }
    }

    fn matches(&self, record: &[u8], fmt: &Format) -> (r: bool) {
        match self {
            Predicate::Contains(f) => f.matches(record, fmt),
            Predicate::ContainsCi(f) => f.matches(record, fmt),
            Predicate::StartsWith(f) => f.matches(record, fmt),
            Predicate::Slow(f) => f.matches(record, fmt),
            Predicate::Locking(f) => f.matches(record, fmt),
            Predicate::System(f) => f.matches(record, fmt),
        }
    }
}

/// Every predicate of the chain accepts the record.
pub open spec fn all_match(chain: Seq<Predicate>, rec: Seq<u8>, fmt: Format) -> bool {
    forall|i: int| 0 <= i < chain.len() ==> #[trigger] chain[i].spec_matches(rec, fmt)
}

/// Run a chain of predicates over a record, left to right, stopping at the
/// first to reject.
pub fn chain_matches(chain: &Vec<Predicate>, record: &[u8], fmt: &Format) -> (r: bool)
    ensures
        r == all_match(chain@, record@, *fmt),
{
    let n = chain.len();
    let mut i: usize = 0;
    while i < n
        invariant
            i <= n,
            n == chain@.len(),
            forall|k: int| 0 <= k < i ==> #[trigger] chain@[k].spec_matches(record@, *fmt),
        decreases n - i,
    {
        if !chain[i].matches(record, fmt) {
            return false;
        }
        i = i + 1;
    }
    true
}

/// Filter commutativity: two chains made of the same predicates, in any
/// order, accept exactly the same records.
pub proof fn lemma_chain_reorder(a: Seq<Predicate>, b: Seq<Predicate>, rec: Seq<u8>, fmt: Format)
    requires
        a.to_multiset() == b.to_multiset(),
    ensures
        all_match(a, rec, fmt) == all_match(b, rec, fmt),
{
    broadcast use vstd::seq_lib::group_to_multiset_ensures;

    assert forall|x: Seq<Predicate>, y: Seq<Predicate>|
        x.to_multiset() == y.to_multiset() && all_match(x, rec, fmt) implies all_match(
        y,
        rec,
        fmt,
    ) by {
        assert forall|i: int| 0 <= i < y.len() implies #[trigger] y[i].spec_matches(
            rec,
            fmt,
        ) by {
            assert(y.contains(y[i]));
            assert(y.to_multiset().count(y[i]) > 0);
            assert(x.contains(y[i]));
            let j = choose|j: int| 0 <= j < x.len() && x[j] == y[i];
            assert(x[j].spec_matches(rec, fmt));
        }
    }
}

} // verus!
