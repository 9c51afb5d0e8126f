//! The duration-threshold predicate.

use vstd::prelude::*;

use crate::duration::{extract_duration, extract_duration_spec};
use crate::filters::Filter;
use crate::Format;

verus! {

/// Accepts records whose embedded `duration:` field exceeds a threshold,
/// in nanoseconds; a record without one is rejected.
pub struct FilterSlow {
    pub treshold: u64,
}

impl FilterSlow {
    pub fn new(treshold: u64) -> (r: FilterSlow)
        ensures
            r.treshold == treshold,
    {
        FilterSlow { treshold }
    }
}

impl Filter for FilterSlow {
    open spec fn spec_matches(&self, rec: Seq<u8>, fmt: Format) -> bool {
        match extract_duration_spec(rec) {
            Some(d) => d > self.treshold,
            None => false,
        }
    }

    fn matches(&self, record: &[u8], fmt: &Format) -> (r: bool) {
        match extract_duration(record) {
            Some(d) => d > self.treshold,
            None => false,
        }
    }
}

} // verus!
