//! The case-insensitive byte-substring predicate: both sides are
//! ASCII-lower-cased before the search.

use vstd::prelude::*;
use vstd::string::*;

use crate::bytes_util::{contains_seq, lower_bytes, to_lower_vec};
use crate::filters::Filter;
use crate::search::memmem_contains;
use crate::Format;

verus! {

/// Accepts records that contain a fixed substring without respect to ASCII
/// case.
pub struct FilterContainsCi {
    pub needle_lower: Vec<u8>,
}

impl FilterContainsCi {
    pub fn new(substring: String) -> (r: FilterContainsCi)
        ensures
            r.needle_lower@ == lower_bytes(vstd::utf8::encode_utf8(substring@)),
    {
        let b = substring.as_str().as_bytes_vec();
        FilterContainsCi { needle_lower: to_lower_vec(b.as_slice()) }
    }
}

impl Filter for FilterContainsCi {
    open spec fn spec_matches(&self, rec: Seq<u8>, fmt: Format) -> bool {
        contains_seq(lower_bytes(rec), self.needle_lower@)
    }

    fn matches(&self, record: &[u8], fmt: &Format) -> (r: bool) {
        let rec_lower = to_lower_vec(record);
        memmem_contains(rec_lower.as_slice(), self.needle_lower.as_slice())
    }
}

} // verus!
