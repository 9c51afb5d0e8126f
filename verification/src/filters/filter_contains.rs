//! The byte-substring predicate.

use vstd::prelude::*;
use vstd::string::*;

use crate::bytes_util::contains_seq;
use crate::filters::Filter;
use crate::search::memmem_contains;
use crate::Format;

verus! {

/// Accepts records that contain a fixed byte substring.
pub struct FilterContains {
    pub needle: Vec<u8>,
}

impl FilterContains {
    pub fn new(substring: String) -> (r: FilterContains)
        ensures
            r.needle@ == vstd::utf8::encode_utf8(substring@),
    {
        FilterContains { needle: substring.as_str().as_bytes_vec() }
    }
}

impl Filter for FilterContains {
    open spec fn spec_matches(&self, rec: Seq<u8>, fmt: Format) -> bool {
        contains_seq(rec, self.needle@)
    }

    fn matches(&self, record: &[u8], fmt: &Format) -> (r: bool) {
        memmem_contains(record, self.needle.as_slice())
    }
}

} // verus!
