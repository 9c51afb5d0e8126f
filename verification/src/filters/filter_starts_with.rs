//! The byte-prefix predicate, used for the timestamp mask.

use vstd::prelude::*;
use vstd::string::*;

use crate::bytes_util::{is_prefix_of, starts_with_bytes};
use crate::filters::Filter;
use crate::Format;

verus! {

/// Accepts records that begin with a fixed byte prefix.
pub struct FilterStartsWith {
    pub prefix: Vec<u8>,
}

impl FilterStartsWith {
    pub fn new(substring: String) -> (r: FilterStartsWith)
        ensures
            r.prefix@ == vstd::utf8::encode_utf8(substring@),
    {
        FilterStartsWith { prefix: substring.as_str().as_bytes_vec() }
    }
}

impl Filter for FilterStartsWith {
    open spec fn spec_matches(&self, rec: Seq<u8>, fmt: Format) -> bool {
        is_prefix_of(rec, self.prefix@)
    }

    fn matches(&self, record: &[u8], fmt: &Format) -> (r: bool) {
        starts_with_bytes(record, self.prefix.as_slice())
    }
}

} // verus!
