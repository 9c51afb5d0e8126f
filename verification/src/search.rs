//! Substring search through the `memchr` crate and multi-pattern keyword
//! search through the `aho-corasick` crate. Each outside call sits behind one
//! trusted wrapper whose contract states, over byte sequences, what the
//! crate's documentation promises.

use vstd::prelude::*;

use crate::bytes_util::{contains_seq, lower_bytes, match_at};

verus! {

/// Relies on memchr::memmem::find: the index of the first occurrence of the
/// needle in the haystack, or `None` when the needle does not occur. An
/// empty needle occurs at index 0.
#[verifier::external_body]
pub fn memmem_find(hay: &[u8], needle: &[u8]) -> (r: Option<usize>)
    ensures
        match r {
            Some(i) => match_at(hay@, needle@, i as int) && forall|j: int|
                0 <= j < i ==> !match_at(hay@, needle@, j),
            None => !contains_seq(hay@, needle@),
        },
{
    memchr::memmem::find(hay, needle)
}

/// Relies on memchr::memmem::find: whether the needle occurs in the haystack.
#[verifier::external_body]
pub fn memmem_contains(hay: &[u8], needle: &[u8]) -> (r: bool)
    ensures
        r == contains_seq(hay@, needle@),
{
    memchr::memmem::find(hay, needle).is_some()
}

#[verifier::external_type_specification]
#[verifier::external_body]
pub struct ExAhoCorasick(aho_corasick::AhoCorasick);

/// The patterns an `aho_corasick::AhoCorasick` automaton was built from, in
/// build order.
pub uninterp spec fn ac_patterns(ac: aho_corasick::AhoCorasick) -> Seq<Seq<u8>>;

/// One of the automaton's patterns occurs in the haystack when both are
/// ASCII-lower-cased.
pub open spec fn ac_hit(pats: Seq<Seq<u8>>, hay: Seq<u8>) -> bool {
    exists|k: int| 0 <= k < pats.len() && contains_seq(lower_bytes(hay), lower_bytes(pats[k]))
}

/// Relies on AhoCorasickBuilder::build with ascii_case_insensitive: on
/// success the automaton is over exactly the given patterns; building fails
/// only when the automaton's state space is exhausted.
#[verifier::external_body]
pub fn ac_build_case_insensitive(patterns: &Vec<Vec<u8>>) -> (ac: Option<
    aho_corasick::AhoCorasick,
>)
    ensures
        match ac {
            Some(a) => ac_patterns(a) == patterns.deep_view(),
            None => true,
        },
{
    aho_corasick::AhoCorasick::builder().ascii_case_insensitive(true).build(patterns).ok()
}

/// Relies on AhoCorasick::is_match: whether any pattern occurs in the
/// haystack, without respect to ASCII case, as the automaton was built with
/// ascii_case_insensitive.
#[verifier::external_body]
pub fn ac_is_match(ac: &aho_corasick::AhoCorasick, hay: &[u8]) -> (r: bool)
    ensures
        r == ac_hit(ac_patterns(*ac), hay@),
{
    ac.is_match(hay)
}

} // verus!
