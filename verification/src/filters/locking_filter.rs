//! The locking keyword predicate: a case-insensitive multi-pattern search
//! over deadlock, wait-queue, serialization and lock-relation phrases, plus
//! the `process <digits> acquired` shape.

use vstd::prelude::*;
use vstd::string::*;

use crate::bytes_util::{match_at, sb, scan_while, sp_digit};
use crate::filters::Filter;
use crate::search::{ac_build_case_insensitive, ac_hit, ac_is_match, ac_patterns};
use crate::Format;

verus! {

/// The locking keyword set.
pub open spec fn locking_pattern_seqs() -> Seq<Seq<u8>> {
    seq![
        sb(" conflicts "),
        sb(" conflicting "),
        sb(" still waiting for "),
        sb("Wait queue:"),
        sb("while locking tuple"),
        sb("while updating tuple"),
        sb("conflict detected"),
        sb("deadlock detected"),
        sb("buffer deadlock"),
        sb("blocked by process "),
        sb("recovery conflict "),
        sb(" concurrent update"),
        sb("could not serialize"),
        sb("could not obtain "),
        sb("lock on relation "),
        sb("cannot lock rows"),
        sb(" semaphore:"),
    ]
}

fn locking_patterns() -> (r: Vec<Vec<u8>>)
    ensures
        r.deep_view() == locking_pattern_seqs(),
{
    let mut p: Vec<Vec<u8>> = Vec::new();
    p.push(" conflicts ".as_bytes_vec());
    p.push(" conflicting ".as_bytes_vec());
    p.push(" still waiting for ".as_bytes_vec());
    p.push("Wait queue:".as_bytes_vec());
    p.push("while locking tuple".as_bytes_vec());
    p.push("while updating tuple".as_bytes_vec());
    p.push("conflict detected".as_bytes_vec());
    p.push("deadlock detected".as_bytes_vec());
    p.push("buffer deadlock".as_bytes_vec());
    p.push("blocked by process ".as_bytes_vec());
    p.push("recovery conflict ".as_bytes_vec());
    p.push(" concurrent update".as_bytes_vec());
    p.push("could not serialize".as_bytes_vec());
    p.push("could not obtain ".as_bytes_vec());
    p.push("lock on relation ".as_bytes_vec());
    p.push("cannot lock rows".as_bytes_vec());
    p.push(" semaphore:".as_bytes_vec());
    proof {
        assert(p.deep_view() =~~= locking_pattern_seqs());
    }
    p
}

/// The record holds `process `, one or more digits, then ` acquired`, at
/// position `i`.
pub open spec fn process_acquired_at(rec: Seq<u8>, i: int) -> bool {
    let dstart = i + sb("process ").len();
    let dend = scan_while(rec, dstart, sp_digit());
    &&& match_at(rec, sb("process "), i)
    &&& dend > dstart
    &&& match_at(rec, sb(" acquired"), dend)
}

/// The record matches the `process <digits> acquired` shape somewhere.
pub open spec fn process_acquired_spec(rec: Seq<u8>) -> bool {
    exists|i: int| process_acquired_at(rec, i)
}

/// Does the record hold `process `, one or more digits, then ` acquired`?
pub fn matches_process_acquired(record: &[u8]) -> (r: bool)
    ensures
        r == process_acquired_spec(record@),
{
    let prefix = "process ".as_bytes();
    let suffix = " acquired".as_bytes();
    let n = record.len();
    let plen = prefix.len();
    if plen > n {
        assert(forall|i: int| !process_acquired_at(record@, i));
        return false;
    }
    if plen == 0 {
        // degenerate needle: the prefix matches at every position
        let mut i: usize = 0;
        while i < n
            invariant
                n == record@.len(),
                prefix@ == sb("process "),
                suffix@ == sb(" acquired"),
                prefix@.len() == 0,
                i <= n,
                forall|k: int| 0 <= k < i ==> !process_acquired_at(record@, k),
            decreases n - i,
        {
            let dend = crate::bytes_util::scan_digits(record, i);
            let slen = suffix.len();
            if dend > i && slen <= n - dend && crate::bytes_util::matches_at(
                record,
                suffix,
                dend,
            ) {
                assert(record@.subrange(i as int, i as int) =~= sb("process "));
                assert(process_acquired_at(record@, i as int));
                return true;
            }
            assert(!process_acquired_at(record@, i as int));
            i = i + 1;
        }
        assert(forall|k: int| 0 <= k <= n ==> k == n || !process_acquired_at(record@, k));
        assert(!process_acquired_at(record@, n as int));
        assert(forall|k: int| !process_acquired_at(record@, k));
        return false;
    }
    let last = n - plen;
    let mut i: usize = 0;
    while i <= last
        invariant
            n == record@.len(),
            prefix@ == sb("process "),
            suffix@ == sb(" acquired"),
            plen == prefix@.len(),
            1 <= plen <= n,
            last == n - plen,
            i <= last + 1,
            forall|k: int| 0 <= k < i ==> !process_acquired_at(record@, k),
        decreases last + 1 - i,
    {
        if crate::bytes_util::matches_at(record, prefix, i) {
            let dstart = i + plen;
            let dend = crate::bytes_util::scan_digits(record, dstart);
            let slen = suffix.len();
            if dend > dstart && slen <= n - dend && crate::bytes_util::matches_at(
                record,
                suffix,
                dend,
            ) {
                assert(process_acquired_at(record@, i as int));
                return true;
            }
            assert(!process_acquired_at(record@, i as int));
        } else {
            assert(!process_acquired_at(record@, i as int));
        }
        i = i + 1;
    }
    assert forall|k: int| !process_acquired_at(record@, k) by {
        if 0 <= k && k + plen <= n {
            assert(k < i);
        }
    }
    false
}

/// Accepts records naming a locking event: a keyword-set hit or the
/// `process <digits> acquired` shape. When the automaton could not be
/// built, only the latter shape matches.
pub struct LockingFilter {
    pub ac: Option<aho_corasick::AhoCorasick>,
}

impl LockingFilter {
    pub fn new() -> (r: LockingFilter)
        ensures
            r.ac is Some ==> ac_patterns(r.ac.unwrap()) == locking_pattern_seqs(),
    {
        let pats = locking_patterns();
        LockingFilter { ac: ac_build_case_insensitive(&pats) }
    }
}

impl Filter for LockingFilter {
    open spec fn spec_matches(&self, rec: Seq<u8>, fmt: Format) -> bool {
        (match self.ac {
            Some(a) => ac_hit(ac_patterns(a), rec),
            None => false,
        }) || process_acquired_spec(rec)
    }

    fn matches(&self, record: &[u8], fmt: &Format) -> (r: bool) {
        match &self.ac {
            Some(a) => if ac_is_match(a, record) {
                return true;
            },
            None => {},
        }
        matches_process_acquired(record)
    }
}

} // verus!
