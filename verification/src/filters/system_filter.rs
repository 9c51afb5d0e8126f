//! The system keyword predicate: a case-insensitive multi-pattern search
//! over autovacuum, checkpoint, WAL, replication, startup, configuration
//! and extension phrases.

use vstd::prelude::*;
use vstd::string::*;

use crate::bytes_util::sb;
use crate::filters::Filter;
use crate::search::{ac_build_case_insensitive, ac_hit, ac_is_match, ac_patterns};
use crate::Format;

verus! {

/// The system keyword set.
pub open spec fn system_pattern_seqs() -> Seq<Seq<u8>> {
    seq![
        sb("autovacuum"),
        sb("checkpointer"),
        sb("background writer"),
        sb("bgwriter"),
        sb("wal"),
        sb("replication"),
        sb("logical replication"),
        sb("replication slot"),
        sb("walreceiver"),
        sb("walsender"),
        sb("archiver"),
        sb("starting PostgreSQL"),
        sb("database system is starting"),
        sb("database system is ready"),
        sb("database system is shutting down"),
        sb("startup process"),
        sb("shut down"),
        sb("listening"),
        sb("reloading configuration"),
        sb("configuration file"),
        sb("SIGHUP"),
        sb("extension"),
        sb("shared_preload_libraries"),
        sb("CREATE EXTENSION"),
    ]
}

fn system_patterns() -> (r: Vec<Vec<u8>>)
    ensures
        r.deep_view() == system_pattern_seqs(),
{
    let mut p: Vec<Vec<u8>> = Vec::new();
    p.push("autovacuum".as_bytes_vec());
    p.push("checkpointer".as_bytes_vec());
    p.push("background writer".as_bytes_vec());
    p.push("bgwriter".as_bytes_vec());
    p.push("wal".as_bytes_vec());
    p.push("replication".as_bytes_vec());
    p.push("logical replication".as_bytes_vec());
    p.push("replication slot".as_bytes_vec());
    p.push("walreceiver".as_bytes_vec());
    p.push("walsender".as_bytes_vec());
    p.push("archiver".as_bytes_vec());
    p.push("starting PostgreSQL".as_bytes_vec());
    p.push("database system is starting".as_bytes_vec());
    p.push("database system is ready".as_bytes_vec());
    p.push("database system is shutting down".as_bytes_vec());
    p.push("startup process".as_bytes_vec());
    p.push("shut down".as_bytes_vec());
    p.push("listening".as_bytes_vec());
    p.push("reloading configuration".as_bytes_vec());
    p.push("configuration file".as_bytes_vec());
    p.push("SIGHUP".as_bytes_vec());
    p.push("extension".as_bytes_vec());
    p.push("shared_preload_libraries".as_bytes_vec());
    p.push("CREATE EXTENSION".as_bytes_vec());
    proof {
        assert(p.deep_view() =~~= system_pattern_seqs());
    }
    p
}

/// Accepts records naming a system event. When the automaton could not be
/// built, nothing matches.
pub struct SystemFilter {
    pub ac: Option<aho_corasick::AhoCorasick>,
}

impl SystemFilter {
    pub fn new() -> (r: SystemFilter)
        ensures
            r.ac is Some ==> ac_patterns(r.ac.unwrap()) == system_pattern_seqs(),
    {
        let pats = system_patterns();
        SystemFilter { ac: ac_build_case_insensitive(&pats) }
    }
}

impl Filter for SystemFilter {
    open spec fn spec_matches(&self, rec: Seq<u8>, fmt: Format) -> bool {
        match self.ac {
            Some(a) => ac_hit(ac_patterns(a), rec),
            None => false,
        }
    }

    fn matches(&self, record: &[u8], fmt: &Format) -> (r: bool) {
        match &self.ac {
            Some(a) => ac_is_match(a, record),
            None => false,
        }
    }
}

} // verus!
