//! PostgreSQL log severities: a discrete ordered set in which `LOG` and
//! `INFO` deliberately share one rank, and the keyword scans that recover a
//! severity from record text.

use vstd::prelude::*;
use vstd::string::*;

use crate::bytes_util::{
    contains_bytes, contains_seq, eq_bytes, sb, to_upper_vec, upper_bytes,
};

verus! {

#[derive(Clone, Copy, Debug, PartialEq, Eq, Structural)]
pub enum Severity {
    Debug5,
    Debug4,
    Debug3,
    Debug2,
    Debug1,
    Log,
    Info,
    Notice,
    Warning,
    Error,
    Fatal,
    Panic,
}

/// Numeric priority of a severity. `LOG` and `INFO` tie at 5; `PANIC` is the
/// maximum.
pub open spec fn rank_spec(s: Severity) -> int {
    match s {
        Severity::Debug5 => 0,
        Severity::Debug4 => 1,
        Severity::Debug3 => 2,
        Severity::Debug2 => 3,
        Severity::Debug1 => 4,
        Severity::Log => 5,
        Severity::Info => 5,
        Severity::Notice => 6,
        Severity::Warning => 7,
        Severity::Error => 8,
        Severity::Fatal => 9,
        Severity::Panic => 10,
    }
}

/// The severity keyword with a trailing colon, as it appears in plain log
/// text.
pub open spec fn post_needle(s: Severity) -> Seq<u8> {
    match s {
        Severity::Debug5 => sb("DEBUG5:"),
        Severity::Debug4 => sb("DEBUG4:"),
        Severity::Debug3 => sb("DEBUG3:"),
        Severity::Debug2 => sb("DEBUG2:"),
        Severity::Debug1 => sb("DEBUG1:"),
        Severity::Log => sb("LOG:"),
        Severity::Info => sb("INFO:"),
        Severity::Notice => sb("NOTICE:"),
        Severity::Warning => sb("WARNING:"),
        Severity::Error => sb("ERROR:"),
        Severity::Fatal => sb("FATAL:"),
        Severity::Panic => sb("PANIC:"),
    }
}

/// The record text holds the severity keyword with its trailing colon.
pub open spec fn keyword_hit(rec: Seq<u8>, s: Severity) -> bool {
    contains_seq(rec, post_needle(s))
}

/// The severity a keyword scan over plain log text yields: the scan tries
/// `LOG:`, `ERROR:`, `INFO:`, `NOTICE:`, `WARNING:`, `DEBUG5:` through
/// `DEBUG1:`, `FATAL:`, `PANIC:` in that order; the first keyword found
/// wins, and a record with none is reported as `LOG`.
pub open spec fn from_log_bytes_spec(rec: Seq<u8>) -> Severity {
    if keyword_hit(rec, Severity::Log) {
        Severity::Log
    } else if keyword_hit(rec, Severity::Error) {
        Severity::Error
    } else if keyword_hit(rec, Severity::Info) {
        Severity::Info
    } else if keyword_hit(rec, Severity::Notice) {
        Severity::Notice
    } else if keyword_hit(rec, Severity::Warning) {
        Severity::Warning
    } else if keyword_hit(rec, Severity::Debug5) {
        Severity::Debug5
    } else if keyword_hit(rec, Severity::Debug4) {
        Severity::Debug4
    } else if keyword_hit(rec, Severity::Debug3) {
        Severity::Debug3
    } else if keyword_hit(rec, Severity::Debug2) {
        Severity::Debug2
    } else if keyword_hit(rec, Severity::Debug1) {
        Severity::Debug1
    } else if keyword_hit(rec, Severity::Fatal) {
        Severity::Fatal
    } else if keyword_hit(rec, Severity::Panic) {
        Severity::Panic
    } else {
        Severity::Log
    }
}

/// The severity whose upper-case name is exactly `s`, if any.
pub open spec fn severity_of_name(s: Seq<u8>) -> Option<Severity> {
    if s == sb("DEBUG5") {
        Some(Severity::Debug5)
    } else if s == sb("DEBUG4") {
        Some(Severity::Debug4)
    } else if s == sb("DEBUG3") {
        Some(Severity::Debug3)
    } else if s == sb("DEBUG2") {
        Some(Severity::Debug2)
    } else if s == sb("DEBUG1") {
        Some(Severity::Debug1)
    } else if s == sb("LOG") {
        Some(Severity::Log)
    } else if s == sb("INFO") {
        Some(Severity::Info)
    } else if s == sb("NOTICE") {
        Some(Severity::Notice)
    } else if s == sb("WARNING") {
        Some(Severity::Warning)
    } else if s == sb("ERROR") {
        Some(Severity::Error)
    } else if s == sb("FATAL") {
        Some(Severity::Fatal)
    } else if s == sb("PANIC") {
        Some(Severity::Panic)
    } else {
        None
    }
}

impl Severity {
    /// Numeric priority used by the minimum-severity filter.
    pub fn rank(&self) -> (r: i32)
        ensures
            r == rank_spec(*self),
    {
        match self {
            Severity::Debug5 => 0,
            Severity::Debug4 => 1,
            Severity::Debug3 => 2,
            Severity::Debug2 => 3,
            Severity::Debug1 => 4,
            Severity::Log => 5,
            Severity::Info => 5,
            Severity::Notice => 6,
            Severity::Warning => 7,
            Severity::Error => 8,
            Severity::Fatal => 9,
            Severity::Panic => 10,
        }
    }

    /// Scan plain log text for a severity keyword.
    pub fn from_log_string(text: &str) -> (r: Severity)
        ensures
            r == from_log_bytes_spec(text.spec_bytes()),
    {
        Self::from_log_bytes(text.as_bytes())
    }

    /// Scan plain log record bytes for a severity keyword.
    pub fn from_log_bytes(rec: &[u8]) -> (r: Severity)
        ensures
            r == from_log_bytes_spec(rec@),
    {
        if contains_bytes(rec, "LOG:".as_bytes()) {
            return Severity::Log;
        }
        if contains_bytes(rec, "ERROR:".as_bytes()) {
            return Severity::Error;
        }
        if contains_bytes(rec, "INFO:".as_bytes()) {
            return Severity::Info;
        }
        if contains_bytes(rec, "NOTICE:".as_bytes()) {
            return Severity::Notice;
        }
        if contains_bytes(rec, "WARNING:".as_bytes()) {
            return Severity::Warning;
        }
        if contains_bytes(rec, "DEBUG5:".as_bytes()) {
            return Severity::Debug5;
        }
        if contains_bytes(rec, "DEBUG4:".as_bytes()) {
            return Severity::Debug4;
        }
        if contains_bytes(rec, "DEBUG3:".as_bytes()) {
            return Severity::Debug3;
        }
        if contains_bytes(rec, "DEBUG2:".as_bytes()) {
            return Severity::Debug2;
        }
        if contains_bytes(rec, "DEBUG1:".as_bytes()) {
            return Severity::Debug1;
        }
        if contains_bytes(rec, "FATAL:".as_bytes()) {
            return Severity::Fatal;
        }
        if contains_bytes(rec, "PANIC:".as_bytes()) {
            return Severity::Panic;
        }
        Severity::Log
    }
}

/// Match an already upper-cased byte string against the severity names.
pub fn parse_severity_name(name: &[u8]) -> (r: Option<Severity>)
    ensures
        r == severity_of_name(name@),
{
    if eq_bytes(name, "DEBUG5".as_bytes()) {
        Some(Severity::Debug5)
    } else if eq_bytes(name, "DEBUG4".as_bytes()) {
        Some(Severity::Debug4)
    } else if eq_bytes(name, "DEBUG3".as_bytes()) {
        Some(Severity::Debug3)
    } else if eq_bytes(name, "DEBUG2".as_bytes()) {
        Some(Severity::Debug2)
    } else if eq_bytes(name, "DEBUG1".as_bytes()) {
        Some(Severity::Debug1)
    } else if eq_bytes(name, "LOG".as_bytes()) {
        Some(Severity::Log)
    } else if eq_bytes(name, "INFO".as_bytes()) {
        Some(Severity::Info)
    } else if eq_bytes(name, "NOTICE".as_bytes()) {
        Some(Severity::Notice)
    } else if eq_bytes(name, "WARNING".as_bytes()) {
        Some(Severity::Warning)
    } else if eq_bytes(name, "ERROR".as_bytes()) {
        Some(Severity::Error)
    } else if eq_bytes(name, "FATAL".as_bytes()) {
        Some(Severity::Fatal)
    } else if eq_bytes(name, "PANIC".as_bytes()) {
        Some(Severity::Panic)
    } else {
        None
    }
}

/// Severity ranks are a total order with one designed tie: two severities
/// share a rank exactly when they are equal or they are `LOG` and `INFO`.
pub proof fn lemma_severity_rank_total_order(s1: Severity, s2: Severity)
    ensures
        rank_spec(s1) == rank_spec(s2) <==> (s1 == s2 || (s1 == Severity::Log && s2
            == Severity::Info) || (s1 == Severity::Info && s2 == Severity::Log)),
{
}

/// Convert a severity level name (any ASCII case) to its numeric priority;
/// an unknown name maps to the `LOG` level, 5.
pub fn log_entry_severity_to_num(severity: &str) -> (r: i32)
    ensures
        r == match severity_of_name(upper_bytes(severity.spec_bytes())) {
            Some(s) => rank_spec(s),
            None => 5int,
        },
{
    let up = to_upper_vec(severity.as_bytes());
    match parse_severity_name(up.as_slice()) {
        Some(s) => s.rank(),
        None => 5,
    }
}

/// Check that a string names a severity level, in any ASCII case; the
/// error names the rejected value and lists the valid ones.
pub fn validate_severity(severity: &str) -> (r: Result<(), String>)
    ensures
        r is Ok <==> severity_of_name(upper_bytes(severity.spec_bytes())) is Some,
        r matches Err(m) ==> m@ == "invalid severity level: '"@ + severity@
            + "'; valid values are DEBUG5, DEBUG4, DEBUG3, DEBUG2, DEBUG1, LOG, INFO, NOTICE, WARNING, ERROR, FATAL, PANIC"@,
{
    let up = to_upper_vec(severity.as_bytes());
    match parse_severity_name(up.as_slice()) {
        Some(_) => Ok(()),
        None => {
            let mut m = String::from_str("invalid severity level: '");
            m.append(severity);
            m.append(
                "'; valid values are DEBUG5, DEBUG4, DEBUG3, DEBUG2, DEBUG1, LOG, INFO, NOTICE, WARNING, ERROR, FATAL, PANIC",
            );
            Err(m)
        },
    }
}

} // verus!
