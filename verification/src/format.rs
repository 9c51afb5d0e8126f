//! The format dispatcher: picking the plain or CSV extractor for a file and
//! exposing one byte-level accessor interface over both, plus the shared
//! `key=value` scanner for connection fields.

use vstd::prelude::*;
use vstd::slice::slice_subrange;
use vstd::string::*;

use crate::bytes_util::{
    copy_bytes, find_idx, is_suffix_of, lemma_find_idx, sb, scan_to_delim, scan_while,
    sp_not_delim, upper_bytes,
};
use crate::search::memmem_find;
use crate::severity::{from_log_bytes_spec, parse_severity_name, severity_of_name, Severity};
use crate::Format;

pub mod csv;
pub mod plain;

use self::csv::{csv_field, csv_field_spec, csv_fields};
use self::plain::plain_message_spec;

verus! {

/// The format a file name selects: `.csv` means the CSV log format,
/// anything else the plain one.
pub open spec fn format_of_name(name: Seq<u8>) -> Format {
    if is_suffix_of(name, sb(".csv")) {
        Format::Csv
    } else {
        Format::Plain
    }
}

/// The severity of a CSV record: its twelfth column's name, `LOG` when the
/// column is missing or names no severity.
pub open spec fn from_csv_bytes_spec(rec: Seq<u8>) -> Severity {
    let fs = csv_fields(rec);
    if fs.len() > 11 {
        match severity_of_name(upper_bytes(fs[11])) {
            Some(s) => s,
            None => Severity::Log,
        }
    } else {
        Severity::Log
    }
}

/// The severity a record's bytes carry under the given format.
pub open spec fn severity_spec(fmt: Format, rec: Seq<u8>) -> Severity {
    match fmt {
        Format::Plain => from_log_bytes_spec(rec),
        Format::Csv => from_csv_bytes_spec(rec),
    }
}

/// The message a record's bytes carry under the given format: the
/// colon-space accessor for plain text, the fourteenth CSV column for CSV.
pub open spec fn message_spec(fmt: Format, rec: Seq<u8>) -> Option<Seq<u8>> {
    match fmt {
        Format::Plain => plain_message_spec(rec),
        Format::Csv => csv_field_spec(rec, 13),
    }
}

/// The value following the first occurrence of `needle`, up to the next
/// space, comma or double quote; the scan for the terminator starts one
/// byte after the value's first byte.
pub open spec fn extract_after_needle_spec(rec: Seq<u8>, needle: Seq<u8>) -> Option<Seq<u8>> {
    match find_idx(rec, needle, 0) {
        None => None,
        Some(p) => {
            let start = p + needle.len();
            let scan0 = if start + 1 <= rec.len() {
                start + 1
            } else {
                rec.len() as int
            };
            let e = scan_while(rec, scan0, sp_not_delim());
            Some(rec.subrange(start, e))
        },
    }
}

/// Extract the value after `needle`, as in `user=alice` within a record.
pub fn extract_after_needle(record: &[u8], needle: &[u8]) -> (r: Option<Vec<u8>>)
    ensures
        match r {
            Some(v) => extract_after_needle_spec(record@, needle@) == Some(v@),
            None => extract_after_needle_spec(record@, needle@) is None,
        },
{
    let p = match memmem_find(record, needle) {
        None => {
            proof {
                lemma_find_idx(record@, needle@, 0);
            }
            return None;
        },
        Some(p) => p,
    };
    proof {
        lemma_find_idx(record@, needle@, 0);
    }
    let n = record.len();
    let start = p + needle.len();
    let scan0 = if start < n {
        start + 1
    } else {
        n
    };
    let e = scan_to_delim(record, scan0);
    Some(copy_bytes(slice_subrange(record, start, e)))
}

/// Any of the input file names selects the CSV format, plainly or behind
/// gzip compression.
pub fn has_csv_files(input_files: &Vec<String>) -> (r: bool)
    ensures
        r == exists|i: int|
            0 <= i < input_files@.len() && (is_suffix_of(
                vstd::utf8::encode_utf8((#[trigger] input_files@[i])@),
                sb(".csv"),
            ) || is_suffix_of(
                vstd::utf8::encode_utf8(input_files@[i]@),
                sb(".csv.gz"),
            )),
{
    let n = input_files.len();
    let mut i: usize = 0;
    while i < n
        invariant
            n == input_files@.len(),
            i <= n,
            forall|k: int|
                0 <= k < i ==> !(is_suffix_of(
                    vstd::utf8::encode_utf8((#[trigger] input_files@[k])@),
                    sb(".csv"),
                ) || is_suffix_of(vstd::utf8::encode_utf8(input_files@[k]@), sb(".csv.gz"))),
        decreases n - i,
    {
        let f = input_files[i].as_str().as_bytes();
        if crate::bytes_util::ends_with_bytes(f, ".csv".as_bytes())
            || crate::bytes_util::ends_with_bytes(f, ".csv.gz".as_bytes()) {
            return true;
        }
        i = i + 1;
    }
    false
}

impl Format {
    /// Pick the format a file name selects: `.csv` means CSV.
    pub fn from_file_extension(file_name: &str) -> (r: Format)
        ensures
            r == format_of_name(file_name.spec_bytes()),
    {
        if crate::bytes_util::ends_with_bytes(file_name.as_bytes(), ".csv".as_bytes()) {
            Format::Csv
        } else {
            Format::Plain
        }
    }

    /// The severity of record text under this format.
    pub fn severity_from_string(&self, text: &str) -> (r: Severity)
        ensures
            r == severity_spec(*self, text.spec_bytes()),
    {
        self.severity_from_bytes(text.as_bytes())
    }

    /// The severity of record bytes under this format.
    pub fn severity_from_bytes(&self, rec: &[u8]) -> (r: Severity)
        ensures
            r == severity_spec(*self, rec@),
    {
        match self {
            Format::Plain => Severity::from_log_bytes(rec),
            Format::Csv => Severity::from_csv_bytes(rec),
        }
    }

    /// The record's message under this format.
    pub fn message_from_bytes(&self, record: &[u8]) -> (r: Option<Vec<u8>>)
        ensures
            match r {
                Some(v) => message_spec(*self, record@) == Some(v@),
                None => message_spec(*self, record@) is None,
            },
    {
        match self {
            Format::Plain => plain::message(record),
            Format::Csv => csv_field(record, 13),
        }
    }

    /// The connecting host named by the record.
    pub fn host_from_bytes(&self, record: &[u8]) -> (r: Option<Vec<u8>>)
        ensures
            match r {
                Some(v) => extract_after_needle_spec(record@, sb("host=")) == Some(v@),
                None => extract_after_needle_spec(record@, sb("host=")) is None,
            },
    {
        extract_after_needle(record, "host=".as_bytes())
    }

    /// The user named by the record.
    pub fn user_from_bytes(&self, record: &[u8]) -> (r: Option<Vec<u8>>)
        ensures
            match r {
                Some(v) => extract_after_needle_spec(record@, sb("user=")) == Some(v@),
                None => extract_after_needle_spec(record@, sb("user=")) is None,
            },
    {
        extract_after_needle(record, "user=".as_bytes())
    }

    /// The database named by the record.
    pub fn db_from_bytes(&self, record: &[u8]) -> (r: Option<Vec<u8>>)
        ensures
            match r {
                Some(v) => extract_after_needle_spec(record@, sb("database=")) == Some(v@),
                None => extract_after_needle_spec(record@, sb("database=")) is None,
            },
    {
        extract_after_needle(record, "database=".as_bytes())
    }

    /// The application name named by the record.
    pub fn appname_from_bytes(&self, record: &[u8]) -> (r: Option<Vec<u8>>)
        ensures
            match r {
                Some(v) => extract_after_needle_spec(record@, sb("application_name=")) == Some(
                    v@,
                ),
                None => extract_after_needle_spec(record@, sb("application_name=")) is None,
            },
    {
        extract_after_needle(record, "application_name=".as_bytes())
    }
}

impl Severity {
    /// The severity of a CSV record's text.
    pub fn from_csv_string(text: &str) -> (r: Severity)
        ensures
            r == from_csv_bytes_spec(text.spec_bytes()),
    {
        Self::from_csv_bytes(text.as_bytes())
    }

    /// The severity of a CSV record's bytes: its twelfth column.
    pub fn from_csv_bytes(rec: &[u8]) -> (r: Severity)
        ensures
            r == from_csv_bytes_spec(rec@),
    {
        match csv_field(rec, 11) {
            None => Severity::Log,
            Some(f) => {
                let up = crate::bytes_util::to_upper_vec(f.as_slice());
                match parse_severity_name(up.as_slice()) {
                    Some(s) => s,
                    None => Severity::Log,
                }
            },
        }
    }
}

} // verus!
