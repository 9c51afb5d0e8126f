//! The error-listing path over structured entries: turning CSV records
//! into column-structured entries, with the supported column counts.

use vstd::prelude::*;

use crate::bytes_util::copy_bytes;
use crate::format::csv::{csv_fields, csv_split};
use crate::postgres::{field_at, CsvEntry, LogEntry};

pub use crate::severity::{log_entry_severity_to_num, validate_severity};

verus! {

/// The column counts of the supported CSV log versions.
pub open spec fn valid_column_count(n: int) -> bool {
    n == 23 || n == 24 || n == 26
}

/// The entry was built from this CSV record: the record splits into a
/// supported number of columns, and the entry's timestamp, severity and
/// message are its first, twelfth and fourteenth.
pub open spec fn csv_entry_of(e: LogEntry, rec: Seq<u8>) -> bool {
    &&& valid_column_count(csv_fields(rec).len() as int)
    &&& e.log_time@ == field_at(csv_fields(rec), 0)
    &&& e.error_severity@ == field_at(csv_fields(rec), 11)
    &&& e.message@ == field_at(csv_fields(rec), 13)
    &&& e.lines@.len() == 1 && e.lines@[0]@ == rec
    &&& e.csv_columns is Some
}

/// The entry came from one of the given records.
pub open spec fn csv_entry_of_some(e: LogEntry, recs: Seq<Seq<u8>>) -> bool {
    exists|ri: int| 0 <= ri < recs.len() && csv_entry_of(e, #[trigger] recs[ri])
}

/// How many of the first `i` records split into a supported column count.
pub open spec fn valid_before(recs: Seq<Seq<u8>>, i: int) -> int
    decreases i,
{
    if i <= 0 {
        0
    } else {
        valid_before(recs, i - 1) + if valid_column_count(csv_fields(recs[i - 1]).len() as int) {
            1int
        } else {
            0int
        }
    }
}

/// The views of a vector of records.
pub open spec fn rec_views(recs: Seq<Vec<u8>>) -> Seq<Seq<u8>> {
    Seq::new(recs.len(), |i: int| recs[i]@)
}

/// The valid-record counter grows along the stream, strictly past a
/// valid record.
proof fn lemma_valid_before_mono(recs: Seq<Seq<u8>>, a: int, b: int)
    requires
        0 <= a <= b,
    ensures
        valid_before(recs, a) <= valid_before(recs, b),
        a < b && valid_column_count(csv_fields(recs[a]).len() as int) ==> valid_before(recs, a)
            < valid_before(recs, b),
    decreases b - a,
{
    if a < b {
        lemma_valid_before_mono(recs, a + 1, b);
    }
}

/// Turn CSV records into column-structured entries: one entry per record
/// whose column count is a supported version's, in input order; the
/// others are skipped.
pub fn get_csv_log_entries(records: Vec<Vec<u8>>) -> (r: Vec<LogEntry>)
    ensures
        r@.len() == valid_before(rec_views(records@), records@.len() as int),
        forall|i: int|
            0 <= i < records@.len() && valid_column_count(
                csv_fields(#[trigger] rec_views(records@)[i]).len() as int,
            ) ==> csv_entry_of(
                r@[valid_before(rec_views(records@), i)],
                rec_views(records@)[i],
            ),
        forall|k: int| 0 <= k < r@.len() ==> csv_entry_of_some(#[trigger] r@[k], rec_views(records@)),
{
    let mut out: Vec<LogEntry> = Vec::new();
    let n = records.len();
    let ghost rv = rec_views(records@);
    let mut i: usize = 0;
    while i < n
        invariant
            n == records@.len(),
            rv == rec_views(records@),
            i <= n,
            out@.len() == valid_before(rv, i as int),
            forall|t: int|
                0 <= t < i && valid_column_count(
                    csv_fields(#[trigger] rv[t]).len() as int,
                ) ==> csv_entry_of(out@[valid_before(rv, t)], rv[t]),
            forall|k: int|
                0 <= k < out@.len() ==> csv_entry_of_some(#[trigger] out@[k], rec_views(records@)),
        decreases n - i,
    {
        let rec = records[i].as_slice();
        let fields = csv_split(rec);
        let count = fields.len();
        if count == 23 || count == 24 || count == 26 {
            let entry_cols = CsvEntry::from_fields(&fields, count as i32);
            let log_time = crate::postgres::field_or_empty(&fields, 0);
            let error_severity = crate::postgres::field_or_empty(&fields, 11);
            let message = crate::postgres::field_or_empty(&fields, 13);
            let mut lines: Vec<Vec<u8>> = Vec::new();
            lines.push(copy_bytes(rec));
            let entry = LogEntry {
                log_time,
                error_severity,
                message,
                lines,
                csv_columns: Some(entry_cols),
            };
            proof {
                assert forall|k: int| 0 <= k < fields.deep_view().len() implies #[trigger] fields
                    .deep_view()[k] =~= csv_fields(records@[i as int]@)[k] by {
                    assert(fields@[k].deep_view() =~= fields@[k]@);
                }
                assert(fields.deep_view() =~~= csv_fields(records@[i as int]@));
                assert(csv_entry_of(entry, rec_views(records@)[i as int]));
                assert(csv_entry_of_some(entry, rec_views(records@)));
                assert(rv[i as int] == records@[i as int]@);
                assert(csv_fields(rv[i as int]).len() == fields@.len());
                assert(valid_column_count(csv_fields(rv[i as int]).len() as int));
                assert(valid_before(rv, i + 1) == valid_before(rv, i as int) + 1);
                assert(out@.len() == valid_before(rv, i as int));
            }
            let ghost out_pre = out@;
            out.push(entry);
            proof {
                assert forall|t: int|
                    0 <= t < i + 1 && valid_column_count(
                        csv_fields(#[trigger] rv[t]).len() as int,
                    ) implies csv_entry_of(out@[valid_before(rv, t)], rv[t]) by {
                    lemma_valid_before_mono(rv, 0, t);
                    lemma_valid_before_mono(rv, t, i as int);
                    if t < i as int {
                        assert(0 <= valid_before(rv, t) < out_pre.len());
                        assert(out@[valid_before(rv, t)] == out_pre[valid_before(rv, t)]);
                    } else {
                        assert(out@[valid_before(rv, t)] == entry);
                    }
                }
            }
        } else {
            proof {
                assert(rv[i as int] == records@[i as int]@);
                assert(csv_fields(rv[i as int]).len() == fields@.len());
                assert(!valid_column_count(csv_fields(rv[i as int]).len() as int));
                assert(valid_before(rv, i + 1) == valid_before(rv, i as int));
            }
        }
        i = i + 1;
    }
    out
}

} // verus!
