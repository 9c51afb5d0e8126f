//! The structured entry types the line-stream parser produces: the plain
//! log entry and the CSV column record.

use vstd::prelude::*;

verus! {

/// One CSV log row's columns, as byte strings; column counts of 23, 24 and
/// 26 cover the supported on-disk versions.
pub struct CsvEntry {
    pub csv_column_count: i32,
    pub log_time: Vec<u8>,
    pub user_name: Vec<u8>,
    pub database_name: Vec<u8>,
    pub process_id: Vec<u8>,
    pub connection_from: Vec<u8>,
    pub session_id: Vec<u8>,
    pub session_line_num: Vec<u8>,
    pub command_tag: Vec<u8>,
    pub session_start_time: Vec<u8>,
    pub virtual_transaction_id: Vec<u8>,
    pub transaction_id: Vec<u8>,
    pub error_severity: Vec<u8>,
    pub sql_state_code: Vec<u8>,
    pub message: Vec<u8>,
    pub detail: Vec<u8>,
    pub hint: Vec<u8>,
    pub internal_query: Vec<u8>,
    pub internal_query_pos: Vec<u8>,
    pub context: Vec<u8>,
    pub query: Vec<u8>,
    pub query_pos: Vec<u8>,
    pub location: Vec<u8>,
    pub application_name: Vec<u8>,
    pub backend_type: Vec<u8>,
    pub leader_pid: Vec<u8>,
    pub query_id: Vec<u8>,
}

/// One structured log entry: the start line's timestamp, severity and
/// message, every line of the record, and the CSV columns when the source
/// was a CSV row.
pub struct LogEntry {
    pub log_time: Vec<u8>,
    pub error_severity: Vec<u8>,
    pub message: Vec<u8>,
    pub lines: Vec<Vec<u8>>,
    pub csv_columns: Option<CsvEntry>,
}


/// The `i`-th field of a field list, or empty when the list is shorter.
pub open spec fn field_at(fs: Seq<Seq<u8>>, i: int) -> Seq<u8> {
    if 0 <= i < fs.len() {
        fs[i]
    } else {
        Seq::empty()
    }
}

/// Copy the `i`-th field, or hand back an empty value.
pub fn field_or_empty(fields: &Vec<Vec<u8>>, i: usize) -> (r: Vec<u8>)
    ensures
        r@ == field_at(fields.deep_view(), i as int),
{
    if i < fields.len() {
        let v = crate::bytes_util::copy_bytes(fields[i].as_slice());
        proof {
            assert(fields.deep_view()[i as int] =~= fields@[i as int]@);
        }
        v
    } else {
        Vec::new()
    }
}

impl CsvEntry {
    /// Build the column record from split fields; absent trailing columns
    /// read as empty.
    pub fn from_fields(fields: &Vec<Vec<u8>>, count: i32) -> (r: CsvEntry)
        ensures
            r.csv_column_count == count,
            r.log_time@ == field_at(fields.deep_view(), 0),
            r.user_name@ == field_at(fields.deep_view(), 1),
            r.database_name@ == field_at(fields.deep_view(), 2),
            r.process_id@ == field_at(fields.deep_view(), 3),
            r.connection_from@ == field_at(fields.deep_view(), 4),
            r.session_id@ == field_at(fields.deep_view(), 5),
            r.session_line_num@ == field_at(fields.deep_view(), 6),
            r.command_tag@ == field_at(fields.deep_view(), 7),
            r.session_start_time@ == field_at(fields.deep_view(), 8),
            r.virtual_transaction_id@ == field_at(fields.deep_view(), 9),
            r.transaction_id@ == field_at(fields.deep_view(), 10),
            r.error_severity@ == field_at(fields.deep_view(), 11),
            r.sql_state_code@ == field_at(fields.deep_view(), 12),
            r.message@ == field_at(fields.deep_view(), 13),
            r.detail@ == field_at(fields.deep_view(), 14),
            r.hint@ == field_at(fields.deep_view(), 15),
            r.internal_query@ == field_at(fields.deep_view(), 16),
            r.internal_query_pos@ == field_at(fields.deep_view(), 17),
            r.context@ == field_at(fields.deep_view(), 18),
            r.query@ == field_at(fields.deep_view(), 19),
            r.query_pos@ == field_at(fields.deep_view(), 20),
            r.location@ == field_at(fields.deep_view(), 21),
            r.application_name@ == field_at(fields.deep_view(), 22),
            r.backend_type@ == field_at(fields.deep_view(), 23),
            r.leader_pid@ == field_at(fields.deep_view(), 24),
            r.query_id@ == field_at(fields.deep_view(), 25),
    {
        CsvEntry {
            csv_column_count: count,
            log_time: field_or_empty(fields, 0),
            user_name: field_or_empty(fields, 1),
            database_name: field_or_empty(fields, 2),
            process_id: field_or_empty(fields, 3),
            connection_from: field_or_empty(fields, 4),
            session_id: field_or_empty(fields, 5),
            session_line_num: field_or_empty(fields, 6),
            command_tag: field_or_empty(fields, 7),
            session_start_time: field_or_empty(fields, 8),
            virtual_transaction_id: field_or_empty(fields, 9),
            transaction_id: field_or_empty(fields, 10),
            error_severity: field_or_empty(fields, 11),
            sql_state_code: field_or_empty(fields, 12),
            message: field_or_empty(fields, 13),
            detail: field_or_empty(fields, 14),
            hint: field_or_empty(fields, 15),
            internal_query: field_or_empty(fields, 16),
            internal_query_pos: field_or_empty(fields, 17),
            context: field_or_empty(fields, 18),
            query: field_or_empty(fields, 19),
            query_pos: field_or_empty(fields, 20),
            location: field_or_empty(fields, 21),
            application_name: field_or_empty(fields, 22),
            backend_type: field_or_empty(fields, 23),
            leader_pid: field_or_empty(fields, 24),
            query_id: field_or_empty(fields, 25),
        }
    }
}

} // verus!
