//! The plain log format's message accessor: the text after the first
//! colon-space pair, trimmed of leading spaces, up to the first newline.

use vstd::prelude::*;
use vstd::slice::slice_subrange;

use crate::bytes_util::{copy_bytes, scan_spaces, scan_to_nl, scan_while, sp_not_nl, sp_space};

verus! {

/// Index of the first colon-space pair at or after `i`, if any.
pub open spec fn find_colon_space(s: Seq<u8>, i: int) -> Option<int>
    decreases s.len() - i,
{
    if i < 0 || i + 1 >= s.len() {
        None
    } else if s[i] == 58 && s[i + 1] == 32 {
        Some(i)
    } else {
        find_colon_space(s, i + 1)
    }
}

pub proof fn lemma_find_colon_space(s: Seq<u8>, i: int)
    requires
        0 <= i,
    ensures
        match find_colon_space(s, i) {
            Some(j) => i <= j && j + 1 < s.len() && s[j] == 58 && s[j + 1] == 32,
            None => forall|k: int|
                i <= k && k + 1 < s.len() ==> !(s[k] == 58 && #[trigger] s[k + 1] == 32),
        },
    decreases s.len() - i,
{
    if i + 1 >= s.len() {
    } else if s[i] == 58 && s[i + 1] == 32 {
    } else {
        lemma_find_colon_space(s, i + 1);
    }
}

/// The message of a plain-format record: the bytes after the first `: `
/// pair, leading spaces skipped, up to the first newline or the record's
/// end. Absent when no colon-space pair occurs.
pub open spec fn plain_message_spec(rec: Seq<u8>) -> Option<Seq<u8>> {
    match find_colon_space(rec, 0) {
        None => None,
        Some(p) => {
            let start = scan_while(rec, p + 1, sp_space());
            let e = scan_while(rec, start, sp_not_nl());
            Some(rec.subrange(start, e))
        },
    }
}

/// Extract the message of a plain-format record.
pub fn message(record: &[u8]) -> (r: Option<Vec<u8>>)
    ensures
        match r {
            Some(v) => plain_message_spec(record@) == Some(v@),
            None => plain_message_spec(record@) is None,
        },
{
    let n = record.len();
    let mut i: usize = 0;
    while n - i > 1
        invariant
            n == record@.len(),
            i <= n,
            find_colon_space(record@, 0) == find_colon_space(record@, i as int),
        decreases n - i,
    {
        if record[i] == 58 && record[i + 1] == 32 {
            let start = scan_spaces(record, i + 1);
            let e = scan_to_nl(record, start);
            return Some(copy_bytes(slice_subrange(record, start, e)));
        }
        proof {
            assert(find_colon_space(record@, i as int) == find_colon_space(record@, i + 1));
        }
        i = i + 1;
    }
    assert(find_colon_space(record@, i as int) is None);
    None
}

} // verus!
