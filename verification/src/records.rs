//! The byte scanner: recognizing where records begin in raw log bytes,
//! partitioning a file's byte range for parallel scanning without splitting
//! a record, and decomposing one range into whole record slices.

use vstd::prelude::*;
use vstd::string::*;

verus! {

/// The 23-byte timestamp shape `YYYY-MM-DD HH:MM:SS` (with `.` or space at
/// position 19) stands at absolute position `i` of `s`.
pub open spec fn ts_shape_at(s: Seq<u8>, i: int) -> bool {
    &&& 0 <= i
    &&& i + 23 <= s.len()
    &&& crate::bytes_util::is_digit(s[i])
    &&& crate::bytes_util::is_digit(s[i + 1])
    &&& crate::bytes_util::is_digit(s[i + 2])
    &&& crate::bytes_util::is_digit(s[i + 3])
    &&& s[i + 4] == 45
    &&& crate::bytes_util::is_digit(s[i + 5])
    &&& crate::bytes_util::is_digit(s[i + 6])
    &&& s[i + 7] == 45
    &&& crate::bytes_util::is_digit(s[i + 8])
    &&& crate::bytes_util::is_digit(s[i + 9])
    &&& s[i + 10] == 32
    &&& crate::bytes_util::is_digit(s[i + 11])
    &&& crate::bytes_util::is_digit(s[i + 12])
    &&& s[i + 13] == 58
    &&& crate::bytes_util::is_digit(s[i + 14])
    &&& crate::bytes_util::is_digit(s[i + 15])
    &&& s[i + 16] == 58
    &&& crate::bytes_util::is_digit(s[i + 17])
    &&& crate::bytes_util::is_digit(s[i + 18])
    &&& (s[i + 19] == 46 || s[i + 19] == 32)
}

/// Check the record-start shape at position `i`.
pub fn shape_at(bytes: &[u8], i: usize) -> (r: bool)
    requires
        i <= bytes@.len(),
    ensures
        r == ts_shape_at(bytes@, i as int),
{
    let n = bytes.len();
    if n - i < 23 {
        return false;
    }
    (48 <= bytes[i] && bytes[i] <= 57) && (48 <= bytes[i + 1] && bytes[i + 1] <= 57) && (48
        <= bytes[i + 2] && bytes[i + 2] <= 57) && (48 <= bytes[i + 3] && bytes[i + 3] <= 57)
        && bytes[i + 4] == 45 && (48 <= bytes[i + 5] && bytes[i + 5] <= 57) && (48 <= bytes[i + 6]
        && bytes[i + 6] <= 57) && bytes[i + 7] == 45 && (48 <= bytes[i + 8] && bytes[i + 8] <= 57)
        && (48 <= bytes[i + 9] && bytes[i + 9] <= 57) && bytes[i + 10] == 32 && (48 <= bytes[i
        + 11] && bytes[i + 11] <= 57) && (48 <= bytes[i + 12] && bytes[i + 12] <= 57) && bytes[i
        + 13] == 58 && (48 <= bytes[i + 14] && bytes[i + 14] <= 57) && (48 <= bytes[i + 15]
        && bytes[i + 15] <= 57) && bytes[i + 16] == 58 && (48 <= bytes[i + 17] && bytes[i + 17]
        <= 57) && (48 <= bytes[i + 18] && bytes[i + 18] <= 57) && (bytes[i + 19] == 46 || bytes[i
        + 19] == 32)
}

/// A line qualifies as the start of a record: its first 23 bytes satisfy
/// the timestamp shape.
pub fn is_record_start(line: &[u8]) -> (r: bool)
    ensures
        r == ts_shape_at(line@, 0),
{
    shape_at(line, 0)
}

/// The looser 19-byte check `is_pg_timestamp_start` uses: separators at
/// their places and digits everywhere else, with no demand at position 19.
pub open spec fn pg_ts_19_at(s: Seq<u8>) -> bool {
    &&& s.len() >= 19
    &&& crate::bytes_util::is_digit(s[0])
    &&& crate::bytes_util::is_digit(s[1])
    &&& crate::bytes_util::is_digit(s[2])
    &&& crate::bytes_util::is_digit(s[3])
    &&& s[4] == 45
    &&& crate::bytes_util::is_digit(s[5])
    &&& crate::bytes_util::is_digit(s[6])
    &&& s[7] == 45
    &&& crate::bytes_util::is_digit(s[8])
    &&& crate::bytes_util::is_digit(s[9])
    &&& s[10] == 32
    &&& crate::bytes_util::is_digit(s[11])
    &&& crate::bytes_util::is_digit(s[12])
    &&& s[13] == 58
    &&& crate::bytes_util::is_digit(s[14])
    &&& crate::bytes_util::is_digit(s[15])
    &&& s[16] == 58
    &&& crate::bytes_util::is_digit(s[17])
    &&& crate::bytes_util::is_digit(s[18])
}

/// Does the line begin with the 19-byte `YYYY-MM-DD HH:MM:SS` timestamp
/// shape?
pub fn is_pg_timestamp_start(line: &str) -> (r: bool)
    ensures
        r == pg_ts_19_at(line.spec_bytes()),
{
    let b = line.as_bytes();
    if b.len() < 19 {
        return false;
    }
    (48 <= b[0] && b[0] <= 57) && (48 <= b[1] && b[1] <= 57) && (48 <= b[2] && b[2] <= 57) && (48
        <= b[3] && b[3] <= 57) && b[4] == 45 && (48 <= b[5] && b[5] <= 57) && (48 <= b[6] && b[6]
        <= 57) && b[7] == 45 && (48 <= b[8] && b[8] <= 57) && (48 <= b[9] && b[9] <= 57) && b[10]
        == 32 && (48 <= b[11] && b[11] <= 57) && (48 <= b[12] && b[12] <= 57) && b[13] == 58 && (48
        <= b[14] && b[14] <= 57) && (48 <= b[15] && b[15] <= 57) && b[16] == 58 && (48 <= b[17]
        && b[17] <= 57) && (48 <= b[18] && b[18] <= 57)
}

/// A position where a chunk may end and the next begin: the byte before it
/// is a newline and a record starts at it.
pub open spec fn chunk_boundary(s: Seq<u8>, b: int) -> bool {
    &&& 0 < b < s.len()
    &&& s[b - 1] == 10
    &&& ts_shape_at(s, b)
}

/// Partition `bytes` into about `workers` contiguous ranges, every internal
/// cut falling on a record boundary, so each range holds whole records.
#[verifier::rlimit(60)]
pub fn partition_ranges(bytes: &[u8], workers: usize) -> (r: Vec<(usize, usize)>)
    requires
        workers >= 1,
    ensures
        bytes@.len() == 0 ==> r@.len() == 0,
        bytes@.len() > 0 ==> r@.len() >= 1 && r@[0].0 == 0 && r@[r@.len() - 1].1 == bytes@.len(),
        forall|k: int| 0 <= k < r@.len() ==> #[trigger] r@[k].0 < r@[k].1 <= bytes@.len(),
        forall|k: int| 0 < k < r@.len() ==> #[trigger] r@[k].0 == r@[k - 1].1,
        forall|k: int| 0 < k < r@.len() ==> chunk_boundary(bytes@, #[trigger] r@[k].0 as int),
{
    let n = bytes.len();
    let mut ranges: Vec<(usize, usize)> = Vec::new();
    if n == 0 {
        return ranges;
    }
    let chunk = n / workers;
    let mut start: usize = 0;
    while start < n
        invariant
            start <= n,
            n == bytes@.len(),
            start == 0 ==> ranges@.len() == 0,
            start > 0 ==> ranges@.len() >= 1 && ranges@[0].0 == 0 && ranges@[ranges@.len()
                - 1].1 == start,
            start > 0 && start < n ==> chunk_boundary(bytes@, start as int),
            forall|k: int| 0 <= k < ranges@.len() ==> #[trigger] ranges@[k].0 < ranges@[k].1 <= n,
            forall|k: int| 0 < k < ranges@.len() ==> #[trigger] ranges@[k].0 == ranges@[k - 1].1,
            forall|k: int|
                0 < k < ranges@.len() ==> chunk_boundary(bytes@, #[trigger] ranges@[k].0 as int),
        decreases n - start,
    {
        let mut cut = if n - start > chunk {
            start + chunk
        } else {
            n
        };
        if cut == start {
            cut = start + 1;
        }
        while cut < n && !(bytes[cut - 1] == 10 && shape_at(bytes, cut))
            invariant
                start < cut <= n,
                n == bytes@.len(),
            decreases n - cut,
        {
            cut = cut + 1;
        }
        let ghost before = ranges@;
        ranges.push((start, cut));
        proof {
            assert(ranges@.len() == before.len() + 1);
            assert(ranges@[ranges@.len() - 1] == (start, cut));
            assert(forall|k: int| 0 <= k < before.len() ==> ranges@[k] == before[k]);
        }
        start = cut;
    }
    proof {
        assert forall|k: int|
            0 <= k < ranges@.len() implies #[trigger] ranges@[k].0 < ranges@[k].1
            <= bytes@.len() by {
            assert(ranges@[k].0 < ranges@[k].1 <= n);
        }
    }
    ranges
}

/// A record starts at `i` within the range beginning at `lo`: `i` is the
/// range's first byte or follows a newline, and the timestamp shape stands
/// at `i`.
pub open spec fn rec_start_in(s: Seq<u8>, lo: int, i: int) -> bool {
    &&& lo <= i
    &&& (i == lo || s[i - 1] == 10)
    &&& ts_shape_at(s, i)
}

/// Decompose `bytes[start..end]` into whole record slices: consecutive
/// spans, each beginning at a record start, with no record start inside any
/// span, covering everything from the first record start to `end`. Bytes
/// before the first record start belong to no record.
pub fn record_spans(bytes: &[u8], start: usize, end: usize) -> (r: Vec<(usize, usize)>)
    requires
        start <= end <= bytes@.len(),
    ensures
        forall|k: int| 0 <= k < r@.len() ==> start <= #[trigger] r@[k].0 < r@[k].1 <= end,
        forall|k: int| 0 < k < r@.len() ==> #[trigger] r@[k].0 == r@[k - 1].1,
        forall|k: int|
            0 <= k < r@.len() ==> rec_start_in(bytes@, start as int, #[trigger] r@[k].0 as int),
        forall|k: int, j: int|
            #![trigger r@[k].0, rec_start_in(bytes@, start as int, j)]
            0 <= k < r@.len() && r@[k].0 < j < r@[k].1 ==> !rec_start_in(bytes@, start as int, j),
        r@.len() > 0 ==> r@[r@.len() - 1].1 == end,
        r@.len() > 0 ==> forall|j: int|
            start <= j < r@[0].0 ==> !rec_start_in(bytes@, start as int, j),
        r@.len() == 0 ==> forall|j: int|
            start <= j < end ==> !rec_start_in(bytes@, start as int, j),
{
    let mut spans: Vec<(usize, usize)> = Vec::new();
    // find the first record start
    let mut i: usize = start;
    let mut first: Option<usize> = None;
    while first.is_none() && i < end
        invariant
            start <= i <= end <= bytes@.len(),
            match first {
                Some(f) => i == f && f < end && rec_start_in(bytes@, start as int, f as int)
                    && forall|j: int| start <= j < f ==> !rec_start_in(bytes@, start as int, j),
                None => forall|j: int| start <= j < i ==> !rec_start_in(bytes@, start as int, j),
            },
        decreases (if first is None { 1int } else { 0int }), end - i,
    {
        let line_start = i == start || bytes[i - 1] == 10;
        if line_start && shape_at(bytes, i) {
            first = Some(i);
        } else {
            i = i + 1;
        }
    }
    let f = match first {
        None => {
            return spans;
        },
        Some(f) => f,
    };
    // walk the rest, closing a span at each further record start
    let mut rs: usize = f;
    let mut j: usize = f + 1;
    while j < end
        invariant
            start <= f <= rs < j <= end <= bytes@.len(),
            rec_start_in(bytes@, start as int, rs as int),
            forall|t: int| start <= t < f ==> !rec_start_in(bytes@, start as int, t),
            forall|t: int| rs < t < j ==> !rec_start_in(bytes@, start as int, t),
            forall|k: int| 0 <= k < spans@.len() ==> start <= #[trigger] spans@[k].0 < spans@[k].1
                <= end,
            forall|k: int| 0 < k < spans@.len() ==> #[trigger] spans@[k].0 == spans@[k - 1].1,
            forall|k: int|
                0 <= k < spans@.len() ==> rec_start_in(
                    bytes@,
                    start as int,
                    #[trigger] spans@[k].0 as int,
                ),
            forall|k: int, t: int|
                #![trigger spans@[k].0, rec_start_in(bytes@, start as int, t)]
                0 <= k < spans@.len() && spans@[k].0 < t < spans@[k].1 ==> !rec_start_in(
                    bytes@,
                    start as int,
                    t,
                ),
            spans@.len() > 0 ==> spans@[0].0 == f && spans@[spans@.len() - 1].1 == rs,
            spans@.len() == 0 ==> rs == f,
        decreases end - j,
    {
        if bytes[j - 1] == 10 && shape_at(bytes, j) {
            spans.push((rs, j));
            rs = j;
        }
        j = j + 1;
    }
    spans.push((rs, end));
    spans
}

} // verus!
