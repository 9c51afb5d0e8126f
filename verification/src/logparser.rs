//! The line-stream record parser: turns a stream of log lines into
//! structured entries, each a timestamped start line plus its continuation
//! lines, with the severity and message the start line carries.

use vstd::prelude::*;

use crate::bytes_util::{copy_bytes, is_digit, scan_while};
use crate::postgres::LogEntry;

verus! {

/// A byte of the entry-start timestamp class: digits, `-`, `:`, `.`, space.
pub open spec fn is_tcls(b: u8) -> bool {
    is_digit(b) || b == 45 || b == 58 || b == 46 || b == 32
}

/// A byte of the timezone class: upper-case letters, digits, `+`, `-`.
pub open spec fn is_zcls(b: u8) -> bool {
    (65 <= b && b <= 90) || is_digit(b) || b == 43 || b == 45
}

/// A byte of the severity-keyword class: upper-case letters and `1`-`5`.
pub open spec fn is_scls(b: u8) -> bool {
    (65 <= b && b <= 90) || (49 <= b && b <= 53)
}

/// A break byte: whitespace, colon or dash.
pub open spec fn is_brk(b: u8) -> bool {
    b == 32 || b == 9 || b == 10 || b == 13 || b == 58 || b == 45
}

pub open spec fn sp_zcls() -> spec_fn(u8) -> bool {
    |b: u8| is_zcls(b)
}

pub open spec fn sp_scls() -> spec_fn(u8) -> bool {
    |b: u8| is_scls(b)
}

/// The timestamp shape `[\d-:. ]{k} [A-Z0-9+-]{2,5}` stands at the line's
/// head with class run `k`: all of `s[0..k]` in the timestamp class,
/// a space at `k`, and at least two timezone-class bytes after it.
pub open spec fn time_shape_at(s: Seq<u8>, k: int) -> bool {
    &&& 0 <= k
    &&& k + 1 <= s.len()
    &&& forall|i: int| 0 <= i < k ==> is_tcls(#[trigger] s[i])
    &&& s[k] == 32
    &&& scan_while(s, k + 1, sp_zcls()) - (k + 1) >= 2
}

/// End of the timestamp prefix, trying the class runs 23 down to 19 and
/// then the bare 14-digit form; the timezone run is capped at five bytes.
pub open spec fn time_end_of(s: Seq<u8>) -> Option<int> {
    if time_shape_at(s, 23) {
        Some(tz_capped_end(s, 23))
    } else if time_shape_at(s, 22) {
        Some(tz_capped_end(s, 22))
    } else if time_shape_at(s, 21) {
        Some(tz_capped_end(s, 21))
    } else if time_shape_at(s, 20) {
        Some(tz_capped_end(s, 20))
    } else if time_shape_at(s, 19) {
        Some(tz_capped_end(s, 19))
    } else if s.len() >= 14 && (forall|i: int|
        0 <= i < 14 ==> is_digit(#[trigger] s[i]) || s[i] == 46) {
        Some(14int)
    } else {
        None
    }
}

/// The timestamp's end: past the timezone run, capped at five bytes.
pub open spec fn tz_capped_end(s: Seq<u8>, k: int) -> int {
    let run = scan_while(s, k + 1, sp_zcls()) - (k + 1);
    if run > 5 {
        k + 1 + 5
    } else {
        k + 1 + run
    }
}

/// First severity-keyword hit at or after `i`: a class run of three to
/// twelve bytes starting at a run boundary, followed by a colon and two
/// spaces. Yields the keyword's start and length.
pub open spec fn find_sev(s: Seq<u8>, lo: int, i: int) -> Option<(int, int)>
    decreases s.len() - i,
{
    if i < lo || i + 3 > s.len() {
        None
    } else if (i == lo || !is_scls(s[i - 1])) && is_scls(s[i]) && {
        let r = scan_while(s, i, sp_scls()) - i;
        3 <= r <= 12 && i + r + 3 <= s.len() && s[i + r] == 58 && s[i + r + 1] == 32 && s[i + r
            + 2] == 32
    } {
        Some((i, scan_while(s, i, sp_scls()) - i))
    } else {
        find_sev(s, lo, i + 1)
    }
}

/// The decomposition of an entry-start line: the timestamp text, the
/// severity keyword, and the message after the keyword's colon and double
/// space. A line without the timestamp head or the keyword is no entry
/// start.
pub open spec fn entry_start_of(s: Seq<u8>) -> Option<(Seq<u8>, Seq<u8>, Seq<u8>)> {
    match time_end_of(s) {
        None => None,
        Some(te) => if te < s.len() && is_brk(s[te]) {
            match find_sev(s, te + 1, te + 1) {
                None => None,
                Some((sv, r)) => Some(
                    (
                        s.subrange(0, te),
                        s.subrange(sv, sv + r),
                        s.subrange(sv + r + 3, s.len() as int),
                    ),
                ),
            }
        } else {
            None
        },
    }
}

/// Check the timestamp shape with class run `k` at the line's head.
fn time_shape_check(s: &[u8], k: usize) -> (r: bool)
    ensures
        r == time_shape_at(s@, k as int),
{
    let n = s.len();
    if k >= n {
        return false;
    }
    let mut i: usize = 0;
    while i < k
        invariant
            i <= k,
            k + 1 <= n,
            n == s@.len(),
            forall|t: int| 0 <= t < i ==> is_tcls(#[trigger] s@[t]),
        decreases k - i,
    {
        let b = s[i];
        if !((48 <= b && b <= 57) || b == 45 || b == 58 || b == 46 || b == 32) {
            return false;
        }
        i = i + 1;
    }
    if s[k] != 32 {
        return false;
    }
    let ze = scan_zcls(s, k + 1);
    ze - (k + 1) >= 2
}

/// Scan a run of timezone-class bytes.
fn scan_zcls(s: &[u8], from: usize) -> (r: usize)
    requires
        from <= s@.len(),
    ensures
        r == scan_while(s@, from as int, sp_zcls()),
        from <= r <= s@.len(),
{
    proof {
        crate::bytes_util::lemma_scan_while(s@, from as int, sp_zcls());
    }
    let n = s.len();
    let mut j: usize = from;
    while j < n && ((65 <= s[j] && s[j] <= 90) || (48 <= s[j] && s[j] <= 57) || s[j] == 43
        || s[j] == 45)
        invariant
            from <= j <= n,
            n == s@.len(),
            scan_while(s@, from as int, sp_zcls()) == scan_while(s@, j as int, sp_zcls()),
        decreases n - j,
    {
        proof {
            assert(scan_while(s@, j as int, sp_zcls()) == scan_while(s@, j + 1, sp_zcls()));
        }
        j = j + 1;
    }
    assert(scan_while(s@, j as int, sp_zcls()) == j);
    j
}

/// Scan a run of severity-class bytes.
fn scan_scls(s: &[u8], from: usize) -> (r: usize)
    requires
        from <= s@.len(),
    ensures
        r == scan_while(s@, from as int, sp_scls()),
        from <= r <= s@.len(),
{
    proof {
        crate::bytes_util::lemma_scan_while(s@, from as int, sp_scls());
    }
    let n = s.len();
    let mut j: usize = from;
    while j < n && ((65 <= s[j] && s[j] <= 90) || (49 <= s[j] && s[j] <= 53))
        invariant
            from <= j <= n,
            n == s@.len(),
            scan_while(s@, from as int, sp_scls()) == scan_while(s@, j as int, sp_scls()),
        decreases n - j,
    {
        proof {
            assert(scan_while(s@, j as int, sp_scls()) == scan_while(s@, j + 1, sp_scls()));
        }
        j = j + 1;
    }
    assert(scan_while(s@, j as int, sp_scls()) == j);
    j
}

/// Decompose an entry-start line into timestamp, severity and message.
pub fn parse_entry_start(s: &[u8]) -> (r: Option<(Vec<u8>, Vec<u8>, Vec<u8>)>)
    ensures
        match r {
            Some(p) => entry_start_of(s@) == Some((p.0@, p.1@, p.2@)),
            None => entry_start_of(s@) is None,
        },
{
    let n = s.len();
    let te: usize = if time_shape_check(s, 23) {
        tz_end(s, 23)
    } else if time_shape_check(s, 22) {
        tz_end(s, 22)
    } else if time_shape_check(s, 21) {
        tz_end(s, 21)
    } else if time_shape_check(s, 20) {
        tz_end(s, 20)
    } else if time_shape_check(s, 19) {
        tz_end(s, 19)
    } else {
        if n >= 14 && crate::bytes_util::scan_number(s, 0) >= 14 {
            proof {
                crate::bytes_util::lemma_scan_while(s@, 0, crate::bytes_util::sp_num());
                assert(forall|i: int| 0 <= i < 14 ==> is_digit(#[trigger] s@[i]) || s@[i] == 46);
            }
            14
        } else {
            proof {
                if n >= 14 {
                    crate::bytes_util::lemma_scan_while(s@, 0, crate::bytes_util::sp_num());
                    let sc = scan_while(s@, 0, crate::bytes_util::sp_num());
                    if sc < 14 {
                        assert(sc < s@.len());
                        assert(!(is_digit(s@[sc]) || s@[sc] == 46));
                    }
                }
            }
            return None;
        }
    };
    if !(te < n && (s[te] == 32 || s[te] == 9 || s[te] == 10 || s[te] == 13 || s[te] == 58
        || s[te] == 45)) {
        return None;
    }
    // search for the severity keyword
    let lo = te + 1;
    let mut i: usize = lo;
    loop
        invariant
            1 <= lo <= i,
            lo <= n,
            i <= n,
            n == s@.len(),
            lo == te + 1,
            te < n,
            time_end_of(s@) == Some(te as int),
            is_brk(s@[te as int]),
            find_sev(s@, lo as int, lo as int) == find_sev(s@, lo as int, i as int),
        decreases n - i,
    {
        if i >= n || n - i < 3 {
            assert(find_sev(s@, lo as int, i as int) is None);
            return None;
        }
        let boundary = i == lo || !((65 <= s[i - 1] && s[i - 1] <= 90) || (49 <= s[i - 1] && s[i
            - 1] <= 53));
        if boundary && ((65 <= s[i] && s[i] <= 90) || (49 <= s[i] && s[i] <= 53)) {
            let re = scan_scls(s, i);
            let r = re - i;
            if 3 <= r && r <= 12 && n - re >= 3 && s[re] == 58 && s[re + 1] == 32 && s[re + 2]
                == 32 {
                assert(find_sev(s@, lo as int, i as int) == Some((i as int, r as int)));
                let time = copy_bytes(vstd::slice::slice_subrange(s, 0, te));
                let sev = copy_bytes(vstd::slice::slice_subrange(s, i, re));
                let msg = copy_bytes(vstd::slice::slice_subrange(s, re + 3, n));
                return Some((time, sev, msg));
            }
        }
        proof {
            assert(find_sev(s@, lo as int, i as int) == find_sev(s@, lo as int, i + 1));
        }
        i = i + 1;
    }
}

/// The timestamp's end for class run `k`.
fn tz_end(s: &[u8], k: usize) -> (r: usize)
    requires
        time_shape_at(s@, k as int),
    ensures
        r == tz_capped_end(s@, k as int),
        r <= s@.len(),
{
    let n = s.len();
    assert(k + 1 <= n);
    let ze = scan_zcls(s, k + 1);
    let run = ze - (k + 1);
    if run > 5 {
        k + 1 + 5
    } else {
        ze
    }
}

/// The entry's fields are those of an entry-start line, and the line is
/// its first.
pub open spec fn entry_from_line(e: LogEntry, l: Seq<u8>) -> bool {
    match entry_start_of(l) {
        None => false,
        Some(p) => e.log_time@ == p.0 && e.error_severity@ == p.1 && e.message@ == p.2
            && e.lines@.len() >= 1 && e.lines@[0]@ == l,
    }
}

/// The entry was built from some entry-start line of the stream.
pub open spec fn entry_from_stream(e: LogEntry, lines: Seq<Seq<u8>>) -> bool {
    exists|li: int| 0 <= li < lines.len() && entry_from_line(e, #[trigger] lines[li])
}

/// Turns a stream of log lines into structured entries: every entry-start
/// line opens an entry that absorbs the continuation lines after it;
/// leading continuation lines with no entry to join are dropped.
pub struct LogRecordIterator {
    pub lines: Vec<Vec<u8>>,
    pub pos: usize,
    pub current: Option<LogEntry>,
}

impl LogRecordIterator {
    /// The iterator's position is in range and any open entry came from
    /// the stream.
    pub open spec fn wf(&self) -> bool {
        &&& self.pos <= self.lines@.len()
        &&& match self.current {
            Some(e) => entry_from_stream(e, lines_views(self.lines@)),
            None => true,
        }
    }

    /// How much work is left: unread lines plus an open entry.
    pub open spec fn pending(&self) -> int {
        self.lines@.len() - self.pos + if self.current is Some {
            1int
        } else {
            0int
        }
    }

    pub fn new(lines: Vec<Vec<u8>>) -> (r: LogRecordIterator)
        ensures
            r.lines@ == lines@,
            r.pos == 0,
            r.current is None,
            r.wf(),
    {
        LogRecordIterator { lines, pos: 0, current: None }
    }

    /// The next complete entry, or `None` at the stream's end.
    pub fn next_entry(&mut self) -> (r: Option<LogEntry>)
        requires
            old(self).wf(),
        ensures
            final(self).lines@ == old(self).lines@,
            final(self).wf(),
            old(self).pos <= final(self).pos,
            final(self).pending() <= old(self).pending(),
            match r {
                Some(e) => entry_from_stream(e, lines_views(old(self).lines@))
                    && final(self).pending() < old(self).pending(),
                None => final(self).pos == final(self).lines@.len() && final(self).current
                    is None,
            },
    {
        let n = self.lines.len();
        while self.pos < n
            invariant
                n == self.lines@.len(),
                self.lines@ == old(self).lines@,
                old(self).pos <= self.pos <= n,
                self.pending() <= old(self).pending(),
                match self.current {
                    Some(e) => entry_from_stream(e, lines_views(self.lines@)),
                    None => true,
                },
            decreases n - self.pos,
        {
            let li = self.pos;
            let line = copy_bytes(self.lines[li].as_slice());
            self.pos = li + 1;
            match parse_entry_start(line.as_slice()) {
                Some((time, sev, msg)) => {
                    let mut fresh_lines: Vec<Vec<u8>> = Vec::new();
                    fresh_lines.push(line);
                    let entry = LogEntry {
                        log_time: time,
                        error_severity: sev,
                        message: msg,
                        lines: fresh_lines,
                        csv_columns: None,
                    };
                    proof {
                        assert(entry.lines@[0]@ == lines_views(self.lines@)[li as int]);
                        assert(entry_from_line(entry, lines_views(self.lines@)[li as int]));
                        assert(entry_from_stream(entry, lines_views(self.lines@)));
                    }
                    let done = self.current.take();
                    self.current = Some(entry);
                    match done {
                        Some(e) => {
                            return Some(e);
                        },
                        None => {},
                    }
                },
                None => {
                    match self.current.take() {
                        Some(e) => {
                            let ghost pre = e;
                            let mut e2 = e;
                            e2.lines.push(line);
                            proof {
                                let li2 = choose|li2: int|
                                    0 <= li2 < lines_views(self.lines@).len() && entry_from_line(
                                        pre,
                                        lines_views(self.lines@)[li2],
                                    );
                                assert(e2.lines@[0]@ == pre.lines@[0]@);
                                assert(entry_from_line(e2, lines_views(self.lines@)[li2]));
                                assert(entry_from_stream(e2, lines_views(self.lines@)));
                            }
                            self.current = Some(e2);
                        },
                        None => {},
                    }
                },
            }
        }
        self.current.take()
    }
}

/// The views of a vector of lines.
pub open spec fn lines_views(lines: Seq<Vec<u8>>) -> Seq<Seq<u8>> {
    Seq::new(lines.len(), |i: int| lines[i]@)
}

/// The line opens an entry: it decomposes as an entry-start line.
pub open spec fn is_entry_start(l: Seq<u8>) -> bool {
    entry_start_of(l) is Some
}

/// How many of the first `i` lines are entry-start lines.
pub open spec fn start_count(lv: Seq<Seq<u8>>, i: int) -> int
    decreases i,
{
    if i <= 0 {
        0
    } else {
        start_count(lv, i - 1) + if is_entry_start(lv[i - 1]) {
            1int
        } else {
            0int
        }
    }
}

/// The first entry-start line at or after `i`, or the stream's length when
/// none follows.
pub open spec fn next_start(lv: Seq<Seq<u8>>, i: int) -> int
    decreases lv.len() - i,
{
    if i >= lv.len() {
        lv.len() as int
    } else if is_entry_start(lv[i]) {
        i
    } else {
        next_start(lv, i + 1)
    }
}

/// The entry is the one that the entry-start line at `t` opens: its
/// fields are the line's decomposition, and its lines run from `t` up to
/// the next entry-start line.
pub open spec fn stream_entry_at(lv: Seq<Seq<u8>>, t: int, e: LogEntry) -> bool {
    match entry_start_of(lv[t]) {
        None => false,
        Some(p) => e.log_time@ == p.0 && e.error_severity@ == p.1 && e.message@ == p.2
            && e.csv_columns is None && lines_views(e.lines@) == lv.subrange(
            t,
            next_start(lv, t + 1),
        ),
    }
}

/// The entry-start counter grows along the stream, strictly past a start
/// line.
proof fn lemma_start_count_mono(lv: Seq<Seq<u8>>, a: int, b: int)
    requires
        0 <= a <= b,
    ensures
        start_count(lv, a) <= start_count(lv, b),
        a < b && is_entry_start(lv[a]) ==> start_count(lv, a) < start_count(lv, b),
    decreases b - a,
{
    if a < b {
        lemma_start_count_mono(lv, a + 1, b);
    }
}

/// When no entry-start line stands in `[a, i)` and `i` is a start line or
/// the stream's end, the next start from `a` is `i`.
proof fn lemma_next_start_at(lv: Seq<Seq<u8>>, a: int, i: int)
    requires
        0 <= a <= i <= lv.len(),
        forall|j: int| a <= j < i ==> !is_entry_start(#[trigger] lv[j]),
        i == lv.len() || is_entry_start(lv[i]),
    ensures
        next_start(lv, a) == i,
    decreases i - a,
{
    if a < i {
        lemma_next_start_at(lv, a + 1, i);
    }
}

/// Convert a stream of log lines into complete entries: one entry per
/// entry-start line, in stream order, each holding the start line's
/// timestamp, severity and message with the continuation lines up to the
/// next start line; leading continuation lines join no entry.
#[verifier::rlimit(100)]
#[verifier::spinoff_prover]
pub fn get_log_records_from_line_stream(lines: Vec<Vec<u8>>) -> (r: Vec<LogEntry>)
    ensures
        r@.len() == start_count(lines_views(lines@), lines@.len() as int),
        forall|t: int|
            0 <= t < lines@.len() && is_entry_start(#[trigger] lines_views(lines@)[t]) ==> 0
                <= start_count(lines_views(lines@), t) < r@.len() && stream_entry_at(
                lines_views(lines@),
                t,
                r@[start_count(lines_views(lines@), t)],
            ),
        forall|k: int|
            0 <= k < r@.len() ==> entry_from_stream(#[trigger] r@[k], lines_views(lines@)),
{
    let ghost lv = lines_views(lines@);
    let n = lines.len();
    let mut out: Vec<LogEntry> = Vec::new();
    let mut cur: Option<LogEntry> = None;
    let ghost mut topen: int = 0;
    let mut i: usize = 0;
    while i < n
        invariant
            i <= n,
            n == lines@.len(),
            lv == lines_views(lines@),
            cur is Some <==> start_count(lv, i as int) > 0,
            cur matches Some(e) ==> ({
                &&& 0 <= topen < i
                &&& is_entry_start(lv[topen])
                &&& forall|j: int| topen < j < i ==> !is_entry_start(#[trigger] lv[j])
                &&& out@.len() == start_count(lv, topen)
                &&& start_count(lv, i as int) == start_count(lv, topen) + 1
                &&& (match entry_start_of(lv[topen]) {
                    None => false,
                    Some(p) => e.log_time@ == p.0 && e.error_severity@ == p.1 && e.message@
                        == p.2,
                })
                &&& e.csv_columns is None
                &&& lines_views(e.lines@) == lv.subrange(topen, i as int)
            }),
            cur is None ==> out@.len() == 0 && start_count(lv, i as int) == 0,
            forall|t: int|
                0 <= t < i && is_entry_start(#[trigger] lv[t]) && (cur is Some && t < topen)
                    ==> 0 <= start_count(lv, t) < out@.len() && stream_entry_at(
                    lv,
                    t,
                    out@[start_count(lv, t)],
                ),
            forall|k: int| 0 <= k < out@.len() ==> entry_from_stream(#[trigger] out@[k], lv),
        decreases n - i,
    {
        let line = copy_bytes(lines[i].as_slice());
        proof {
            assert(line@ == lv[i as int]);
        }
        match parse_entry_start(line.as_slice()) {
            Some((time, sev, msg)) => {
                proof {
                    assert(is_entry_start(lv[i as int]));
                    assert(start_count(lv, i + 1) == start_count(lv, i as int) + 1);
                }
                let prev = cur;
                let mut fresh_lines: Vec<Vec<u8>> = Vec::new();
                fresh_lines.push(line);
                let entry = LogEntry {
                    log_time: time,
                    error_severity: sev,
                    message: msg,
                    lines: fresh_lines,
                    csv_columns: None,
                };
                proof {
                    assert(lines_views(entry.lines@) =~= lv.subrange(i as int, i + 1));
                }
                cur = Some(entry);
                match prev {
                    Some(e) => {
                        let ghost out_pre = out@;
                        let ghost t0 = topen;
                        proof {
                            lemma_next_start_at(lv, t0 + 1, i as int);
                            assert(lines_views(e.lines@) == lv.subrange(t0, i as int));
                            assert(stream_entry_at(lv, t0, e));
                            assert(lines_views(e.lines@).len() == i - t0);
                            assert(lines_views(e.lines@)[0] == lv.subrange(t0, i as int)[0]);
                            assert(e.lines@.len() >= 1 && e.lines@[0]@ == lv[t0]);
                            assert(entry_from_line(e, lv[t0]));
                            assert(entry_from_stream(e, lv));
                        }
                        out.push(e);
                        proof {
                            topen = i as int;
                            assert forall|t: int|
                                0 <= t < i + 1 && is_entry_start(#[trigger] lv[t]) && t
                                    < topen implies 0 <= start_count(lv, t) < out@.len()
                                && stream_entry_at(lv, t, out@[start_count(lv, t)]) by {
                                if t < t0 {
                                    assert(out@[start_count(lv, t)] == out_pre[start_count(
                                        lv,
                                        t,
                                    )]);
                                } else {
                                    assert(t == t0);
                                    assert(start_count(lv, t0) == out_pre.len());
                                    assert(out@[start_count(lv, t0)] == e);
                                }
                            }
                        }
                    },
                    None => {
                        proof {
                            topen = i as int;
                            assert forall|t: int| 0 <= t < i implies !is_entry_start(
                                #[trigger] lv[t],
                            ) by {
                                if is_entry_start(lv[t]) {
                                    lemma_start_count_mono(lv, 0, t);
                                    lemma_start_count_mono(lv, t, i as int);
                                }
                            }
                        }
                    },
                }
            },
            None => {
                proof {
                    assert(!is_entry_start(lv[i as int]));
                    assert(start_count(lv, i + 1) == start_count(lv, i as int));
                }
                let prev = cur;
                match prev {
                    Some(e) => {
                        let mut e2 = e;
                        let ghost lpre = e2.lines@;
                        e2.lines.push(line);
                        proof {
                            assert forall|k: int| 0 <= k < e2.lines@.len() implies lines_views(
                                e2.lines@,
                            )[k] == lv.subrange(topen, i + 1)[k] by {
                                if k < lpre.len() {
                                    assert(e2.lines@[k] == lpre[k]);
                                    assert(lines_views(lpre)[k] == lv.subrange(
                                        topen,
                                        i as int,
                                    )[k]);
                                }
                            }
                            assert(lines_views(e2.lines@) =~= lv.subrange(topen, i + 1));
                        }
                        cur = Some(e2);
                    },
                    None => {
                        cur = None;
                    },
                }
            },
        }
        i = i + 1;
    }
    let prev = cur;
    match prev {
        Some(e) => {
            let ghost out_pre = out@;
            proof {
                lemma_next_start_at(lv, topen + 1, n as int);
                assert(stream_entry_at(lv, topen, e));
                assert(lines_views(e.lines@) == lv.subrange(topen, n as int));
                assert(lines_views(e.lines@).len() == n - topen);
                assert(lines_views(e.lines@)[0] == lv.subrange(topen, n as int)[0]);
                assert(e.lines@.len() >= 1 && e.lines@[0]@ == lv[topen]);
                assert(entry_from_line(e, lv[topen]));
                assert(entry_from_stream(e, lv));
            }
            out.push(e);
            proof {
                assert forall|t: int|
                    0 <= t < n && is_entry_start(#[trigger] lv[t]) implies 0 <= start_count(
                    lv,
                    t,
                ) < out@.len() && stream_entry_at(lv, t, out@[start_count(lv, t)]) by {
                    if t < topen {
                        assert(out@[start_count(lv, t)] == out_pre[start_count(lv, t)]);
                    } else {
                        assert(t == topen);
                        assert(start_count(lv, topen) == out_pre.len());
                        assert(out@[start_count(lv, topen)] == e);
                    }
                }
            }
        },
        None => {
            proof {
                assert forall|t: int| 0 <= t < n implies !is_entry_start(#[trigger] lv[t]) by {
                    if is_entry_start(lv[t]) {
                        lemma_start_count_mono(lv, 0, t);
                        lemma_start_count_mono(lv, t, n as int);
                    }
                }
            }
        },
    }
    out
}

} // verus!
