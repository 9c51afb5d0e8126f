//! The per-file record parsers over line streams: the plain-text and CSV
//! variants both gather timestamp-started records and hand out filtered,
//! structured lines.

use vstd::prelude::*;

use crate::bytes_util::{copy_bytes, is_prefix_of, starts_with_bytes};
use crate::error::Error;
use crate::format::csv::csv_field;
use crate::records::pg_ts_19_at;
use crate::severity::{rank_spec, Severity};
use crate::timeparse::LogInstant;
use crate::Format;

verus! {

/// One filtered record: its instant, severity, message and raw text.
pub struct LogLine {
    pub timestamp: LogInstant,
    pub severity: Severity,
    pub message: Vec<u8>,
    pub raw: Vec<u8>,
}

/// The record clears the mask and the severity floor under the format.
pub open spec fn pre_passes(
    fmt: Format,
    rec: Seq<u8>,
    min_severity: i32,
    mask: Option<Vec<u8>>,
) -> bool {
    &&& match mask {
        Some(m) => is_prefix_of(rec, m@),
        None => true,
    }
    &&& rank_spec(crate::format::severity_spec(fmt, rec)) >= min_severity
}

/// The instant lies inside the window.
pub open spec fn inst_in_window(
    t: LogInstant,
    begin: Option<LogInstant>,
    end: Option<LogInstant>,
) -> bool {
    &&& match begin {
        Some(b) => t.nanos >= b.nanos,
        None => true,
    }
    &&& match end {
        Some(e) => t.nanos <= e.nanos,
        None => true,
    }
}

/// The three-way decision on one gathered record: `None` when the mask,
/// the floor or the window rejects it, `Some` with the structured line
/// when everything passes. Timestamps without a recognized zone read at
/// whatever offset the local zone gave, so the window cases quantify over
/// the instant.
pub open spec fn stream_decision(
    fmt: Format,
    rec: Seq<u8>,
    min_severity: i32,
    mask: Option<Vec<u8>>,
    begin: Option<LogInstant>,
    end: Option<LogInstant>,
    d: Option<LogLine>,
) -> bool {
    match d {
        None => !pre_passes(fmt, rec, min_severity, mask) || (crate::engine::ts_text_spec(
            rec,
            fmt,
        ) is Some && crate::timeparse::parse_ts_spec(
            crate::timeparse::trim_spaces(crate::engine::ts_text_spec(rec, fmt).unwrap()),
        ) is Some && exists|t: LogInstant|
            #![trigger inst_in_window(t, begin, end)]
            crate::engine::instant_of_parsed(
                t,
                crate::timeparse::parse_ts_spec(
                    crate::timeparse::trim_spaces(crate::engine::ts_text_spec(rec, fmt).unwrap()),
                ).unwrap(),
            ) && !inst_in_window(t, begin, end)),
        Some(l) => {
            &&& pre_passes(fmt, rec, min_severity, mask)
            &&& crate::engine::ts_text_spec(rec, fmt) is Some
            &&& crate::timeparse::parse_ts_spec(
                crate::timeparse::trim_spaces(crate::engine::ts_text_spec(rec, fmt).unwrap()),
            ) is Some
            &&& crate::engine::instant_of_parsed(
                l.timestamp,
                crate::timeparse::parse_ts_spec(
                    crate::timeparse::trim_spaces(crate::engine::ts_text_spec(rec, fmt).unwrap()),
                ).unwrap(),
            )
            &&& inst_in_window(l.timestamp, begin, end)
            &&& l.raw@ == rec
            &&& l.severity == crate::format::severity_spec(fmt, rec)
            &&& match fmt {
                Format::Plain => l.message@ == rec,
                Format::Csv => l.message@ == match crate::format::csv::csv_field_spec(rec, 13) {
                    Some(f) => f,
                    None => Seq::<u8>::empty(),
                },
            }
        },
    }
}

/// Every produced line passed the severity floor, the mask and the window.
pub open spec fn line_passes(
    l: LogLine,
    min_severity: i32,
    mask: Option<Vec<u8>>,
    begin: Option<LogInstant>,
    end: Option<LogInstant>,
) -> bool {
    &&& rank_spec(l.severity) >= min_severity
    &&& match mask {
        Some(m) => is_prefix_of(l.raw@, m@),
        None => true,
    }
    &&& match begin {
        Some(b) => l.timestamp.nanos >= b.nanos,
        None => true,
    }
    &&& match end {
        Some(e) => l.timestamp.nanos <= e.nanos,
        None => true,
    }
}

/// Check the 19-byte timestamp shape at a byte line's head.
pub fn pg_ts_19_check(line: &[u8]) -> (r: bool)
    ensures
        r == pg_ts_19_at(line@),
{
    let b = line;
    if b.len() < 19 {
        return false;
    }
    (48 <= b[0] && b[0] <= 57) && (48 <= b[1] && b[1] <= 57) && (48 <= b[2] && b[2] <= 57) && (48
        <= b[3] && b[3] <= 57) && b[4] == 45 && (48 <= b[5] && b[5] <= 57) && (48 <= b[6] && b[6]
        <= 57) && b[7] == 45 && (48 <= b[8] && b[8] <= 57) && (48 <= b[9] && b[9] <= 57) && b[10]
        == 32 && (48 <= b[11] && b[11] <= 57) && (48 <= b[12] && b[12] <= 57) && b[13] == 58 && (48
        <= b[14] && b[14] <= 57) && (48 <= b[15] && b[15] <= 57) && b[16] == 58 && (48 <= b[17]
        && b[17] <= 57) && (48 <= b[18] && b[18] <= 57)
}

/// Decide one gathered plain record: apply the mask, the severity floor
/// and the window; an unparseable timestamp past the floor is a reported
/// error.
#[verifier::rlimit(100)]
pub fn process_simple_log_record(
    record: Vec<u8>,
    min_severity: i32,
    mask: &Option<Vec<u8>>,
    begin: &Option<LogInstant>,
    end: &Option<LogInstant>,
) -> (r: Result<Option<LogLine>, Error>)
    ensures
        match r {
            Ok(d) => stream_decision(
                Format::Plain,
                record@,
                min_severity,
                *mask,
                *begin,
                *end,
                d,
            ),
            Err(e) => pre_passes(Format::Plain, record@, min_severity, *mask) && (e
                == Error::MissingTimestamp || e == Error::InvalidTimestamp) && (e
                == Error::MissingTimestamp <==> crate::engine::ts_text_spec(
                record@,
                Format::Plain,
            ) is None) && (crate::engine::ts_text_spec(record@, Format::Plain) is Some
                ==> crate::timeparse::parse_ts_spec(
                crate::timeparse::trim_spaces(
                    crate::engine::ts_text_spec(record@, Format::Plain).unwrap(),
                ),
            ) is None),
        },
        r matches Ok(Some(l)) ==> line_passes(l, min_severity, *mask, *begin, *end) && l.raw@
            == record@,
{
    match mask {
        Some(m) => if !starts_with_bytes(record.as_slice(), m.as_slice()) {
            return Ok(None);
        },
        None => {},
    }
    let severity = Severity::from_log_bytes(record.as_slice());
    if severity.rank() < min_severity {
        return Ok(None);
    }
    let ts = match crate::engine::ts_text(record.as_slice(), &Format::Plain) {
        None => {
            return Err(Error::MissingTimestamp);
        },
        Some(v) => v,
    };
    let t = match crate::timeparse::parse_timestamp_trimming(ts.as_slice()) {
        None => {
            return Err(Error::InvalidTimestamp);
        },
        Some(t) => t,
    };
    let ghost parsed = crate::timeparse::parse_ts_spec(
        crate::timeparse::trim_spaces(
            crate::engine::ts_text_spec(record@, Format::Plain).unwrap(),
        ),
    ).unwrap();
    assert(crate::engine::instant_of_parsed(t, parsed));
    match begin {
        Some(b) => if t.nanos < b.nanos {
            proof {
                assert(!inst_in_window(t, *begin, *end));
            }
            return Ok(None);
        },
        None => {},
    }
    match end {
        Some(e) => if t.nanos > e.nanos {
            proof {
                assert(!inst_in_window(t, *begin, *end));
            }
            return Ok(None);
        },
        None => {},
    }
    let message = copy_bytes(record.as_slice());
    Ok(Some(LogLine { timestamp: t, severity, message, raw: record }))
}

/// Decide one gathered CSV record: apply the mask, the severity floor
/// (twelfth column) and the window (first column); an unparseable
/// timestamp past the floor is a reported error. The message is the
/// fourteenth column.
#[verifier::rlimit(100)]
pub fn process_record(
    record: Vec<u8>,
    min_severity: i32,
    mask: &Option<Vec<u8>>,
    begin: &Option<LogInstant>,
    end: &Option<LogInstant>,
) -> (r: Result<Option<LogLine>, Error>)
    ensures
        match r {
            Ok(d) => stream_decision(
                Format::Csv,
                record@,
                min_severity,
                *mask,
                *begin,
                *end,
                d,
            ),
            Err(e) => pre_passes(Format::Csv, record@, min_severity, *mask) && (e
                == Error::MissingTimestamp || e == Error::InvalidTimestamp) && (e
                == Error::MissingTimestamp <==> crate::engine::ts_text_spec(
                record@,
                Format::Csv,
            ) is None) && (crate::engine::ts_text_spec(record@, Format::Csv) is Some
                ==> crate::timeparse::parse_ts_spec(
                crate::timeparse::trim_spaces(
                    crate::engine::ts_text_spec(record@, Format::Csv).unwrap(),
                ),
            ) is None),
        },
        r matches Ok(Some(l)) ==> line_passes(l, min_severity, *mask, *begin, *end) && l.raw@
            == record@,
{
    match mask {
        Some(m) => if !starts_with_bytes(record.as_slice(), m.as_slice()) {
            return Ok(None);
        },
        None => {},
    }
    let severity = Severity::from_csv_bytes(record.as_slice());
    if severity.rank() < min_severity {
        return Ok(None);
    }
    let ts = match crate::engine::ts_text(record.as_slice(), &Format::Csv) {
        None => {
            return Err(Error::MissingTimestamp);
        },
        Some(v) => v,
    };
    let t = match crate::timeparse::parse_timestamp_trimming(ts.as_slice()) {
        None => {
            return Err(Error::InvalidTimestamp);
        },
        Some(t) => t,
    };
    let ghost parsed = crate::timeparse::parse_ts_spec(
        crate::timeparse::trim_spaces(
            crate::engine::ts_text_spec(record@, Format::Csv).unwrap(),
        ),
    ).unwrap();
    assert(crate::engine::instant_of_parsed(t, parsed));
    match begin {
        Some(b) => if t.nanos < b.nanos {
            proof {
                assert(!inst_in_window(t, *begin, *end));
            }
            return Ok(None);
        },
        None => {},
    }
    match end {
        Some(e) => if t.nanos > e.nanos {
            proof {
                assert(!inst_in_window(t, *begin, *end));
            }
            return Ok(None);
        },
        None => {},
    }
    let message = match csv_field(record.as_slice(), 13) {
        Some(m) => m,
        None => Vec::new(),
    };
    Ok(Some(LogLine { timestamp: t, severity, message, raw: record }))
}

/// The records a line stream gathers, given the already-buffered text:
/// a timestamp-started line flushes the buffer (when nonempty) and opens
/// the next record; other lines join the buffer with a newline; the final
/// buffer flushes at the end.
pub open spec fn gather(lines: Seq<Seq<u8>>, cur: Seq<u8>) -> Seq<Seq<u8>>
    decreases lines.len(),
{
    if lines.len() == 0 {
        if cur.len() > 0 {
            seq![cur]
        } else {
            Seq::empty()
        }
    } else if !pg_ts_19_at(lines[0]) {
        gather(lines.drop_first(), cur + lines[0] + seq![10u8])
    } else if cur.len() > 0 {
        seq![cur] + gather(lines.drop_first(), lines[0])
    } else {
        gather(lines.drop_first(), lines[0])
    }
}

/// The accepted lines among the first `i` decisions, in order.
pub open spec fn somes_prefix(ds: Seq<Option<LogLine>>, i: int) -> Seq<LogLine>
    decreases i,
{
    if i <= 0 {
        Seq::empty()
    } else {
        somes_prefix(ds, i - 1) + match ds[i - 1] {
            Some(l) => seq![l],
            None => Seq::<LogLine>::empty(),
        }
    }
}

proof fn lemma_somes_push(ds: Seq<Option<LogLine>>, d: Option<LogLine>, i: int)
    requires
        i <= ds.len(),
    ensures
        somes_prefix(ds.push(d), i) == somes_prefix(ds, i),
    decreases i,
{
    if i > 0 {
        lemma_somes_push(ds, d, i - 1);
        assert(ds.push(d)[i - 1] == ds[i - 1]);
    }
}

/// Some decision sequence explains the stream parse: the output is
/// exactly the accepted lines of the gathered records, in order.
pub open spec fn stream_outcome(
    fmt: Format,
    lines: Seq<Seq<u8>>,
    cur0: Seq<u8>,
    min_severity: i32,
    mask: Option<Vec<u8>>,
    begin: Option<LogInstant>,
    end: Option<LogInstant>,
    out: Seq<LogLine>,
) -> bool {
    exists|ds: Seq<Option<LogLine>>|
        #![trigger somes_prefix(ds, gather(lines, cur0).len() as int)]
        {
            let recs = gather(lines, cur0);
            &&& ds.len() == recs.len()
            &&& forall|k: int|
                0 <= k < recs.len() ==> stream_decision(
                    fmt,
                    recs[k],
                    min_severity,
                    mask,
                    begin,
                    end,
                    #[trigger] ds[k],
                )
            &&& out == somes_prefix(ds, recs.len() as int)
        }
}

/// Gather lines into timestamp-started records and filter them, plain
/// variant: a line with the 19-byte timestamp head flushes the gathered
/// record.
pub struct LogLogParser {
    pub current: Vec<u8>,
}

impl LogLogParser {
    pub fn new() -> (r: LogLogParser)
        ensures
            r.current@.len() == 0,
    {
        LogLogParser { current: Vec::new() }
    }

    /// Parse a line stream: on success the output is exactly the accepted
    /// lines of the gathered records, in order, and the buffer is drained.
    #[verifier::rlimit(100)]
    #[verifier::spinoff_prover]
    pub fn parse_lines(
        &mut self,
        lines: &Vec<Vec<u8>>,
        min_severity: i32,
        mask: &Option<Vec<u8>>,
        begin: &Option<LogInstant>,
        end: &Option<LogInstant>,
    ) -> (r: Result<Vec<LogLine>, Error>)
        ensures
            r matches Ok(out) ==> forall|k: int|
                0 <= k < out@.len() ==> line_passes(
                    #[trigger] out@[k],
                    min_severity,
                    *mask,
                    *begin,
                    *end,
                ),
            r matches Ok(out) ==> stream_outcome(
                Format::Plain,
                crate::logparser::lines_views(lines@),
                old(self).current@,
                min_severity,
                *mask,
                *begin,
                *end,
                out@,
            ) && final(self).current@.len() == 0,
    {
        let ghost lv = crate::logparser::lines_views(lines@);
        let ghost cur0 = self.current@;
        let ghost total = gather(lv, cur0);
        let mut out: Vec<LogLine> = Vec::new();
        let ghost mut grecs: Seq<Seq<u8>> = Seq::empty();
        let ghost mut ds: Seq<Option<LogLine>> = Seq::empty();
        let n = lines.len();
        let mut i: usize = 0;
        proof {
            assert(lv.subrange(0, n as int) =~= lv);
        }
        while i < n
            invariant
                n == lines@.len(),
                lv == crate::logparser::lines_views(lines@),
                total == gather(lv, cur0),
                i <= n,
                ds.len() == grecs.len(),
                total == grecs + gather(lv.subrange(i as int, n as int), self.current@),
                forall|k: int|
                    0 <= k < grecs.len() ==> stream_decision(
                        Format::Plain,
                        grecs[k],
                        min_severity,
                        *mask,
                        *begin,
                        *end,
                        #[trigger] ds[k],
                    ),
                out@ == somes_prefix(ds, ds.len() as int),
                forall|k: int|
                    0 <= k < out@.len() ==> line_passes(
                        #[trigger] out@[k],
                        min_severity,
                        *mask,
                        *begin,
                        *end,
                    ),
            decreases n - i,
        {
            let ghost rest = lv.subrange(i as int, n as int);
            proof {
                assert(rest[0] == lv[i as int]);
                assert(rest.drop_first() =~= lv.subrange(i + 1, n as int));
                assert(lv[i as int] == lines@[i as int]@);
            }
            let line = lines[i].as_slice();
            let ghost curg = self.current@;
            if !pg_ts_19_check(line) {
                crate::render::push_bytes(&mut self.current, line);
                self.current.push(10);
                proof {
                    assert(self.current@ =~= curg + lv[i as int] + seq![10u8]);
                    assert(gather(rest, curg) == gather(
                        rest.drop_first(),
                        curg + rest[0] + seq![10u8],
                    ));
                    assert(curg + rest[0] + seq![10u8] == self.current@);
                    assert(total == grecs + gather(
                        lv.subrange(i + 1, n as int),
                        self.current@,
                    ));
                }
            } else {
                let prev = copy_bytes(self.current.as_slice());
                let ghost prevv = prev@;
                self.current = copy_bytes(line);
                if prev.len() > 0 {
                    proof {
                        assert(prevv == curg);
                        assert(gather(rest, curg) == seq![curg] + gather(
                            rest.drop_first(),
                            rest[0],
                        ));
                        assert(self.current@ == lv[i as int]);
                        assert(total[grecs.len() as int] == curg);
                    }
                    match process_simple_log_record(prev, min_severity, mask, begin, end) {
                        Err(e) => {
                            return Err(e);
                        },
                        Ok(None) => {
                            proof {
                                lemma_somes_push(ds, None, ds.len() as int);
                                grecs = grecs.push(total[grecs.len() as int]);
                                ds = ds.push(None);
                                assert(out@ =~= somes_prefix(ds, ds.len() as int));
                                assert(total =~= grecs + gather(
                                    lv.subrange(i + 1, n as int),
                                    self.current@,
                                ));
                            }
                        },
                        Ok(Some(l)) => {
                            let ghost lval = l;
                            out.push(l);
                            proof {
                                lemma_somes_push(ds, Some(lval), ds.len() as int);
                                grecs = grecs.push(total[grecs.len() as int]);
                                ds = ds.push(Some(lval));
                                assert(out@ =~= somes_prefix(ds, ds.len() as int));
                                assert(total =~= grecs + gather(
                                    lv.subrange(i + 1, n as int),
                                    self.current@,
                                ));
                            }
                        },
                    }
                } else {
                    proof {
                        assert(curg.len() == 0);
                        assert(gather(rest, curg) == gather(rest.drop_first(), rest[0]));
                        assert(self.current@ == lv[i as int]);
                        assert(total == grecs + gather(
                            lv.subrange(i + 1, n as int),
                            self.current@,
                        ));
                    }
                }
            }
            i = i + 1;
        }
        proof {
            assert(lv.subrange(n as int, n as int) =~= Seq::<Seq<u8>>::empty());
        }
        if self.current.len() > 0 {
            let last = copy_bytes(self.current.as_slice());
            self.current = Vec::new();
            proof {
                assert(gather(lv.subrange(n as int, n as int), last@) == seq![last@]);
                assert(total =~= grecs.push(last@));
            }
            match process_simple_log_record(last, min_severity, mask, begin, end) {
                Err(e) => {
                    return Err(e);
                },
                Ok(None) => {
                    proof {
                        lemma_somes_push(ds, None, ds.len() as int);
                        grecs = grecs.push(last@);
                        ds = ds.push(None);
                        assert(out@ =~= somes_prefix(ds, ds.len() as int));
                    }
                },
                Ok(Some(l)) => {
                    let ghost lval = l;
                    out.push(l);
                    proof {
                        lemma_somes_push(ds, Some(lval), ds.len() as int);
                        grecs = grecs.push(last@);
                        ds = ds.push(Some(lval));
                        assert(out@ =~= somes_prefix(ds, ds.len() as int));
                    }
                },
            }
        } else {
            proof {
                assert(gather(
                    lv.subrange(n as int, n as int),
                    self.current@,
                ) =~= Seq::<Seq<u8>>::empty());
                assert(total =~= grecs);
            }
        }
        proof {
            assert(grecs =~= total);
            assert(stream_outcome(
                Format::Plain,
                lv,
                cur0,
                min_severity,
                *mask,
                *begin,
                *end,
                out@,
            ));
        }
        Ok(out)
    }
}

/// Gather lines into timestamp-started records and filter them, CSV
/// variant.
pub struct CsvLogParser {
    pub current: Vec<u8>,
}

impl CsvLogParser {
    pub fn new() -> (r: CsvLogParser)
        ensures
            r.current@.len() == 0,
    {
        CsvLogParser { current: Vec::new() }
    }

    /// Parse a line stream: on success the output is exactly the accepted
    /// lines of the gathered records, in order, and the buffer is drained.
    #[verifier::rlimit(100)]
    #[verifier::spinoff_prover]
    pub fn parse_lines(
        &mut self,
        lines: &Vec<Vec<u8>>,
        min_severity: i32,
        mask: &Option<Vec<u8>>,
        begin: &Option<LogInstant>,
        end: &Option<LogInstant>,
    ) -> (r: Result<Vec<LogLine>, Error>)
        ensures
            r matches Ok(out) ==> forall|k: int|
                0 <= k < out@.len() ==> line_passes(
                    #[trigger] out@[k],
                    min_severity,
                    *mask,
                    *begin,
                    *end,
                ),
            r matches Ok(out) ==> stream_outcome(
                Format::Csv,
                crate::logparser::lines_views(lines@),
                old(self).current@,
                min_severity,
                *mask,
                *begin,
                *end,
                out@,
            ) && final(self).current@.len() == 0,
    {
        let ghost lv = crate::logparser::lines_views(lines@);
        let ghost cur0 = self.current@;
        let ghost total = gather(lv, cur0);
        let mut out: Vec<LogLine> = Vec::new();
        let ghost mut grecs: Seq<Seq<u8>> = Seq::empty();
        let ghost mut ds: Seq<Option<LogLine>> = Seq::empty();
        let n = lines.len();
        let mut i: usize = 0;
        proof {
            assert(lv.subrange(0, n as int) =~= lv);
        }
        while i < n
            invariant
                n == lines@.len(),
                lv == crate::logparser::lines_views(lines@),
                total == gather(lv, cur0),
                i <= n,
                ds.len() == grecs.len(),
                total == grecs + gather(lv.subrange(i as int, n as int), self.current@),
                forall|k: int|
                    0 <= k < grecs.len() ==> stream_decision(
                        Format::Csv,
                        grecs[k],
                        min_severity,
                        *mask,
                        *begin,
                        *end,
                        #[trigger] ds[k],
                    ),
                out@ == somes_prefix(ds, ds.len() as int),
                forall|k: int|
                    0 <= k < out@.len() ==> line_passes(
                        #[trigger] out@[k],
                        min_severity,
                        *mask,
                        *begin,
                        *end,
                    ),
            decreases n - i,
        {
            let ghost rest = lv.subrange(i as int, n as int);
            proof {
                assert(rest[0] == lv[i as int]);
                assert(rest.drop_first() =~= lv.subrange(i + 1, n as int));
                assert(lv[i as int] == lines@[i as int]@);
            }
            let line = lines[i].as_slice();
            let ghost curg = self.current@;
            if !pg_ts_19_check(line) {
                crate::render::push_bytes(&mut self.current, line);
                self.current.push(10);
                proof {
                    assert(self.current@ =~= curg + lv[i as int] + seq![10u8]);
                    assert(gather(rest, curg) == gather(
                        rest.drop_first(),
                        curg + rest[0] + seq![10u8],
                    ));
                    assert(curg + rest[0] + seq![10u8] == self.current@);
                    assert(total == grecs + gather(
                        lv.subrange(i + 1, n as int),
                        self.current@,
                    ));
                }
            } else {
                let prev = copy_bytes(self.current.as_slice());
                let ghost prevv = prev@;
                self.current = copy_bytes(line);
                if prev.len() > 0 {
                    proof {
                        assert(prevv == curg);
                        assert(gather(rest, curg) == seq![curg] + gather(
                            rest.drop_first(),
                            rest[0],
                        ));
                        assert(self.current@ == lv[i as int]);
                        assert(total[grecs.len() as int] == curg);
                    }
                    match process_record(prev, min_severity, mask, begin, end) {
                        Err(e) => {
                            return Err(e);
                        },
                        Ok(None) => {
                            proof {
                                lemma_somes_push(ds, None, ds.len() as int);
                                grecs = grecs.push(total[grecs.len() as int]);
                                ds = ds.push(None);
                                assert(out@ =~= somes_prefix(ds, ds.len() as int));
                                assert(total =~= grecs + gather(
                                    lv.subrange(i + 1, n as int),
                                    self.current@,
                                ));
                            }
                        },
                        Ok(Some(l)) => {
                            let ghost lval = l;
                            out.push(l);
                            proof {
                                lemma_somes_push(ds, Some(lval), ds.len() as int);
                                grecs = grecs.push(total[grecs.len() as int]);
                                ds = ds.push(Some(lval));
                                assert(out@ =~= somes_prefix(ds, ds.len() as int));
                                assert(total =~= grecs + gather(
                                    lv.subrange(i + 1, n as int),
                                    self.current@,
                                ));
                            }
                        },
                    }
                } else {
                    proof {
                        assert(curg.len() == 0);
                        assert(gather(rest, curg) == gather(rest.drop_first(), rest[0]));
                        assert(self.current@ == lv[i as int]);
                        assert(total == grecs + gather(
                            lv.subrange(i + 1, n as int),
                            self.current@,
                        ));
                    }
                }
            }
            i = i + 1;
        }
        proof {
            assert(lv.subrange(n as int, n as int) =~= Seq::<Seq<u8>>::empty());
        }
        if self.current.len() > 0 {
            let last = copy_bytes(self.current.as_slice());
            self.current = Vec::new();
            proof {
                assert(gather(lv.subrange(n as int, n as int), last@) == seq![last@]);
                assert(total =~= grecs.push(last@));
            }
            match process_record(last, min_severity, mask, begin, end) {
                Err(e) => {
                    return Err(e);
                },
                Ok(None) => {
                    proof {
                        lemma_somes_push(ds, None, ds.len() as int);
                        grecs = grecs.push(last@);
                        ds = ds.push(None);
                        assert(out@ =~= somes_prefix(ds, ds.len() as int));
                    }
                },
                Ok(Some(l)) => {
                    let ghost lval = l;
                    out.push(l);
                    proof {
                        lemma_somes_push(ds, Some(lval), ds.len() as int);
                        grecs = grecs.push(last@);
                        ds = ds.push(Some(lval));
                        assert(out@ =~= somes_prefix(ds, ds.len() as int));
                    }
                },
            }
        } else {
            proof {
                assert(gather(
                    lv.subrange(n as int, n as int),
                    self.current@,
                ) =~= Seq::<Seq<u8>>::empty());
                assert(total =~= grecs);
            }
        }
        proof {
            assert(grecs =~= total);
            assert(stream_outcome(
                Format::Csv,
                lv,
                cur0,
                min_severity,
                *mask,
                *begin,
                *end,
                out@,
            ));
        }
        Ok(out)
    }
}

} // verus!
