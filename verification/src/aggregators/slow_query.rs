//! The simple slow-query collector: every line whose message carries a
//! duration above the threshold, kept with that duration.

use vstd::prelude::*;

use crate::bytes_util::{find_idx, sb, scan_while, sp_alpha, sp_num, sp_space};
use crate::duration::parse_duration_nanos;
use crate::parsers::LogLine;
use crate::search::memmem_find;

verus! {

/// The duration spelled after the first `duration:` needle, read by the
/// rounding duration-argument parser: the number with at most one
/// following space and the unit run after it.
pub open spec fn slow_duration_spec(msg: Seq<u8>) -> Option<u64> {
    match find_idx(msg, sb("duration:"), 0) {
        None => None,
        Some(p) => {
            let ns_ = scan_while(msg, p + sb("duration:").len(), sp_space());
            let ne = scan_while(msg, ns_, sp_num());
            if ne == ns_ {
                None
            } else {
                let gap = if ne < msg.len() && msg[ne] == 32 {
                    ne + 1
                } else {
                    ne
                };
                let ue = scan_while(msg, gap, sp_alpha());
                parse_duration_nanos(msg.subrange(ns_, ue))
            }
        },
    }
}

/// Extract a `duration: <number> <unit>` fragment and read it with the
/// rounding duration-argument parser, so `121.997 ms` reads as 122
/// milliseconds.
pub fn extract_duration(message: &[u8]) -> (r: Option<u64>)
    ensures
        r == slow_duration_spec(message@),
{
    let needle = "duration:".as_bytes();
    let p = match memmem_find(message, needle) {
        None => {
            proof {
                crate::bytes_util::lemma_find_idx(message@, sb("duration:"), 0);
            }
            return None;
        },
        Some(p) => p,
    };
    proof {
        crate::bytes_util::lemma_find_idx(message@, sb("duration:"), 0);
    }
    let rl = message.len();
    assert(p + needle@.len() <= rl);
    let ns_ = crate::bytes_util::scan_spaces(message, p + needle.len());
    let ne = crate::bytes_util::scan_number(message, ns_);
    if ne == ns_ {
        return None;
    }
    let gap = if ne < rl && message[ne] == 32 {
        ne + 1
    } else {
        ne
    };
    let ue = crate::bytes_util::scan_alpha(message, gap);
    let frag = crate::bytes_util::copy_bytes(vstd::slice::slice_subrange(message, ns_, ue));
    crate::duration::parse_duration_arg(frag.as_slice())
}



/// The printed lines of the slow-query collector, slowest first.
pub open spec fn slow_lines_of(s: Seq<(Seq<u8>, u64)>) -> Seq<u8>
    decreases s.len(),
{
    if s.len() == 0 {
        Seq::empty()
    } else {
        slow_lines_of(s.drop_last()) + crate::duration::format_duration_spec(s.last().1)
            + crate::bytes_util::sb(" | ") + s.last().0 + seq![10u8]
    }
}

/// The slow-query collector: lines above the threshold, with durations.
pub struct SlowQueryAggregator {
    pub treshold: u64,
    pub slow_queries: Vec<(Vec<u8>, u64)>,
}

impl SlowQueryAggregator {
    pub fn new(treshold: u64) -> (r: SlowQueryAggregator)
        ensures
            r.treshold == treshold,
            r.slow_queries@.len() == 0,
    {
        SlowQueryAggregator { treshold, slow_queries: Vec::new() }
    }

    /// Keep the line when its message's duration exceeds the threshold.
    pub fn add(&mut self, log_line: &LogLine)
        ensures
            final(self).treshold == old(self).treshold,
            crate::countmap::view_of(final(self).slow_queries@) == match slow_duration_spec(
                log_line.message@,
            ) {
                Some(d) => if d > old(self).treshold {
                    crate::countmap::view_of(old(self).slow_queries@).push(
                        (log_line.message@, d),
                    )
                } else {
                    crate::countmap::view_of(old(self).slow_queries@)
                },
                None => crate::countmap::view_of(old(self).slow_queries@),
            },
    {
        let ghost pre = crate::countmap::view_of(self.slow_queries@);
        match extract_duration(log_line.message.as_slice()) {
            Some(d) => if d > self.treshold {
                let msg = crate::bytes_util::copy_bytes(log_line.message.as_slice());
                self.slow_queries.push((msg, d));
                proof {
                    assert(crate::countmap::view_of(self.slow_queries@) =~= pre.push(
                        (log_line.message@, d),
                    ));
                }
            },
            None => {},
        }
    }

    /// Render the kept lines slowest first (ties by ascending message):
    /// each line is its duration, a separator, and the message.
    pub fn render(&self) -> (out: Vec<u8>)
        ensures
            exists|sorted: Seq<(Seq<u8>, u64)>|
                #![trigger crate::countmap::is_print_sorted(crate::countmap::view_of(self.slow_queries@), sorted)]
                crate::countmap::is_print_sorted(
                    crate::countmap::view_of(self.slow_queries@),
                    sorted,
                ) && out@ == slow_lines_of(sorted),
    {
        let sorted = crate::countmap::sort_entries_desc(&self.slow_queries);
        let ghost sv = crate::countmap::view_of(sorted@);
        let mut out: Vec<u8> = Vec::new();
        proof {
            assert(sv.subrange(0, 0) =~= Seq::<(Seq<u8>, u64)>::empty());
            assert(out@ =~= slow_lines_of(sv.subrange(0, 0)));
        }
        let n = sorted.len();
        let mut i: usize = 0;
        while i < n
            invariant
                n == sorted@.len(),
                i <= n,
                sv == crate::countmap::view_of(sorted@),
                out@ == slow_lines_of(sv.subrange(0, i as int)),
            decreases n - i,
        {
            let dur = crate::duration::format_duration(sorted[i].1);
            crate::render::push_bytes(&mut out, dur.as_slice());
            crate::render::push_lit(&mut out, " | ");
            crate::render::push_bytes(&mut out, sorted[i].0.as_slice());
            out.push(10);
            proof {
                assert(sv.subrange(0, i + 1).drop_last() =~= sv.subrange(0, i as int));
                assert(sv.subrange(0, i + 1).last() == sv[i as int]);
                assert(sv[i as int] == (sorted@[i as int].0@, sorted@[i as int].1));
                assert(out@ =~= slow_lines_of(sv.subrange(0, i + 1)));
            }
            i = i + 1;
        }
        proof {
            assert(sv.subrange(0, n as int) =~= sv);
            assert(crate::countmap::is_print_sorted(
                crate::countmap::view_of(self.slow_queries@),
                sv,
            ));
        }
        out
    }
}

} // verus!
