//! Human time arguments: `10m`-style intervals relative to a reference
//! instant, the word `today`, and absolute timestamps, resolved to an
//! instant.

use vstd::prelude::*;
use vstd::string::*;

use crate::bytes_util::{
    lower_bytes, sb, scan_digits, scan_while, sp_digit, to_lower_vec,
};
use crate::numbers::{check_digits, digits_val, read_digits};
use crate::engine::instant_of_parsed;
use crate::timeparse::{
    now_instant, parse_timestamp_trimming, parse_ts_spec, trim_spaces, LogInstant, TimeParseError,
};

verus! {

/// Nanoseconds per interval unit; intervals also accept hours and days.
pub open spec fn interval_unit_ns(u: Seq<u8>) -> Option<u64> {
    if u == sb("ns") {
        Some(1u64)
    } else if u == sb("us") {
        Some(1000u64)
    } else if u == sb("ms") {
        Some(1000000u64)
    } else if u == sb("s") {
        Some(1000000000u64)
    } else if u == sb("m") || u == sb("min") || u == sb("minutes") {
        Some(60000000000u64)
    } else if u == sb("h") || u == sb("hours") {
        Some(3600000000000u64)
    } else if u == sb("d") || u == sb("day") || u == sb("days") {
        Some(86400000000000u64)
    } else {
        None
    }
}

/// An interval argument: an optional leading minus, digits, and a unit
/// spelled immediately after. Yields the sign and the nanosecond count.
pub open spec fn interval_of(s: Seq<u8>) -> Option<(bool, int)> {
    let neg = s.len() > 0 && s[0] == 45;
    let body = if neg {
        s.subrange(1, s.len() as int)
    } else {
        s
    };
    let ne = scan_while(body, 0, sp_digit());
    if ne == 0 || ne > 15 {
        None
    } else {
        match interval_unit_ns(body.subrange(ne, body.len() as int)) {
            None => None,
            Some(mult) => Some(
                (neg, digits_val(body.subrange(0, ne)) * mult),
            ),
        }
    }
}

/// The argument names the current day: it spells `today` in any ASCII
/// case.
pub open spec fn is_today(s: Seq<u8>) -> bool {
    lower_bytes(s) == sb("today")
}

/// Midnight of the reference instant's local day, at the reference's
/// offset.
pub open spec fn local_midnight(r: LogInstant) -> int {
    ((r.nanos + r.offset_secs * 1000000000) / 86400000000000) * 86400000000000
        - r.offset_secs * 1000000000
}

/// The bare-date shape `YYYY-MM-DD`.
pub open spec fn date_only_shape(s: Seq<u8>) -> bool {
    &&& s.len() == 10
    &&& crate::numbers::all_digits(s.subrange(0, 4))
    &&& s[4] == 45
    &&& crate::numbers::all_digits(s.subrange(5, 7))
    &&& s[7] == 45
    &&& crate::numbers::all_digits(s.subrange(8, 10))
}

/// The instant an interval lands on: back from the reference, or forward
/// when the interval led with a minus.
pub open spec fn interval_target(refr: LogInstant, p: (bool, int)) -> int {
    if p.0 {
        refr.nanos + p.1
    } else {
        refr.nanos - p.1
    }
}

/// Resolve a human time argument against a reference instant: the word
/// `today` gives the reference day's local midnight; an interval such as
/// `10m` or `2hours` counts back from the reference (forward when it
/// leads with a minus); anything else must parse as a timestamp, a bare
/// `YYYY-MM-DD` date standing for its local midnight. Without a reference
/// the clock's current instant is used.
pub fn time_or_interval_string_to_time(human_input: &str, reference_time: Option<LogInstant>) -> (
    r: Result<LogInstant, TimeParseError>)
    ensures
        reference_time is Some && is_today(human_input.spec_bytes()) && i128::MIN
            + 4000000000000000000 <= reference_time.unwrap().nanos <= i128::MAX
            - 4000000000000000000 && reference_time.unwrap().nanos
            + reference_time.unwrap().offset_secs * 1000000000 >= 0 ==> r is Ok
            && r.unwrap().nanos == local_midnight(reference_time.unwrap())
            && r.unwrap().offset_secs == reference_time.unwrap().offset_secs,
        reference_time is Some && !is_today(human_input.spec_bytes()) && interval_of(
            human_input.spec_bytes(),
        ) is Some && i128::MIN <= interval_target(
            reference_time.unwrap(),
            interval_of(human_input.spec_bytes()).unwrap(),
        ) <= i128::MAX ==> r is Ok && r.unwrap().nanos == interval_target(
            reference_time.unwrap(),
            interval_of(human_input.spec_bytes()).unwrap(),
        ) && r.unwrap().offset_secs == reference_time.unwrap().offset_secs,
        reference_time is Some && !is_today(human_input.spec_bytes()) && interval_of(
            human_input.spec_bytes(),
        ) is Some && !(i128::MIN <= interval_target(
            reference_time.unwrap(),
            interval_of(human_input.spec_bytes()).unwrap(),
        ) <= i128::MAX) ==> r is Err,
        !is_today(human_input.spec_bytes()) && interval_of(human_input.spec_bytes()) is None
            && date_only_shape(human_input.spec_bytes()) && parse_ts_spec(
            trim_spaces(human_input.spec_bytes() + sb(" 00:00:00")),
        ) is Some ==> r is Ok && instant_of_parsed(
            r.unwrap(),
            parse_ts_spec(trim_spaces(human_input.spec_bytes() + sb(" 00:00:00"))).unwrap(),
        ),
        !is_today(human_input.spec_bytes()) && interval_of(human_input.spec_bytes()) is None
            && !date_only_shape(human_input.spec_bytes()) ==> match parse_ts_spec(
            trim_spaces(human_input.spec_bytes()),
        ) {
            Some(parsed) => r is Ok && instant_of_parsed(r.unwrap(), parsed),
            None => r is Err,
        },
{
    let refr = match reference_time {
        Some(t) => t,
        None => now_instant(),
    };
    let s = human_input.as_bytes();
    let lower = to_lower_vec(s);
    if crate::bytes_util::eq_bytes(lower.as_slice(), "today".as_bytes()) {
        if refr.nanos > i128::MAX - 4000000000000000000 || refr.nanos < i128::MIN
            + 4000000000000000000 {
            return Err(
                TimeParseError::ParseError(String::from_str("reference out of range")),
            );
        }
        let wall = refr.nanos + refr.offset_secs as i128 * 1000000000;
        if wall < 0 {
            return Err(
                TimeParseError::ParseError(String::from_str("reference before the epoch")),
            );
        }
        let day = wall / 86400000000000;
        let nanos = day * 86400000000000 - refr.offset_secs as i128 * 1000000000;
        proof {
            assert(wall / 86400000000000 < wall + 1) by {
                vstd::arithmetic::div_mod::lemma_div_is_ordered_by_denominator(
                    wall as int,
                    1,
                    86400000000000,
                );
            }
            assert((wall / 86400000000000) * 86400000000000 <= wall) by {
                vstd::arithmetic::div_mod::lemma_fundamental_div_mod(
                    wall as int,
                    86400000000000,
                );
                vstd::arithmetic::div_mod::lemma_mod_division_less_than_divisor(
                    wall as int,
                    86400000000000,
                );
                assert(86400000000000 * (wall as int / 86400000000000) == (wall as int
                    / 86400000000000) * 86400000000000) by (nonlinear_arith);
            }
        }
        return Ok(LogInstant { nanos, offset_secs: refr.offset_secs });
    }
    // try the interval grammar
    match parse_interval(s) {
        Some((neg, k)) => {
            if neg {
                if refr.nanos > 0 && k > i128::MAX - refr.nanos {
                    return Err(
                        TimeParseError::ParseError(String::from_str("interval out of range")),
                    );
                }
                return Ok(LogInstant { nanos: refr.nanos + k, offset_secs: refr.offset_secs });
            } else {
                if refr.nanos < 0 && k > refr.nanos - i128::MIN {
                    return Err(
                        TimeParseError::ParseError(String::from_str("interval out of range")),
                    );
                }
                return Ok(LogInstant { nanos: refr.nanos - k, offset_secs: refr.offset_secs });
            }
        },
        None => {},
    }
    // a bare date stands for its local midnight
    let n = s.len();
    if n == 10 && check_digits(s, 0, 4) && s[4] == 45 && check_digits(s, 5, 7) && s[7] == 45
        && check_digits(s, 8, 10) {
        let mut buf = crate::bytes_util::copy_bytes(s);
        crate::render::push_bytes(&mut buf, " 00:00:00".as_bytes());
        match parse_timestamp_trimming(buf.as_slice()) {
            Some(t) => {
                return Ok(t);
            },
            None => {
                return Err(
                    TimeParseError::InvalidFormat(
                        String::from_str("unsupported time delta or timestamp"),
                    ),
                );
            },
        }
    }
    // a full timestamp
    match parse_timestamp_trimming(s) {
        Some(t) => Ok(t),
        None => Err(
            TimeParseError::InvalidFormat(String::from_str("unsupported time delta or timestamp")),
        ),
    }
}

/// Read an interval argument's sign and nanosecond count.
fn parse_interval(s: &[u8]) -> (r: Option<(bool, i128)>)
    ensures
        match r {
            Some((neg, k)) => interval_of(s@) == Some((neg, k as int)) && k >= 0,
            None => interval_of(s@) is None,
        },
{
    let n = s.len();
    let neg = n > 0 && s[0] == 45;
    let off: usize = if neg {
        1
    } else {
        0
    };
    let ghost body = if neg {
        s@.subrange(1, n as int)
    } else {
        s@
    };
    proof {
        if neg {
            assert(body =~= s@.subrange(1, n as int));
        } else {
            assert(body =~= s@);
        }
        crate::bytes_util::lemma_scan_while(s@, off as int, sp_digit());
    }
    let ne_abs = scan_digits(s, off);
    let ne = ne_abs - off;
    proof {
        crate::bytes_util::lemma_scan_while(s@, off as int, sp_digit());
        assert forall|t: int| 0 <= t < ne implies (sp_digit())(body[t]) by {
            assert(body[t] == s@[off + t]);
        }
        if ne < body.len() {
            assert(body[ne as int] == s@[ne_abs as int]);
        }
        crate::bytes_util::lemma_scan_while_unique(body, 0, sp_digit(), ne as int);
    }
    if ne == 0 {
        return None;
    }
    if ne > 15 {
        return None;
    }
    let ghost num = body.subrange(0, ne as int);
    proof {
        assert(num =~= s@.subrange(off as int, ne_abs as int));
        assert forall|t: int| 0 <= t < num.len() implies crate::bytes_util::is_digit(
            #[trigger] num[t],
        ) by {
            assert(num[t] == body[t]);
        }
        crate::numbers::lemma_digits_val_bound(num);
        crate::numbers::lemma_pow10_mono(num.len() as nat, 15);
        crate::numbers::lemma_pow10_9();
        assert(crate::numbers::pow10(15) == 1000000000000000) by {
            assert(crate::numbers::pow10(10) == 10 * crate::numbers::pow10(9));
            assert(crate::numbers::pow10(11) == 10 * crate::numbers::pow10(10));
            assert(crate::numbers::pow10(12) == 10 * crate::numbers::pow10(11));
            assert(crate::numbers::pow10(13) == 10 * crate::numbers::pow10(12));
            assert(crate::numbers::pow10(14) == 10 * crate::numbers::pow10(13));
            assert(crate::numbers::pow10(15) == 10 * crate::numbers::pow10(14));
        }
    }
    let v = read_digits(s, off, ne_abs) as u64;
    let unit = vstd::slice::slice_subrange(s, ne_abs, n);
    proof {
        assert(unit@ =~= body.subrange(ne as int, body.len() as int));
    }
    let mult: u64 = match interval_unit_lookup(unit) {
        None => {
            return None;
        },
        Some(m) => m,
    };
    proof {
        assert(v as int * mult as int <= 1000000000000000int * 86400000000000int && v as int
            * mult as int >= 0) by (nonlinear_arith)
            requires
                0 <= v as int <= 1000000000000000int,
                0 <= mult as int <= 86400000000000int,
        ;
    }
    let k: i128 = v as i128 * mult as i128;
    Some((neg, k))
}

/// Recognize an interval unit spelling.
fn interval_unit_lookup(u: &[u8]) -> (r: Option<u64>)
    ensures
        match r {
            Some(m) => interval_unit_ns(u@) == Some(m),
            None => interval_unit_ns(u@) is None,
        },
{
    if crate::bytes_util::eq_bytes(u, "ns".as_bytes()) {
        Some(1)
    } else if crate::bytes_util::eq_bytes(u, "us".as_bytes()) {
        Some(1000)
    } else if crate::bytes_util::eq_bytes(u, "ms".as_bytes()) {
        Some(1000000)
    } else if crate::bytes_util::eq_bytes(u, "s".as_bytes()) {
        Some(1000000000)
    } else if crate::bytes_util::eq_bytes(u, "m".as_bytes()) || crate::bytes_util::eq_bytes(
        u,
        "min".as_bytes(),
    ) || crate::bytes_util::eq_bytes(u, "minutes".as_bytes()) {
        Some(60000000000)
    } else if crate::bytes_util::eq_bytes(u, "h".as_bytes()) || crate::bytes_util::eq_bytes(
        u,
        "hours".as_bytes(),
    ) {
        Some(3600000000000)
    } else if crate::bytes_util::eq_bytes(u, "d".as_bytes()) || crate::bytes_util::eq_bytes(
        u,
        "day".as_bytes(),
    ) || crate::bytes_util::eq_bytes(u, "days".as_bytes()) {
        Some(86400000000000)
    } else {
        None
    }
}

} // verus!
