//! Durations as nanosecond counts: extracting `duration: 12.3 ms` fields
//! from record bytes, parsing human interval arguments such as `10ms` or
//! `2 m`, and rendering a duration back to its shortest spelling.

use vstd::prelude::*;
use vstd::string::*;
use vstd::slice::slice_subrange;

use crate::bytes_util::{
    find_idx, is_digit, lemma_find_idx, lemma_scan_while, sb, scan_alpha, scan_number,
    scan_spaces, scan_to_dot, scan_while, sp_alpha, sp_not_dot, sp_num, sp_space,
};
use crate::numbers::{
    all_digits, check_digits, dec_digits, dec_pad, digits_val, lemma_digits_val_bound, pow10,
    push_dec, push_dec_pad, read_digits, trim_zeros,
};
use crate::search::memmem_find;
use crate::timeparse::TimeParseError;

verus! {

/// The spelling of each accepted duration unit.
pub open spec fn u_ns() -> Seq<u8> {
    seq!['n' as u8, 's' as u8]
}

pub open spec fn u_us() -> Seq<u8> {
    seq!['u' as u8, 's' as u8]
}

pub open spec fn u_ms() -> Seq<u8> {
    seq!['m' as u8, 's' as u8]
}

pub open spec fn u_s() -> Seq<u8> {
    seq!['s' as u8]
}

pub open spec fn u_m() -> Seq<u8> {
    seq!['m' as u8]
}

pub open spec fn u_min() -> Seq<u8> {
    seq!['m' as u8, 'i' as u8, 'n' as u8]
}

pub open spec fn u_minutes() -> Seq<u8> {
    seq!['m' as u8, 'i' as u8, 'n' as u8, 'u' as u8, 't' as u8, 'e' as u8, 's' as u8]
}

/// Nanoseconds per unit, and whether a fraction of the unit is kept. A
/// fraction finer than a nanosecond or a microsecond spelling's microsecond
/// is dropped, as those fields carry no finer precision.
pub open spec fn unit_info(u: Seq<u8>) -> Option<(u64, bool)> {
    if u == u_ns() {
        Some((1u64, false))
    } else if u == u_us() {
        Some((1000u64, false))
    } else if u == u_ms() {
        Some((1000000u64, true))
    } else if u == u_s() {
        Some((1000000000u64, true))
    } else if u == u_m() || u == u_min() || u == u_minutes() {
        Some((60000000000u64, true))
    } else {
        None
    }
}

/// Split a decimal spelling into its integer value and fraction digits.
/// Fails when the spelling is empty, a bare dot, holds a second dot, or
/// holds a non-digit.
pub open spec fn parse_decimal(s: Seq<u8>) -> Option<(nat, Seq<u8>)> {
    let dot = scan_while(s, 0, sp_not_dot());
    if s.len() == 0 {
        None
    } else if dot == s.len() {
        if all_digits(s) {
            Some((digits_val(s), Seq::<u8>::empty()))
        } else {
            None
        }
    } else {
        let ip = s.subrange(0, dot);
        let fr = s.subrange(dot + 1, s.len() as int);
        if all_digits(ip) && all_digits(fr) && (ip.len() > 0 || fr.len() > 0) {
            Some((digits_val(ip), fr))
        } else {
            None
        }
    }
}

/// Nanoseconds denoted by value and unit, `None` when the unit is unknown,
/// the fraction is longer than nine digits, or the count exceeds `u64`.
pub open spec fn duration_from_parts_spec(num: Seq<u8>, unit: Seq<u8>) -> Option<u64> {
    match parse_decimal(num) {
        None => None,
        Some((ip, fr)) => if fr.len() > 9 {
            None
        } else {
            match unit_info(unit) {
                None => None,
                Some((mult, keep)) => {
                    let n = if keep {
                        ip * mult + (digits_val(fr) * mult) as int / pow10(fr.len() as nat) as int
                    } else {
                        ip * mult
                    };
                    if n > u64::MAX {
                        None
                    } else {
                        Some(n as u64)
                    }
                },
            }
        },
    }
}

/// The embedded duration of a record: after the first `duration:` needle,
/// spaces, then a decimal number, spaces, and a unit run of letters.
pub open spec fn extract_duration_spec(rec: Seq<u8>) -> Option<u64> {
    match find_idx(rec, sb("duration:"), 0) {
        None => None,
        Some(p) => {
            let ns_ = scan_while(rec, p + sb("duration:").len(), sp_space());
            let ne = scan_while(rec, ns_, sp_num());
            if ne == ns_ {
                None
            } else {
                let us_ = scan_while(rec, ne, sp_space());
                let ue = scan_while(rec, us_, sp_alpha());
                duration_from_parts_spec(rec.subrange(ns_, ne), rec.subrange(us_, ue))
            }
        },
    }
}

/// Recognize a duration unit spelling.
fn parse_unit(unit: &[u8]) -> (r: Option<(u64, bool)>)
    ensures
        r == unit_info(unit@),
{
    if unit.len() == 1 {
        assert(unit@ =~= seq![unit@[0]]);
        if unit[0] == 's' as u8 {
            assert(unit@ =~= u_s());
            Some((1000000000, true))
        } else if unit[0] == 'm' as u8 {
            assert(unit@ =~= u_m());
            Some((60000000000, true))
        } else {
            None
        }
    } else if unit.len() == 2 {
        assert(unit@ =~= seq![unit@[0], unit@[1]]);
        if unit[0] == 'n' as u8 && unit[1] == 's' as u8 {
            assert(unit@ =~= u_ns());
            Some((1, false))
        } else if unit[0] == 'u' as u8 && unit[1] == 's' as u8 {
            assert(unit@ =~= u_us());
            Some((1000, false))
        } else if unit[0] == 'm' as u8 && unit[1] == 's' as u8 {
            assert(unit@ =~= u_ms());
            Some((1000000, true))
        } else {
            None
        }
    } else if unit.len() == 3 {
        assert(unit@ =~= seq![unit@[0], unit@[1], unit@[2]]);
        if unit[0] == 'm' as u8 && unit[1] == 'i' as u8 && unit[2] == 'n' as u8 {
            assert(unit@ =~= u_min());
            Some((60000000000, true))
        } else {
            None
        }
    } else if unit.len() == 7 {
        assert(unit@ =~= seq![
            unit@[0],
            unit@[1],
            unit@[2],
            unit@[3],
            unit@[4],
            unit@[5],
            unit@[6],
        ]);
        if unit[0] == 'm' as u8 && unit[1] == 'i' as u8 && unit[2] == 'n' as u8 && unit[3] == 'u'
            as u8 && unit[4] == 't' as u8 && unit[5] == 'e' as u8 && unit[6] == 's' as u8 {
            assert(unit@ =~= u_minutes());
            Some((60000000000, true))
        } else {
            None
        }
    } else {
        None
    }
}

/// Combine the number slice `s[ns_..ne]` and unit slice `s[us_..ue]` of `s`
/// into nanoseconds.
fn duration_from_ranges(s: &[u8], ns_: usize, ne: usize, us_: usize, ue: usize) -> (r: Option<
    u64,
>)
    requires
        ns_ <= ne <= s@.len(),
        us_ <= ue <= s@.len(),
    ensures
        r == duration_from_parts_spec(
            s@.subrange(ns_ as int, ne as int),
            s@.subrange(us_ as int, ue as int),
        ),
{
    let ghost num = s@.subrange(ns_ as int, ne as int);
    if ne == ns_ {
        assert(num.len() == 0);
        return None;
    }
    let dot = scan_to_dot(s, ns_);
    let dot = if dot > ne {
        ne
    } else {
        dot
    };
    proof {
        lemma_scan_while(s@, ns_ as int, sp_not_dot());
        let l = dot - ns_;
        assert forall|k: int| 0 <= k < l implies (sp_not_dot())(num[k]) by {
            assert(num[k] == s@[ns_ + k]);
        }
        if l < num.len() {
            assert(num[l] == s@[ns_ + l]);
        }
        // the first dot within the number slice matches the spec's scan
        crate::bytes_util::lemma_scan_while_unique(num, 0, sp_not_dot(), l);
    }
    let ip_end = dot;
    let fr_start = if dot < ne {
        dot + 1
    } else {
        ne
    };
    let ghost ipd = num.subrange(0, ip_end - ns_);
    let ghost frd = if dot < ne {
        num.subrange(dot + 1 - ns_, num.len() as int)
    } else {
        Seq::<u8>::empty()
    };
    assert(ipd =~= s@.subrange(ns_ as int, ip_end as int));
    assert(frd =~= s@.subrange(fr_start as int, ne as int));
    if dot == ne {
        assert(ipd =~= num);
    }
    if !check_digits(s, ns_, ip_end) {
        return None;
    }
    if !check_digits(s, fr_start, ne) {
        return None;
    }
    if ip_end == ns_ && fr_start >= ne && dot < ne {
        // a bare dot
        return None;
    }
    if ne - fr_start > 9 {
        return None;
    }
    let unit = match parse_unit(slice_subrange(s, us_, ue)) {
        None => {
            return None;
        },
        Some(u) => u,
    };
    let (mult, keep) = unit;
    let ip = read_digits(s, ns_, ip_end);
    let fv = read_digits(s, fr_start, ne);
    proof {
        lemma_digits_val_bound(frd);
        crate::numbers::lemma_pow10_mono(frd.len() as nat, 9);
crate::numbers::lemma_pow10_9();
    }
    let k = ne - fr_start;
    let p10 = pow10_small(k);
    assert(fv * (mult as u128) <= (u64::MAX as u128 + 1) * 60000000000u128) by (nonlinear_arith)
        requires
            fv <= u64::MAX as u128 + 1,
            mult <= 60000000000u64,
    ;
    let frac_nanos: u128 = if keep {
        (fv * mult as u128) / p10 as u128
    } else {
        0
    };
    proof {
        if keep {
            vstd::arithmetic::div_mod::lemma_div_is_ordered_by_denominator(
                (digits_val(frd) * mult) as int,
                1,
                pow10(frd.len() as nat) as int,
            );
        }
    }
    assert(ip * (mult as u128) <= (u64::MAX as u128 + 1) * 60000000000u128) by (nonlinear_arith)
        requires
            ip <= u64::MAX as u128 + 1,
            mult <= 60000000000u64,
    ;
    let total: u128 = ip * mult as u128 + frac_nanos;
    proof {
        assert(ip * (mult as u128) >= ip) by (nonlinear_arith)
            requires
                (mult as u128) >= 1,
                ip >= 0,
        ;
        if digits_val(ipd) > u64::MAX as nat {
            assert(digits_val(ipd) * (mult as nat) >= digits_val(ipd)) by (nonlinear_arith)
                requires
                    (mult as nat) >= 1,
            ;
        }
    }
    if total > u64::MAX as u128 {
        return None;
    }
    Some(total as u64)
}

/// Extract the `duration: <number> <unit>` field embedded in a record, as
/// nanoseconds. Absent needle, absent number, unknown unit or an overflowing
/// count all yield `None`.
pub fn extract_duration(record: &[u8]) -> (r: Option<u64>)
    ensures
        r == extract_duration_spec(record@),
{
    let needle = "duration:".as_bytes();
    let p = match memmem_find(record, needle) {
        None => {
            proof {
                lemma_find_idx(record@, sb("duration:"), 0);
            }
            return None;
        },
        Some(p) => p,
    };
    proof {
        lemma_find_idx(record@, sb("duration:"), 0);
    }
    let rl = record.len();
    assert(p + needle@.len() <= rl);
    let ns_ = scan_spaces(record, p + needle.len());
    let ne = scan_number(record, ns_);
    if ne == ns_ {
        return None;
    }
    let us_ = scan_spaces(record, ne);
    let ue = scan_alpha(record, us_);
    duration_from_ranges(record, ns_, ne, us_, ue)
}

/// Split a duration argument into its number and unit, the two separated by
/// at most one space; fails when no number leads.
pub open spec fn split_arg(s: Seq<u8>) -> Option<(Seq<u8>, Seq<u8>)> {
    let ne = scan_while(s, 0, sp_num());
    if ne == 0 {
        None
    } else {
        let unit = if ne < s.len() && s[ne] == 32 {
            s.subrange(ne + 1, s.len() as int)
        } else {
            s.subrange(ne, s.len() as int)
        };
        Some((s.subrange(0, ne), unit))
    }
}

/// Nanoseconds denoted by a duration argument such as `10ms` or `2 m`. The
/// value is rounded to a whole count of the unit: a first fraction digit of
/// five or more rounds up.
pub open spec fn parse_duration_nanos(s: Seq<u8>) -> Option<u64> {
    match split_arg(s) {
        None => None,
        Some((num, unit)) => match unit_info(unit) {
            None => None,
            Some((mult, keep)) => match parse_decimal(num) {
                None => None,
                Some((ip, fr)) => {
                    let rounded = ip + if fr.len() > 0 && fr[0] >= 53 {
                        1nat
                    } else {
                        0nat
                    };
                    if rounded * mult > u64::MAX {
                        None
                    } else {
                        Some((rounded * mult) as u64)
                    }
                },
            },
        },
    }
}

/// The argument had the number-unit shape but its number was malformed.
pub open spec fn duration_number_bad(s: Seq<u8>) -> bool {
    match split_arg(s) {
        None => false,
        Some((num, unit)) => unit_info(unit) is Some && parse_decimal(num) is None,
    }
}

/// Parse a duration argument such as `10ms`, `2 m` or `15min` into
/// nanoseconds. A malformed number inside a recognized shape is a
/// `ParseError`; everything else rejected is an `InvalidFormat`.
pub fn parse_duration(input: &str) -> (r: Result<u64, TimeParseError>)
    ensures
        match r {
            Ok(n) => parse_duration_nanos(input.spec_bytes()) == Some(n),
            Err(e) => parse_duration_nanos(input.spec_bytes()) is None && ((e matches
            TimeParseError::ParseError(_)) <==> duration_number_bad(input.spec_bytes())),
        },
{
    match parse_duration_core(input.as_bytes()) {
        Ok(n) => Ok(n),
        Err(true) => Err(TimeParseError::ParseError(String::from_str("invalid duration value"))),
        Err(false) => Err(
            TimeParseError::InvalidFormat(String::from_str("not a valid time interval")),
        ),
    }
}

/// Parse a duration argument given as bytes.
pub fn parse_duration_arg(input: &[u8]) -> (r: Option<u64>)
    ensures
        r == parse_duration_nanos(input@),
{
    match parse_duration_core(input) {
        Ok(n) => Some(n),
        Err(_) => None,
    }
}

/// The duration-argument grammar over bytes; `Err(true)` flags a malformed
/// number inside a recognized shape.
fn parse_duration_core(s: &[u8]) -> (r: Result<u64, bool>)
    ensures
        match r {
            Ok(n) => parse_duration_nanos(s@) == Some(n),
            Err(bad) => parse_duration_nanos(s@) is None && (bad <==> duration_number_bad(s@)),
        },
{
    let n = s.len();
    let ne = scan_number(s, 0);
    if ne == 0 {
        return Err(false);
    }
    let us_ = if ne < n && s[ne] == 32 {
        ne + 1
    } else {
        ne
    };
    let (mult, _keep) = match parse_unit(slice_subrange(s, us_, n)) {
        None => {
            return Err(false);
        },
        Some(u) => u,
    };
    let ghost num = s@.subrange(0, ne as int);
    let dot = scan_to_dot(s, 0);
    let dot = if dot > ne {
        ne
    } else {
        dot
    };
    proof {
        lemma_scan_while(s@, 0, sp_not_dot());
        assert forall|k: int| 0 <= k < dot implies (sp_not_dot())(num[k]) by {
            assert(num[k] == s@[k]);
        }
        if dot < num.len() {
            assert(num[dot as int] == s@[dot as int]);
        }
        crate::bytes_util::lemma_scan_while_unique(num, 0, sp_not_dot(), dot as int);
    }
    let fr_start = if dot < ne {
        dot + 1
    } else {
        ne
    };
    let ghost ipd = num.subrange(0, dot as int);
    let ghost frd = if dot < ne as usize {
        num.subrange(dot + 1 as int, num.len() as int)
    } else {
        Seq::<u8>::empty()
    };
    assert(ipd =~= s@.subrange(0, dot as int));
    assert(frd =~= s@.subrange(fr_start as int, ne as int));
    if dot == ne {
        assert(ipd =~= num);
    }
    if !check_digits(s, 0, dot) || !check_digits(s, fr_start, ne) || (dot == 0 && fr_start >= ne
        && dot < ne) {
        return Err(true);
    }
    let ip = read_digits(s, 0, dot);
    let round_up: u128 = if fr_start < ne && s[fr_start] >= 53 {
        1
    } else {
        0
    };
    let rounded: u128 = ip + round_up;
    assert(rounded * (mult as u128) >= rounded && rounded * (mult as u128) <= (u64::MAX as u128
        + 2) * 60000000000u128) by (nonlinear_arith)
        requires
            1 <= (mult as u128) <= 60000000000u128,
            0 <= rounded <= u64::MAX as u128 + 2,
    ;
    let total: u128 = rounded * mult as u128;
    proof {
        let ghost sr = digits_val(ipd) + if frd.len() > 0 && frd[0] >= 53 {
            1nat
        } else {
            0nat
        };
        if digits_val(ipd) > u64::MAX as nat {
            assert(sr * (mult as nat) >= sr) by (nonlinear_arith)
                requires
                    (mult as nat) >= 1,
            ;
        }
    }
    if total > u64::MAX as u128 {
        return Err(false);
    }
    Ok(total as u64)
}

/// Combine a number spelling and a unit spelling into nanoseconds, as the
/// record extractor reads them.
pub fn parse_duration_bytes(value: &str, unit: &[u8]) -> (r: Option<u64>)
    ensures
        r == duration_from_parts_spec(value.spec_bytes(), unit@),
{
    let vb = value.as_bytes();
    let mut buf: Vec<u8> = Vec::new();
    crate::render::push_bytes(&mut buf, vb);
    buf.push(32);
    crate::render::push_bytes(&mut buf, unit);
    let vlen = vb.len();
    let total = buf.len();
    proof {
        assert(buf@.subrange(0, vlen as int) =~= value.spec_bytes());
        assert(buf@.subrange(vlen + 1, total as int) =~= unit@);
    }
    duration_from_ranges(buf.as_slice(), 0, vlen, vlen + 1, total)
}

/// The unit a duration is displayed in: nanoseconds per unit and the width
/// of the unit's fraction field, with the unit's spelling.
pub open spec fn display_unit(n: u64) -> (u64, int, Seq<u8>) {
    if n >= 1000000000 {
        (1000000000u64, 9int, u_s())
    } else if n >= 1000000 {
        (1000000u64, 6int, u_ms())
    } else if n >= 1000 {
        (1000u64, 3int, u_us())
    } else {
        (1u64, 0int, u_ns())
    }
}

/// The shortest spelling of a duration: whole units, a fraction with its
/// trailing zeros trimmed, and the unit's name.
pub open spec fn format_duration_spec(n: u64) -> Seq<u8> {
    let mwu = display_unit(n);
    let whole = n as nat / mwu.0 as nat;
    let frac = n as nat % mwu.0 as nat;
    dec_digits(whole) + (if frac == 0 {
        Seq::<u8>::empty()
    } else {
        seq!['.' as u8] + trim_zeros(dec_pad(frac, mwu.1 as nat))
    }) + mwu.2
}

/// Append the fraction field `.frac`, trailing zeros trimmed, to `out`.
fn push_fraction(out: &mut Vec<u8>, frac: u64, w: usize)
    requires
        frac > 0,
    ensures
        final(out)@ == old(out)@ + seq!['.' as u8] + trim_zeros(dec_pad(frac as nat, w as nat)),
{
    out.push('.' as u8);
    let mut pad: Vec<u8> = Vec::new();
    push_dec_pad(&mut pad, frac, w);
    while pad.len() > 0 && pad[pad.len() - 1] == 48
        invariant
            trim_zeros(pad@) == trim_zeros(dec_pad(frac as nat, w as nat)),
        decreases pad@.len(),
    {
        let ghost before = pad@;
        pad.pop();
        assert(pad@ =~= before.drop_last());
    }
    let mut i: usize = 0;
    let ghost base = out@;
    while i < pad.len()
        invariant
            i <= pad@.len(),
            trim_zeros(pad@) == pad@,
            pad@ == trim_zeros(dec_pad(frac as nat, w as nat)),
            out@ == base + pad@.subrange(0, i as int),
        decreases pad@.len() - i,
    {
        out.push(pad[i]);
        assert(out@ =~= base + pad@.subrange(0, i + 1 as int));
        i = i + 1;
    }
    assert(pad@.subrange(0, pad@.len() as int) =~= pad@);
    assert(out@ =~= old(out)@ + seq!['.' as u8] + trim_zeros(dec_pad(frac as nat, w as nat)));
}

/// Render a duration in its shortest spelling, such as `25.761ms`.
pub fn format_duration(n: u64) -> (v: Vec<u8>)
    ensures
        v@ == format_duration_spec(n),
{
    let mut v: Vec<u8> = Vec::new();
    let (mult, w): (u64, usize) = if n >= 1000000000 {
        (1000000000, 9)
    } else if n >= 1000000 {
        (1000000, 6)
    } else if n >= 1000 {
        (1000, 3)
    } else {
        (1, 0)
    };
    push_dec(&mut v, n / mult);
    if n % mult != 0 {
        push_fraction(&mut v, n % mult, w);
    }
    if n >= 1000000000 {
        v.push('s' as u8);
    } else if n >= 1000000 {
        v.push('m' as u8);
        v.push('s' as u8);
    } else if n >= 1000 {
        v.push('u' as u8);
        v.push('s' as u8);
    } else {
        v.push('n' as u8);
        v.push('s' as u8);
    }
    assert(v@ =~= format_duration_spec(n));
    v
}

/// Round trip of durations: a duration that is a whole count of its display
/// unit, formatted and parsed back through the duration-argument parser,
/// yields itself.
pub proof fn lemma_duration_round_trip(n: u64)
    requires
        n as nat % (display_unit(n).0 as nat) == 0,
    ensures
        parse_duration_nanos(format_duration_spec(n)) == Some(n),
{
    let mwu = display_unit(n);
    let mult = mwu.0;
    let uname = mwu.2;
    let whole = n as nat / mult as nat;
    let s = format_duration_spec(n);
    let dd = dec_digits(whole);
    crate::numbers::lemma_dec_digits_props(whole);
    assert(s =~= dd + uname);
    // the number scan stops exactly at the digits
    assert forall|k: int| 0 <= k < dd.len() implies (sp_num())(s[k]) by {
        assert(s[k] == dd[k]);
    }
    assert(s[dd.len() as int] == uname[0]);
    assert(!(sp_num())(s[dd.len() as int]));
    crate::bytes_util::lemma_scan_while_unique(s, 0, sp_num(), dd.len() as int);
    let num = s.subrange(0, dd.len() as int);
    let unit = s.subrange(dd.len() as int, s.len() as int);
    assert(num =~= dd);
    assert(unit =~= uname);
    assert(s[dd.len() as int] != 32);
    assert(split_arg(s) == Some((num, unit)));
    // the number is all digits, so the dot scan runs to its end
    assert forall|k: int| 0 <= k < num.len() implies (sp_not_dot())(num[k]) by {
        assert(is_digit(num[k]));
    }
    crate::bytes_util::lemma_scan_while_unique(num, 0, sp_not_dot(), num.len() as int);
    assert(parse_decimal(num) == Some((whole, Seq::<u8>::empty())));
    assert(unit_info(unit).unwrap().0 == mult);
    vstd::arithmetic::div_mod::lemma_fundamental_div_mod(n as int, mult as int);
    assert(whole * mult as nat == n);
}

/// `10^k` for small `k`.
fn pow10_small(k: usize) -> (r: u64)
    requires
        k <= 9,
    ensures
        r == pow10(k as nat),
        r >= 1,
{
    let mut r: u64 = 1;
    let mut i: usize = 0;
    proof {
crate::numbers::lemma_pow10_9();
    }
    while i < k
        invariant
            i <= k <= 9,
            r == pow10(i as nat),
        decreases k - i,
    {
        proof {
            crate::numbers::lemma_pow10_mono(i as nat + 1, 9);
crate::numbers::lemma_pow10_9();
        }
        r = r * 10;
        i = i + 1;
    }
    r
}

} // verus!
