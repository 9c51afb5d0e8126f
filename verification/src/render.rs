//! Rendering for the aggregators' printed state: timestamps back to civil
//! form, right-aligned count lines and histogram bars, all as bytes.

use vstd::prelude::*;

use crate::numbers::{dec_digits, dec_pad, push_dec, push_dec_pad};
use crate::timeparse::{days_in_month, days_in_year};

verus! {

/// Walk years from 1970: the year containing epoch day `day`, and the day's
/// index within it.
pub open spec fn year_of(day: int, y: int) -> (int, int)
    decreases day,
{
    if day < days_in_year(y) {
        (y, day)
    } else {
        year_of(day - days_in_year(y), y + 1)
    }
}

/// Walk months: the month containing day-of-year `rem` of year `y`, and the
/// day's index within it.
pub open spec fn month_of(y: int, rem: int, mo: int) -> (int, int)
    decreases 12 - mo,
{
    if mo >= 12 || rem < days_in_month(y, mo) {
        (mo, rem)
    } else {
        month_of(y, rem - days_in_month(y, mo), mo + 1)
    }
}

/// `n` spaces.
pub open spec fn spaces(n: int) -> Seq<u8>
    decreases n,
{
    if n <= 0 {
        Seq::empty()
    } else {
        spaces(n - 1).push(32u8)
    }
}

/// `n` copies of byte `b`.
pub open spec fn byte_run(b: u8, n: int) -> Seq<u8>
    decreases n,
{
    if n <= 0 {
        Seq::empty()
    } else {
        byte_run(b, n - 1).push(b)
    }
}

/// The civil rendering `YYYY-MM-DD HH:MM:SS` of an epoch second count.
pub open spec fn ts_render_naive(secs: int) -> Seq<u8> {
    let day = secs / 86400;
    let rem = secs % 86400;
    let yd = year_of(day, 1970);
    let md = month_of(yd.0, yd.1, 1);
    dec_pad(yd.0 as nat, 4) + seq![45u8] + dec_pad(md.0 as nat, 2) + seq![45u8] + dec_pad(
        (md.1 + 1) as nat,
        2,
    ) + seq![32u8] + dec_pad((rem / 3600) as nat, 2) + seq![58u8] + dec_pad(
        ((rem % 3600) / 60) as nat,
        2,
    ) + seq![58u8] + dec_pad((rem % 60) as nat, 2)
}

/// The civil rendering `YYYY-MM-DD HH:MM:SS +HH:MM` of an epoch second
/// count at a display offset.
pub open spec fn ts_render(secs: int, offset: int) -> Seq<u8> {
    let oabs = if offset >= 0 {
        offset
    } else {
        -offset
    };
    ts_render_naive(secs) + seq![32u8] + seq![
        if offset >= 0 {
            43u8
        } else {
            45u8
        },
    ] + dec_pad((oabs / 3600) as nat, 2) + seq![58u8] + dec_pad(((oabs % 3600) / 60) as nat, 2)
}

/// Render an instant's seconds as civil wall-clock text.
pub fn format_instant_naive(secs: i64) -> (v: Vec<u8>)
    requires
        0 <= secs <= 253402300799i64,
    ensures
        v@ == ts_render_naive(secs as int),
{
    let day64 = secs / 86400;
    let day: u32 = day64 as u32;
    let rem: u32 = (secs % 86400) as u32;
    let day_orig = day;
    let mut yy: u32 = 1970;
    let mut dd: u32 = day;
    while dd >= 366 || (dd == 365 && !(yy % 4 == 0 && (yy % 100 != 0 || yy % 400 == 0)))
        invariant
            day == day_orig,
            day <= 3000000,
            dd <= day,
            1970 <= yy,
            day - dd >= (yy - 1970) * 365,
            year_of(day as int, 1970) == year_of(dd as int, yy as int),
        decreases dd,
    {
        let leap = (yy % 4 == 0 && (yy % 100 != 0 || yy % 400 == 0));
        let diy: u32 = if leap {
            366
        } else {
            365
        };
        assert(diy == days_in_year(yy as int));
        dd = dd - diy;
        yy = yy + 1;
    }
    assert(year_of(dd as int, yy as int) == (yy as int, dd as int));
    let mut mm: u32 = 1;
    let mut rr: u32 = dd;
    while mm < 12 && rr >= crate::timeparse::days_in_month_exec(yy, mm)
        invariant
            1 <= mm <= 12,
            rr <= dd <= 3000000,
            month_of(yy as int, dd as int, 1) == month_of(yy as int, rr as int, mm as int),
        decreases 12 - mm,
    {
        let dim = crate::timeparse::days_in_month_exec(yy, mm);
        rr = rr - dim;
        mm = mm + 1;
    }
    assert(month_of(yy as int, rr as int, mm as int) == (mm as int, rr as int));
    let mut v: Vec<u8> = Vec::new();
    push_dec_pad(&mut v, yy as u64, 4);
    v.push(45);
    push_dec_pad(&mut v, mm as u64, 2);
    v.push(45);
    push_dec_pad(&mut v, rr as u64 + 1, 2);
    v.push(32);
    push_dec_pad(&mut v, (rem / 3600) as u64, 2);
    v.push(58);
    push_dec_pad(&mut v, ((rem % 3600) / 60) as u64, 2);
    v.push(58);
    push_dec_pad(&mut v, (rem % 60) as u64, 2);
    assert(v@ =~= ts_render_naive(secs as int));
    v
}

/// Render an instant's seconds at a display offset, as local wall-clock
/// text with the offset suffix.
pub fn format_instant(secs: i64, offset_secs: i32) -> (v: Vec<u8>)
    requires
        0 <= secs <= 253402300799i64,
    ensures
        v@ == ts_render(secs as int, offset_secs as int),
{
    let mut v = format_instant_naive(secs);
    v.push(32);
    let oabs: u32 = if offset_secs >= 0 {
        v.push(43);
        offset_secs as u32
    } else {
        v.push(45);
        (-(offset_secs as i64)) as u32
    };
    push_dec_pad(&mut v, (oabs / 3600) as u64, 2);
    v.push(58);
    push_dec_pad(&mut v, ((oabs % 3600) / 60) as u64, 2);
    assert(v@ =~= ts_render(secs as int, offset_secs as int));
    v
}

/// One printed count line: the total right-aligned to six columns, two
/// spaces, the key, a newline.
pub open spec fn count_line(count: u64, key: Seq<u8>) -> Seq<u8> {
    spaces(6 - dec_digits(count as nat).len()) + dec_digits(count as nat) + seq![32u8, 32u8] + key
        + seq![10u8]
}

/// The printed count lines of a run of entries, in order.
pub open spec fn count_lines_of(s: Seq<(Seq<u8>, u64)>) -> Seq<u8>
    decreases s.len(),
{
    if s.len() == 0 {
        Seq::empty()
    } else {
        count_lines_of(s.drop_last()) + count_line(s.last().1, s.last().0)
    }
}

/// Append a printed count line to `out`.
pub fn push_count_line(out: &mut Vec<u8>, count: u64, key: &[u8])
    ensures
        final(out)@ == old(out)@ + count_line(count, key@),
{
    let mut digits: Vec<u8> = Vec::new();
    push_dec(&mut digits, count);
    let mut pad: usize = 0;
    let dl = digits.len();
    if dl < 6 {
        pad = 6 - dl;
    }
    let ghost base = out@;
    let mut i: usize = 0;
    while i < pad
        invariant
            i <= pad,
            out@ == base + spaces(i as int),
        decreases pad - i,
    {
        out.push(32);
        assert(out@ =~= base + spaces(i + 1));
        i = i + 1;
    }
    proof {
        if dl >= 6 {
            assert(spaces(6 - dec_digits(count as nat).len()) =~= Seq::<u8>::empty());
        }
    }
    let mut j: usize = 0;
    let ghost base2 = out@;
    while j < dl
        invariant
            j <= dl,
            dl == digits@.len(),
            out@ == base2 + digits@.subrange(0, j as int),
        decreases dl - j,
    {
        out.push(digits[j]);
        assert(out@ =~= base2 + digits@.subrange(0, j + 1));
        j = j + 1;
    }
    assert(digits@.subrange(0, dl as int) =~= digits@);
    out.push(32);
    out.push(32);
    let ghost base3 = out@;
    let kn = key.len();
    let mut t: usize = 0;
    while t < kn
        invariant
            t <= kn,
            kn == key@.len(),
            out@ == base3 + key@.subrange(0, t as int),
        decreases kn - t,
    {
        out.push(key[t]);
        assert(out@ =~= base3 + key@.subrange(0, t + 1));
        t = t + 1;
    }
    assert(key@.subrange(0, kn as int) =~= key@);
    out.push(10);
    assert(out@ =~= old(out)@ + count_line(count, key@));
}

/// Append a byte string to `out`.
pub fn push_bytes(out: &mut Vec<u8>, s: &[u8])
    ensures
        final(out)@ == old(out)@ + s@,
{
    let ghost base = out@;
    let n = s.len();
    let mut i: usize = 0;
    while i < n
        invariant
            i <= n,
            n == s@.len(),
            out@ == base + s@.subrange(0, i as int),
        decreases n - i,
    {
        out.push(s[i]);
        assert(out@ =~= base + s@.subrange(0, i + 1));
        i = i + 1;
    }
    assert(s@.subrange(0, n as int) =~= s@);
}

/// Append a string literal's bytes to `out`.
pub fn push_lit(out: &mut Vec<u8>, s: &str)
    ensures
        final(out)@ == old(out)@ + crate::bytes_util::sb(s),
{
    push_bytes(out, s.as_bytes());
}

/// Append `n` copies of byte `b` to `out`.
pub fn push_run(out: &mut Vec<u8>, b: u8, n: usize)
    ensures
        final(out)@ == old(out)@ + byte_run(b, n as int),
{
    let ghost base = out@;
    let mut i: usize = 0;
    while i < n
        invariant
            i <= n,
            out@ == base + byte_run(b, i as int),
        decreases n - i,
    {
        out.push(b);
        assert(out@ =~= base + byte_run(b, i + 1));
        i = i + 1;
    }
}

} // verus!
