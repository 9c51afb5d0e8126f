//! Timestamps as instants: parsing the `YYYY-MM-DD HH:MM:SS[.fff] [TZ]`
//! prefix of a record into nanoseconds since the epoch, with the fixed
//! offsets of the timezone abbreviations PostgreSQL logs carry.

use vstd::prelude::*;
use vstd::string::*;

use crate::bytes_util::{eq_bytes, sb, scan_digits, scan_while, sp_space};
use crate::numbers::{
    all_digits, check_digits, digits_val, lemma_digits_val_bound, pow10, read_digits,
};

verus! {

/// Why a time string was rejected.
#[derive(Debug)]
pub enum TimeParseError {
    InvalidFormat(String),
    ParseError(String),
}

/// An absolute point in time: nanoseconds since the Unix epoch, paired with
/// the UTC offset (in seconds) the source text carried, kept for display.
#[derive(Clone, Copy, Debug, PartialEq, Eq, Structural)]
pub struct LogInstant {
    pub nanos: i128,
    pub offset_secs: i32,
}

/// A Gregorian leap year.
pub open spec fn is_leap(y: int) -> bool {
    y % 4 == 0 && (y % 100 != 0 || y % 400 == 0)
}

pub open spec fn days_in_year(y: int) -> int {
    if is_leap(y) {
        366
    } else {
        365
    }
}

pub open spec fn days_in_month(y: int, mo: int) -> int {
    if mo == 1 || mo == 3 || mo == 5 || mo == 7 || mo == 8 || mo == 10 || mo == 12 {
        31
    } else if mo == 4 || mo == 6 || mo == 9 || mo == 11 {
        30
    } else if is_leap(y) {
        29
    } else {
        28
    }
}

/// Days from 1970-01-01 to the start of year `y`.
pub open spec fn days_before_year(y: int) -> int
    decreases y - 1970,
{
    if y <= 1970 {
        0
    } else {
        days_before_year(y - 1) + days_in_year(y - 1)
    }
}

/// Days from the start of year `y` to the start of month `mo`.
pub open spec fn days_before_month(y: int, mo: int) -> int
    decreases mo,
{
    if mo <= 1 {
        0
    } else {
        days_before_month(y, mo - 1) + days_in_month(y, mo - 1)
    }
}

/// Days from the epoch to the civil date `y-mo-d`.
pub open spec fn epoch_day(y: int, mo: int, d: int) -> int {
    days_before_year(y) + days_before_month(y, mo) + (d - 1)
}

/// Seconds from the epoch to `y-mo-d h:mi:s` read as UTC.
pub open spec fn naive_secs(y: int, mo: int, d: int, h: int, mi: int, s: int) -> int {
    epoch_day(y, mo, d) * 86400 + h * 3600 + mi * 60 + s
}

/// The civil fields are a valid timestamp this library accepts: a Gregorian
/// date from 1970 through 9999 and a wall-clock time.
pub open spec fn fields_valid(y: int, mo: int, d: int, h: int, mi: int, s: int) -> bool {
    &&& 1970 <= y <= 9999
    &&& 1 <= mo <= 12
    &&& 1 <= d <= days_in_month(y, mo)
    &&& 0 <= h < 24
    &&& 0 <= mi < 60
    &&& 0 <= s < 60
}

pub proof fn lemma_days_before_year_bounds(y: int)
    requires
        1970 <= y <= 10000,
    ensures
        0 <= days_before_year(y) <= (y - 1970) * 366,
    decreases y - 1970,
{
    if y > 1970 {
        lemma_days_before_year_bounds(y - 1);
    }
}

pub proof fn lemma_days_before_month_bounds(y: int, mo: int)
    requires
        1 <= mo <= 13,
    ensures
        0 <= days_before_month(y, mo) <= (mo - 1) * 31,
    decreases mo,
{
    if mo > 1 {
        lemma_days_before_month_bounds(y, mo - 1);
    }
}

/// The instant, in nanoseconds since the epoch, of civil fields read at a
/// fixed UTC offset, with a fractional-second part in nanoseconds.
pub open spec fn instant_nanos(
    y: int,
    mo: int,
    d: int,
    h: int,
    mi: int,
    s: int,
    frac_ns: int,
    offset: int,
) -> int {
    (naive_secs(y, mo, d, h, mi, s) - offset) * 1000000000 + frac_ns
}

/// Days from the epoch, computed by summing years then months.
pub fn epoch_day_exec(y: u32, mo: u32, d: u32) -> (r: u32)
    requires
        fields_valid(y as int, mo as int, d as int, 0, 0, 0),
    ensures
        r == epoch_day(y as int, mo as int, d as int),
        r <= 3000000,
{
    proof {
        lemma_days_before_year_bounds(y as int);
        lemma_days_before_month_bounds(y as int, mo as int);
    }
    let mut days: u32 = 0;
    let mut yy: u32 = 1970;
    while yy < y
        invariant
            1970 <= yy <= y <= 9999,
            days == days_before_year(yy as int),
            days <= (yy - 1970) * 366,
        decreases y - yy,
    {
        proof {
            lemma_days_before_year_bounds(yy as int + 1);
        }
        let leap = (yy % 4 == 0 && (yy % 100 != 0 || yy % 400 == 0));
        days = days + if leap {
            366
        } else {
            365
        };
        yy = yy + 1;
    }
    let mut mm: u32 = 1;
    let ghost base = days as int;
    while mm < mo
        invariant
            1 <= mm <= mo <= 12,
            1970 <= y <= 9999,
            days == base + days_before_month(y as int, mm as int),
            base == days_before_year(y as int),
            base <= 8030 * 366,
            days_before_month(y as int, mm as int) <= (mm - 1) * 31,
        decreases mo - mm,
    {
        proof {
            lemma_days_before_month_bounds(y as int, mm as int + 1);
        }
        let leap = (y % 4 == 0 && (y % 100 != 0 || y % 400 == 0));
        let dim: u32 = if mm == 1 || mm == 3 || mm == 5 || mm == 7 || mm == 8 || mm == 10 || mm
            == 12 {
            31
        } else if mm == 4 || mm == 6 || mm == 9 || mm == 11 {
            30
        } else if leap {
            29
        } else {
            28
        };
        days = days + dim;
        mm = mm + 1;
    }
    days + (d - 1)
}

/// Days in the month, for validation.
pub fn days_in_month_exec(y: u32, mo: u32) -> (r: u32)
    requires
        1 <= mo <= 12,
    ensures
        r == days_in_month(y as int, mo as int),
{
    let leap = (y % 4 == 0 && (y % 100 != 0 || y % 400 == 0));
    if mo == 1 || mo == 3 || mo == 5 || mo == 7 || mo == 8 || mo == 10 || mo == 12 {
        31
    } else if mo == 4 || mo == 6 || mo == 9 || mo == 11 {
        30
    } else if leap {
        29
    } else {
        28
    }
}

/// The fixed UTC offset, in seconds, of a recognized timezone abbreviation.
pub open spec fn tz_offset_of(name: Seq<u8>) -> Option<int> {
    if name == sb("UTC") {
        Some(0int)
    } else if name == sb("EET") {
        Some(7200int)
    } else if name == sb("EEST") {
        Some(10800int)
    } else if name == sb("CET") {
        Some(3600int)
    } else if name == sb("CEST") {
        Some(7200int)
    } else if name == sb("PST") {
        Some(-28800int)
    } else if name == sb("PDT") {
        Some(-25200int)
    } else if name == sb("EST") {
        Some(-18000int)
    } else if name == sb("EDT") {
        Some(-14400int)
    } else if name == sb("CST") {
        Some(-21600int)
    } else if name == sb("CDT") {
        Some(-18000int)
    } else if name == sb("MST") {
        Some(-25200int)
    } else if name == sb("MDT") {
        Some(-21600int)
    } else {
        None
    }
}

/// Look a timezone abbreviation up in the fixed offset map.
pub fn tz_offset_lookup(name: &[u8]) -> (r: Option<i32>)
    ensures
        match r {
            Some(o) => tz_offset_of(name@) == Some(o as int),
            None => tz_offset_of(name@) is None,
        },
{
    if eq_bytes(name, "UTC".as_bytes()) {
        Some(0)
    } else if eq_bytes(name, "EET".as_bytes()) {
        Some(7200)
    } else if eq_bytes(name, "EEST".as_bytes()) {
        Some(10800)
    } else if eq_bytes(name, "CET".as_bytes()) {
        Some(3600)
    } else if eq_bytes(name, "CEST".as_bytes()) {
        Some(7200)
    } else if eq_bytes(name, "PST".as_bytes()) {
        Some(-28800)
    } else if eq_bytes(name, "PDT".as_bytes()) {
        Some(-25200)
    } else if eq_bytes(name, "EST".as_bytes()) {
        Some(-18000)
    } else if eq_bytes(name, "EDT".as_bytes()) {
        Some(-14400)
    } else if eq_bytes(name, "CST".as_bytes()) {
        Some(-21600)
    } else if eq_bytes(name, "CDT".as_bytes()) {
        Some(-18000)
    } else if eq_bytes(name, "MST".as_bytes()) {
        Some(-25200)
    } else if eq_bytes(name, "MDT".as_bytes()) {
        Some(-21600)
    } else {
        None
    }
}

/// The separators of `YYYY-MM-DD HH:MM` stand where they must and every
/// value position holds a digit.
pub open spec fn ts_shape_ok(s: Seq<u8>) -> bool {
    &&& s.len() >= 16
    &&& all_digits(s.subrange(0, 4))
    &&& s[4] == 45
    &&& all_digits(s.subrange(5, 7))
    &&& s[7] == 45
    &&& all_digits(s.subrange(8, 10))
    &&& s[10] == 32
    &&& all_digits(s.subrange(11, 13))
    &&& s[13] == 58
    &&& all_digits(s.subrange(14, 16))
}

/// End of the seconds part: 19 when `:SS` follows the minutes, else 16.
pub open spec fn ts_sec_end(s: Seq<u8>) -> int {
    if s.len() >= 19 && s[16] == 58 && all_digits(s.subrange(17, 19)) {
        19
    } else {
        16
    }
}

/// End of the fractional part: past `.digits` when a dot follows the
/// seconds, else the seconds' end.
pub open spec fn ts_frac_end(s: Seq<u8>) -> int {
    let se = ts_sec_end(s);
    if se < s.len() && s[se] == 46 {
        scan_while(s, se + 1, crate::bytes_util::sp_digit())
    } else {
        se
    }
}

/// Parse a trimmed timestamp `YYYY-MM-DD HH:MM[:SS][.fff][ TZ]`: the civil
/// fields, the fraction in nanoseconds, and the fixed offset of a
/// recognized timezone abbreviation (`None` means the local zone applies,
/// whether the zone was absent or unrecognized).
pub open spec fn parse_ts_spec(s: Seq<u8>) -> Option<
    (int, int, int, int, int, int, int, Option<int>),
> {
    if !ts_shape_ok(s) {
        None
    } else {
        let y = digits_val(s.subrange(0, 4)) as int;
        let mo = digits_val(s.subrange(5, 7)) as int;
        let d = digits_val(s.subrange(8, 10)) as int;
        let h = digits_val(s.subrange(11, 13)) as int;
        let mi = digits_val(s.subrange(14, 16)) as int;
        let se = ts_sec_end(s);
        let sec = if se == 19 {
            digits_val(s.subrange(17, 19)) as int
        } else {
            0int
        };
        let fe = ts_frac_end(s);
        let k = if se < s.len() && s[se] == 46 {
            fe - (se + 1)
        } else {
            0int
        };
        let frac_ns = if k > 0 {
            digits_val(s.subrange(se + 1, fe)) * pow10((9 - k) as nat)
        } else {
            0nat
        };
        if !fields_valid(y, mo, d, h, mi, sec) {
            None
        } else if se < s.len() && s[se] == 46 && !(1 <= k <= 9) {
            None
        } else if fe == s.len() {
            Some((y, mo, d, h, mi, sec, frac_ns as int, None))
        } else if s[fe] == 32 && fe + 1 < s.len() {
            Some((y, mo, d, h, mi, sec, frac_ns as int, tz_offset_of(s.subrange(fe + 1, s.len() as int))))
        } else {
            None
        }
    }
}

/// The result is the spec's instant: a recognized zone's fixed offset is
/// taken as given; otherwise the offset is the local zone's, bounded below
/// one day.
pub open spec fn instant_matches(
    r: LogInstant,
    y: int,
    mo: int,
    d: int,
    h: int,
    mi: int,
    sec: int,
    frac_ns: int,
    tzo: Option<int>,
) -> bool {
    &&& match tzo {
        Some(o) => r.offset_secs == o,
        None => -86400 < r.offset_secs < 86400,
    }
    &&& r.nanos == instant_nanos(y, mo, d, h, mi, sec, frac_ns, r.offset_secs as int)
}

/// Parse a trimmed timestamp byte string into an instant.
pub fn parse_timestamp_bytes(s: &[u8]) -> (r: Option<LogInstant>)
    ensures
        match r {
            Some(inst) => parse_ts_spec(s@) is Some && {
                let (y, mo, d, h, mi, sec, frac_ns, tzo) = parse_ts_spec(s@).unwrap();
                instant_matches(inst, y, mo, d, h, mi, sec, frac_ns, tzo)
            },
            None => parse_ts_spec(s@) is None,
        },
{
    let n = s.len();
    if n < 16 {
        return None;
    }
    if !(check_digits(s, 0, 4) && s[4] == 45 && check_digits(s, 5, 7) && s[7] == 45
        && check_digits(s, 8, 10) && s[10] == 32 && check_digits(s, 11, 13) && s[13] == 58
        && check_digits(s, 14, 16)) {
        return None;
    }
    proof {
        crate::numbers::lemma_pow10_9();
        lemma_digits_val_bound(s@.subrange(0, 4));
        lemma_digits_val_bound(s@.subrange(5, 7));
        lemma_digits_val_bound(s@.subrange(8, 10));
        lemma_digits_val_bound(s@.subrange(11, 13));
        lemma_digits_val_bound(s@.subrange(14, 16));
    }
    let y = read_digits(s, 0, 4) as u32;
    let mo = read_digits(s, 5, 7) as u32;
    let d = read_digits(s, 8, 10) as u32;
    let h = read_digits(s, 11, 13) as u32;
    let mi = read_digits(s, 14, 16) as u32;
    let (se, sec): (usize, u32) = if n >= 19 && s[16] == 58 && check_digits(s, 17, 19) {
        proof {
            lemma_digits_val_bound(s@.subrange(17, 19));
        }
        (19, read_digits(s, 17, 19) as u32)
    } else {
        (16, 0)
    };
    let has_dot = se < n && s[se] == 46;
    let (fe, frac_ns): (usize, u64) = if has_dot {
        let fe = scan_digits(s, se + 1);
        let k = fe - (se + 1);
        if k < 1 || k > 9 {
            return None;
        }
        proof {
            crate::bytes_util::lemma_scan_while(s@, se + 1, crate::bytes_util::sp_digit());
            assert forall|t: int| 0 <= t < fe - (se + 1) implies crate::bytes_util::is_digit(
                #[trigger] s@.subrange(se + 1, fe as int)[t],
            ) by {
                assert(s@.subrange(se + 1, fe as int)[t] == s@[se + 1 + t]);
            }
            lemma_digits_val_bound(s@.subrange(se + 1, fe as int));
            crate::numbers::lemma_pow10_add(k as nat, (9 - k) as nat);
        }
        let fv = read_digits(s, se + 1, fe) as u64;
        let p = pow10_small_ts(9 - k);
        assert(fv * p < 1000000000) by (nonlinear_arith)
            requires
                fv < pow10(k as nat),
                p == pow10((9 - k) as nat),
                pow10(k as nat) * pow10((9 - k) as nat) == 1000000000,
                pow10(k as nat) >= 1,
                p >= 1,
        ;
        (fe, fv * p)
    } else {
        (se, 0)
    };
    // validate the civil fields
    if !(1970 <= y && y <= 9999) {
        return None;
    }
    if !(1 <= mo && mo <= 12) {
        return None;
    }
    if !(1 <= d && d <= days_in_month_exec(y, mo)) {
        return None;
    }
    if !(h < 24 && mi < 60 && sec < 60) {
        return None;
    }
    // timezone
    let tzo: Option<i32> = if fe == n {
        None
    } else {
        if s[fe] != 32 || fe + 1 >= n {
            return None;
        }
        tz_offset_lookup(vstd::slice::slice_subrange(s, fe + 1, n))
    };
    let days = epoch_day_exec(y, mo, d);
    let naive: i64 = days as i64 * 86400 + h as i64 * 3600 + mi as i64 * 60 + sec as i64;
    let off: i32 = match tzo {
        Some(o) => o,
        None => local_offset_secs(naive),
    };
    let nanos: i128 = (naive as i128 - off as i128) * 1000000000 + frac_ns as i128;
    Some(LogInstant { nanos, offset_secs: off })
}

/// `10^k` for small `k`.
fn pow10_small_ts(k: usize) -> (r: u64)
    requires
        k <= 9,
    ensures
        r == pow10(k as nat),
        r >= 1,
{
    let mut r: u64 = 1;
    let mut i: usize = 0;
    while i < k
        invariant
            i <= k <= 9,
            r == pow10(i as nat),
        decreases k - i,
    {
        proof {
            crate::numbers::lemma_pow10_mono(i as nat + 1, 9);
            crate::numbers::lemma_pow10_9();
        }
        r = r * 10;
        i = i + 1;
    }
    proof {
        crate::numbers::lemma_pow10_pos(k as nat);
    }
    r
}

/// End index of `s` with trailing spaces removed.
pub open spec fn back_trim(s: Seq<u8>) -> int
    decreases s.len(),
{
    if s.len() > 0 && s.last() == 32 {
        back_trim(s.drop_last())
    } else {
        s.len() as int
    }
}

/// `s` with leading and trailing spaces removed.
pub open spec fn trim_spaces(s: Seq<u8>) -> Seq<u8> {
    let a = scan_while(s, 0, sp_space());
    let b = back_trim(s);
    if a >= b {
        Seq::empty()
    } else {
        s.subrange(a, b)
    }
}

/// Parse a record timestamp string, spaces trimmed, such as
/// `2025-05-02 18:25:51.151 EEST`. A recognized timezone abbreviation gives
/// its fixed offset; an absent or unrecognized one is read in the local
/// zone.
pub fn parse_timestamp_from_string(input: &str) -> (r: Result<LogInstant, String>)
    ensures
        match r {
            Ok(inst) => parse_ts_spec(trim_spaces(input.spec_bytes())) is Some && {
                let (y, mo, d, h, mi, sec, frac_ns, tzo) = parse_ts_spec(
                    trim_spaces(input.spec_bytes()),
                ).unwrap();
                instant_matches(inst, y, mo, d, h, mi, sec, frac_ns, tzo)
            },
            Err(_) => parse_ts_spec(trim_spaces(input.spec_bytes())) is None,
        },
{
    let s = input.as_bytes();
    match parse_timestamp_trimming(s) {
        Some(inst) => Ok(inst),
        None => Err(String::from_str("unable to parse timestamp")),
    }
}

/// Trim spaces off `s` and parse the rest as a timestamp.
pub fn parse_timestamp_trimming(s: &[u8]) -> (r: Option<LogInstant>)
    ensures
        match r {
            Some(inst) => parse_ts_spec(trim_spaces(s@)) is Some && {
                let (y, mo, d, h, mi, sec, frac_ns, tzo) = parse_ts_spec(trim_spaces(s@)).unwrap();
                instant_matches(inst, y, mo, d, h, mi, sec, frac_ns, tzo)
            },
            None => parse_ts_spec(trim_spaces(s@)) is None,
        },
{
    let n = s.len();
    let a = crate::bytes_util::scan_spaces(s, 0);
    proof {
        assert(s@.subrange(0, n as int) =~= s@);
    }
    let mut j: usize = n;
    while j > 0 && s[j - 1] == 32
        invariant
            j <= n,
            n == s@.len(),
            back_trim(s@) == back_trim(s@.subrange(0, j as int)),
        decreases j,
    {
        proof {
            assert(s@.subrange(0, j as int).drop_last() =~= s@.subrange(0, j - 1));
            assert(s@.subrange(0, j as int).last() == s@[j - 1]);
        }
        j = j - 1;
    }
    proof {
        if j > 0 {
            assert(s@.subrange(0, j as int).last() == s@[j - 1]);
        }
        assert(back_trim(s@.subrange(0, j as int)) == j);
    }
    if a >= j {
        assert(parse_ts_spec(trim_spaces(s@)) is None) by {
            assert(trim_spaces(s@) =~= Seq::<u8>::empty());
        }
        return None;
    }
    let t = vstd::slice::slice_subrange(s, a, j);
    assert(t@ == trim_spaces(s@));
    parse_timestamp_bytes(t)
}

/// `t` floored to a whole multiple of `i`.
pub open spec fn floor_nanos(t: int, i: int) -> int {
    t - t % i
}

/// Floor an instant's nanosecond count to a bucket boundary.
pub fn round_floor(t: i128, interval: i128) -> (r: i128)
    requires
        interval > 0,
        t >= 0,
    ensures
        r == floor_nanos(t as int, interval as int),
        0 <= r <= t,
        r % interval == 0,
{
    proof {
        vstd::arithmetic::div_mod::lemma_fundamental_div_mod(t as int, interval as int);
        vstd::arithmetic::div_mod::lemma_mod_division_less_than_divisor(t as int, interval as int);
        vstd::arithmetic::div_mod::lemma_mod_multiples_basic(
            t as int / interval as int,
            interval as int,
        );
        assert(t as int - t as int % interval as int == interval as int * (t as int
            / interval as int));
        assert(interval as int * (t as int / interval as int) == (t as int / interval as int)
            * interval as int) by (nonlinear_arith);
    }
    t - t % interval
}

/// Bucket flooring is idempotent: flooring a floored instant changes
/// nothing, for every instant and every positive interval.
pub proof fn lemma_floor_idempotent(t: int, i: int)
    requires
        i > 0,
    ensures
        floor_nanos(floor_nanos(t, i), i) == floor_nanos(t, i),
{
    vstd::arithmetic::div_mod::lemma_fundamental_div_mod(t, i);
    assert(floor_nanos(t, i) == i * (t / i));
    vstd::arithmetic::div_mod::lemma_mod_multiples_basic(t / i, i);
    assert(i * (t / i) == (t / i) * i) by (nonlinear_arith);
    assert(floor_nanos(t, i) % i == 0);
}

/// Relies on chrono::offset::Local and TimeZone::from_local_datetime: the
/// local zone's UTC offset, in seconds, for the given local wall-clock time
/// read as seconds since the epoch. chrono bounds an offset strictly below
/// one day; an ambiguous local time takes the earlier offset, and an
/// unrepresentable one reports zero.
#[verifier::external_body]
pub fn local_offset_secs(naive_secs: i64) -> (r: i32)
    ensures
        -86400 < r < 86400,
{
    let dt = match chrono::DateTime::from_timestamp(naive_secs, 0) {
        Some(d) => d,
        None => return 0,
    };
    match chrono::TimeZone::from_local_datetime(&chrono::Local, &dt.naive_utc()) {
        chrono::LocalResult::Single(l) => chrono::Offset::fix(l.offset()).local_minus_utc(),
        chrono::LocalResult::Ambiguous(l, _) => chrono::Offset::fix(l.offset()).local_minus_utc(),
        chrono::LocalResult::None => 0,
    }
}

/// Relies on chrono::offset::Local::now: the current instant; the offset is
/// the local zone's, which chrono bounds strictly below one day.
#[verifier::external_body]
pub fn now_instant() -> (r: LogInstant)
    ensures
        -86400 < r.offset_secs < 86400,
{
    let now = chrono::offset::Local::now();
    let secs = now.timestamp() as i128;
    let frac = chrono::Timelike::nanosecond(&now) as i128;
    LogInstant {
        nanos: secs * 1000000000 + frac,
        offset_secs: chrono::Offset::fix(now.offset()).local_minus_utc(),
    }
}

} // verus!

