//! Proleptic Gregorian calendar arithmetic on day numbers (days since 1970-01-01).
use vstd::prelude::*;
use crate::text::{fmt_zero_padded, push_str, zero_padded};

verus! {

pub open spec fn is_leap_year(y: int) -> bool {
    y % 4 == 0 && (y % 100 != 0 || y % 400 == 0)
}

pub open spec fn days_in_month(y: int, m: int) -> int {
    if m == 2 {
        if is_leap_year(y) { 29 } else { 28 }
    } else if m == 4 || m == 6 || m == 9 || m == 11 {
        30
    } else {
        31
    }
}

/// `y-m-d` names a day of the proleptic Gregorian calendar.
pub open spec fn is_valid_date(y: int, m: int, d: int) -> bool {
    1 <= m <= 12 && 1 <= d <= days_in_month(y, m)
}

/// Offset of the first day of year `yoe` of a 400-year era, years counted from March.
pub open spec fn year_start(yoe: int) -> int {
    365 * yoe + yoe / 4 - yoe / 100
}

/// Offset of the first day of month `mp` of a year counted from March (0 = March).
pub open spec fn month_start(mp: int) -> int {
    (153 * mp + 2) / 5
}

/// Day number of `y-m-d`: days elapsed since 1970-01-01 (negative before it).
/// Years are counted from March so that the leap day closes the year; eras of
/// 400 years have 146097 days each.
pub open spec fn days_from_civil(y: int, m: int, d: int) -> int {
    let yy = if m <= 2 { y - 1 } else { y };
    let era = yy / 400;
    let yoe = yy - era * 400;
    let mp = if m > 2 { m - 3 } else { m + 9 };
    era * 146097 + year_start(yoe) + month_start(mp) + d - 1 - 719468
}

/// The calendar day after `y-m-d`.
pub open spec fn next_day(y: int, m: int, d: int) -> (int, int, int) {
    if d < days_in_month(y, m) {
        (y, m, d + 1)
    } else if m < 12 {
        (y, m + 1, 1)
    } else {
        (y + 1, 1, 1)
    }
}

/// Length of year `yoe` of an era, years counted from March: the year holds a
/// leap day when the February that closes it does.
pub open spec fn era_year_len(yoe: int) -> int {
    if (yoe + 1) % 4 == 0 && ((yoe + 1) % 100 != 0 || yoe == 399) { 366 } else { 365 }
}

proof fn lemma_year_start_step(k: int)
    requires
        0 <= k < 399,
    ensures
        year_start(k + 1) == year_start(k) + era_year_len(k),
{
}

proof fn lemma_year_start_mono(a: int, b: int)
    requires
        0 <= a < b <= 399,
    ensures
        year_start(b) >= year_start(a + 1),
        year_start(a + 1) == year_start(a) + era_year_len(a),
{
    lemma_year_start_step(a);
}

/// Years of an era occupy disjoint, consecutive day ranges.
proof fn lemma_year_unique(a: int, b: int, x: int)
    requires
        0 <= a <= 399,
        0 <= b <= 399,
        year_start(a) <= x < year_start(a) + era_year_len(a),
        year_start(b) <= x < year_start(b) + era_year_len(b),
    ensures
        a == b,
{
    if a < b {
        lemma_year_start_mono(a, b);
    } else if b < a {
        lemma_year_start_mono(b, a);
    }
}

/// The year-of-era formula finds the year whose day range holds `doe`.
proof fn lemma_year_of_era(doe: int)
    requires
        0 <= doe <= 146096,
    ensures
        ({
            let yoe = (doe - doe / 1460 + doe / 36524 - doe / 146096) / 365;
            &&& 0 <= yoe <= 399
            &&& year_start(yoe) <= doe < year_start(yoe) + era_year_len(yoe)
        }),
{
    if doe == 146096 {
        assert((doe - doe / 1460 + doe / 36524 - doe / 146096) / 365 == 399);
    } else {
        let c = doe / 36524;
        let r = doe % 36524;
        let q = r / 1461;
        let s = r % 1461;
        assert(doe == 36524 * c + 1461 * q + s);
        assert(0 <= c <= 3);
        assert(0 <= q <= 24);
        assert(q == 24 ==> s <= 1459);
        let e: int = if s + q + 24 * c >= 1460 { 1 } else { 0 };
        assert(doe / 1460 == 25 * c + q + e);
        assert(doe / 36524 == c);
        assert(doe / 146096 == 0);
        let k = (s - e) / 365;
        assert(0 <= k <= 3);
        assert((doe - doe / 1460 + doe / 36524 - doe / 146096) == 36500 * c + 1460 * q + (s - e));
        assert((36500 * c + 1460 * q + (s - e)) / 365 == 100 * c + 4 * q + k);
        let yoe = 100 * c + 4 * q + k;
        assert(yoe / 4 == 25 * c + q);
        assert(yoe / 100 == c);
        assert(year_start(yoe) == 36524 * c + 1461 * q + 365 * k);
    }
}

/// Leap years seen from an era: the February closing year `yoe` of era `era`
/// falls in calendar year `era * 400 + yoe + 1`.
proof fn lemma_leap_in_era(era: int, yoe: int)
    requires
        0 <= yoe <= 399,
    ensures
        is_leap_year(era * 400 + yoe + 1) <==> era_year_len(yoe) == 366,
{
    let y = era * 400 + yoe + 1;
    assert(y % 4 == (yoe + 1) % 4) by (nonlinear_arith)
        requires y == era * 400 + yoe + 1;
    assert(y % 100 == (yoe + 1) % 100) by (nonlinear_arith)
        requires y == era * 400 + yoe + 1;
    assert(y % 400 == (yoe + 1) % 400) by (nonlinear_arith)
        requires y == era * 400 + yoe + 1;
}

/// Within a valid date, the day-of-year (from March) lies inside its year.
proof fn lemma_valid_date_in_year(y: int, m: int, d: int)
    requires
        is_valid_date(y, m, d),
    ensures
        ({
            let yy = if m <= 2 { y - 1 } else { y };
            let era = yy / 400;
            let yoe = yy - era * 400;
            let mp = if m > 2 { m - 3 } else { m + 9 };
            &&& 0 <= yoe <= 399
            &&& 0 <= month_start(mp) + d - 1 < era_year_len(yoe)
        }),
{
    let yy = if m <= 2 { y - 1 } else { y };
    let era = yy / 400;
    let yoe = yy - era * 400;
    if m == 2 {
        assert(y == era * 400 + yoe + 1);
        lemma_leap_in_era(era, yoe);
    }
}

/// Converts a day number (days since 1970-01-01) to its calendar date.
pub fn civil_from_days(z: i64) -> (r: (i64, u32, u32))
    requires
        z <= i64::MAX - 719468,
    ensures
        is_valid_date(r.0 as int, r.1 as int, r.2 as int),
        days_from_civil(r.0 as int, r.1 as int, r.2 as int) == z,
{
    let z = z + 719468;
    let era = (if z >= 0 { z } else { z - 146096 }) / 146097;
    assert(era == z / 146097);
    let doe = (z - era * 146097) as u64;
    let yoe = (doe - doe / 1460 + doe / 36524 - doe / 146096) / 365;
    proof {
        lemma_year_of_era(doe as int);
    }
    let y = yoe as i64 + era * 400;
    let doy = doe - (365 * yoe + yoe / 4 - yoe / 100);
    let mp = (5 * doy + 2) / 153;
    let d = (doy - (153 * mp + 2) / 5 + 1) as u32;
    let m = (if mp < 10 { mp + 3 } else { mp - 9 }) as u32;
    proof {
        assert(0 <= mp <= 11);
        assert(month_start(mp as int) <= doy);
        if mp == 11 {
            lemma_leap_in_era(era as int, yoe as int);
        }
        let yr: int = if m <= 2 { y + 1 } else { y as int };
        let yy: int = if m <= 2 { yr - 1 } else { yr };
        assert(yy == era * 400 + yoe);
        assert(yy / 400 == era) by (nonlinear_arith)
            requires yy == era * 400 + yoe, 0 <= yoe < 400;
    }
    (if m <= 2 { y + 1 } else { y }, m, d)
}

/// Day numbers tell valid dates apart: two valid dates with the same day number are the same date.
pub proof fn lemma_days_from_civil_injective(y1: int, m1: int, d1: int, y2: int, m2: int, d2: int)
    requires
        is_valid_date(y1, m1, d1),
        is_valid_date(y2, m2, d2),
        days_from_civil(y1, m1, d1) == days_from_civil(y2, m2, d2),
    ensures
        y1 == y2 && m1 == m2 && d1 == d2,
{
    lemma_valid_date_in_year(y1, m1, d1);
    lemma_valid_date_in_year(y2, m2, d2);
    let yy1 = if m1 <= 2 { y1 - 1 } else { y1 };
    let era1 = yy1 / 400;
    let yoe1 = yy1 - era1 * 400;
    let mp1 = if m1 > 2 { m1 - 3 } else { m1 + 9 };
    let yy2 = if m2 <= 2 { y2 - 1 } else { y2 };
    let era2 = yy2 / 400;
    let yoe2 = yy2 - era2 * 400;
    let mp2 = if m2 > 2 { m2 - 3 } else { m2 + 9 };
    let doe1 = year_start(yoe1) + month_start(mp1) + d1 - 1;
    let doe2 = year_start(yoe2) + month_start(mp2) + d2 - 1;
    lemma_year_start_mono_to_end(yoe1);
    lemma_year_start_mono_to_end(yoe2);
    assert(0 <= doe1 < 146097);
    assert(0 <= doe2 < 146097);
    assert(era1 * 146097 + doe1 == era2 * 146097 + doe2);
    assert(era1 == era2) by (nonlinear_arith)
        requires
            era1 * 146097 + doe1 == era2 * 146097 + doe2,
            0 <= doe1 < 146097,
            0 <= doe2 < 146097;
    lemma_year_unique(yoe1, yoe2, doe1);
    assert(month_start(mp1) + d1 == month_start(mp2) + d2);
    assert(mp1 == mp2);
}

/// The day range of year `yoe` ends no later than its era.
proof fn lemma_year_start_mono_to_end(yoe: int)
    requires
        0 <= yoe <= 399,
    ensures
        0 <= year_start(yoe),
        year_start(yoe) + era_year_len(yoe) <= 146097,
{
    if yoe < 399 {
        lemma_year_start_mono(yoe, 399);
    }
}

/// Day numbers count days: 1970-01-01 is day 0, and the day after a valid date
/// is a valid date whose day number is one more.
pub proof fn lemma_next_day(y: int, m: int, d: int)
    requires
        is_valid_date(y, m, d),
    ensures
        days_from_civil(1970, 1, 1) == 0,
        is_valid_date(next_day(y, m, d).0, next_day(y, m, d).1, next_day(y, m, d).2),
        days_from_civil(next_day(y, m, d).0, next_day(y, m, d).1, next_day(y, m, d).2)
            == days_from_civil(y, m, d) + 1,
{
    if d < days_in_month(y, m) {
    } else if m < 12 && m != 2 {
    } else if m == 2 {
        // the last day of February closes a year counted from March
        let yy = y - 1;
        let era = yy / 400;
        let yoe = yy - era * 400;
        lemma_leap_in_era(era, yoe);
        if yoe < 399 {
            lemma_year_start_step(yoe);
            assert(y / 400 == era) by (nonlinear_arith)
                requires y == era * 400 + yoe + 1, 0 <= yoe < 399;
        } else {
            assert(y / 400 == era + 1) by (nonlinear_arith)
                requires y == era * 400 + 400;
        }
    } else {
        let era = y / 400;
        let yoe = y - era * 400;
        assert(((y + 1) - 1) / 400 == era);
    }
}

// ---------- today's date ----------

#[verifier::external_type_specification]
#[verifier::external_body]
pub struct ExSystemTime(std::time::SystemTime);

#[verifier::external_type_specification]
#[verifier::external_body]
pub struct ExSystemTimeError(std::time::SystemTimeError);

/// `SystemTime::now`: the current wall-clock time. Nothing is claimed of it.
#[verifier::external_body]
fn system_now() -> std::time::SystemTime {
    std::time::SystemTime::now()
}

/// `SystemTime::duration_since(UNIX_EPOCH)`: the time elapsed since the Unix
/// epoch, or an error when the clock reads earlier. Nothing is claimed of the value.
#[verifier::external_body]
fn since_unix_epoch(t: &std::time::SystemTime) -> Result<std::time::Duration, std::time::SystemTimeError> {
    t.duration_since(std::time::UNIX_EPOCH)
}

/// `Duration::as_secs`: the whole seconds of a duration. Nothing is claimed of the value.
#[verifier::external_body]
fn whole_secs(d: &std::time::Duration) -> u64 {
    d.as_secs()
}

/// The valid calendar date whose day number is `z`.
pub open spec fn date_of_day(z: int) -> (int, int, int) {
    choose|t: (int, int, int)| is_valid_date(t.0, t.1, t.2) && days_from_civil(t.0, t.1, t.2) == z
}

/// Day number, in Beijing time (UTC+8), of the instant `secs` seconds after the
/// Unix epoch, moved back `minus_days` days.
pub open spec fn beijing_day(secs: int, minus_days: int) -> int {
    (secs + 8 * 3600) / 86400 - minus_days
}

/// `YYYYMMDD` of a date, each field zero-padded.
pub open spec fn yyyymmdd(t: (int, int, int)) -> Seq<char> {
    zero_padded(t.0, 4) + zero_padded(t.1, 2) + zero_padded(t.2, 2)
}

/// The date, in Beijing time, `minus_days` days before the instant `secs`
/// seconds after the Unix epoch, as `YYYYMMDD`.
pub fn date_str_at(secs: u64, minus_days: i64) -> (s: String)
    requires
        secs <= i64::MAX - 8 * 3600,
        i64::MIN <= beijing_day(secs as int, minus_days as int) <= i64::MAX - 719468,
    ensures
        s@ == yyyymmdd(date_of_day(beijing_day(secs as int, minus_days as int))),
{
    let secs = secs as i64;
    let days = (secs + 8 * 3600) / 86400 - minus_days;
    let (y, m, d) = civil_from_days(days);
    proof {
        let z = days as int;
        let t = date_of_day(z);
        assert(is_valid_date(y as int, m as int, d as int) && days_from_civil(y as int, m as int, d as int) == z);
        lemma_days_from_civil_injective(t.0, t.1, t.2, y as int, m as int, d as int);
    }
    let mut s = fmt_zero_padded(y, 4);
    let ms = fmt_zero_padded(m as i64, 2);
    let ds = fmt_zero_padded(d as i64, 2);
    push_str(&mut s, ms.as_str());
    push_str(&mut s, ds.as_str());
    s
}

/// The instant `secs` seconds after the Unix epoch, moved back `minus_days`
/// days, has a Beijing date that the day arithmetic can reach.
pub open spec fn date_in_range(secs: int, minus_days: int) -> bool {
    &&& 0 <= secs <= i64::MAX - 8 * 3600
    &&& i64::MIN <= beijing_day(secs, minus_days) <= i64::MAX - 719468
}

/// The Beijing date `minus_days` days before the instant `secs` seconds after
/// the Unix epoch, as `YYYYMMDD`; `None` when that day lies beyond the range
/// the day arithmetic can reach.
pub fn date_str_from_secs(secs: u64, minus_days: i64) -> (r: Option<String>)
    ensures
        match r {
            Some(s) => date_in_range(secs as int, minus_days as int)
                && s@ == yyyymmdd(date_of_day(beijing_day(secs as int, minus_days as int))),
            None => !date_in_range(secs as int, minus_days as int),
        },
{
    if secs > (i64::MAX - 8 * 3600) as u64 {
        return None;
    }
    let day: i64 = ((secs as i64) + 8 * 3600) / 86400;
    let back: i128 = day as i128 - minus_days as i128;
    assert(back == beijing_day(secs as int, minus_days as int));
    if back < i64::MIN as i128 || back > (i64::MAX - 719468) as i128 {
        return None;
    }
    Some(date_str_at(secs, minus_days))
}

/// Today's date in Beijing time, `minus_days` days back, as `YYYYMMDD`.
/// `None` when the system clock reads before the Unix epoch, or so far from it
/// that the day arithmetic would overflow.
pub fn today_str(minus_days: i64) -> (r: Option<String>)
    ensures
        r matches Some(s) ==> exists|secs: int|
            #![trigger beijing_day(secs, minus_days as int)]
            date_in_range(secs, minus_days as int)
                && s@ == yyyymmdd(date_of_day(beijing_day(secs, minus_days as int))),
{
    let now = system_now();
    let secs = match since_unix_epoch(&now) {
        Ok(d) => whole_secs(&d),
        Err(_) => return None,
    };
    date_str_from_secs(secs, minus_days)
}

proof fn lemma_zero_padded_len(n: int, w: int)
    ensures
        zero_padded(n, w).len() >= w,
        zero_padded(n, w).len() >= 1,
{
    crate::text::lemma_decimal_nonempty(if n < 0 { (-n) as nat } else { n as nat });
}

/// `HH:MM:SS` from a time written as the integer `HHMMSS`: the first six
/// characters of the integer zero-padded to width six, split in pairs.
pub open spec fn hms(x: int) -> Seq<char> {
    let s = zero_padded(x, 6);
    s.subrange(0, 2) + seq![':'] + s.subrange(2, 4) + seq![':'] + s.subrange(4, 6)
}

/// Formats a time given as the integer `HHMMSS` (such as `93015`) as `HH:MM:SS`.
pub fn fmt_hms(x: i64) -> (s: String)
    ensures
        s@ == hms(x as int),
{
    let p = fmt_zero_padded(x, 6);
    proof {
        lemma_zero_padded_len(x as int, 6);
    }
    let cs = crate::text::chars_of(p.as_str());
    let out = crate::text::string_from_chars(&[cs[0], cs[1], ':', cs[2], cs[3], ':', cs[4], cs[5]]);
    assert(out@ =~= hms(x as int));
    out
}

} // verus!
