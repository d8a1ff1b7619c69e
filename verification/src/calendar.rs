//! Calendar arithmetic of the proleptic Gregorian calendar, counted in days
//! from 1970-01-01.

use vstd::prelude::*;

verus! {

/// Gregorian leap year.
pub open spec fn is_leap(y: int) -> bool {
    (y % 4 == 0 && y % 100 != 0) || y % 400 == 0
}

pub open spec fn days_in_month(y: int, m: int) -> int {
    if m == 2 {
        if is_leap(y) { 29 } else { 28 }
    } else if m == 4 || m == 6 || m == 9 || m == 11 {
        30
    } else {
        31
    }
}

/// Days of the months of year `y` before month `m`.
pub open spec fn days_before_month(y: int, m: int) -> int {
    let leap: int = if is_leap(y) { 1 } else { 0 };
    if m <= 1 { 0 }
    else if m == 2 { 31 }
    else if m == 3 { 59 + leap }
    else if m == 4 { 90 + leap }
    else if m == 5 { 120 + leap }
    else if m == 6 { 151 + leap }
    else if m == 7 { 181 + leap }
    else if m == 8 { 212 + leap }
    else if m == 9 { 243 + leap }
    else if m == 10 { 273 + leap }
    else if m == 11 { 304 + leap }
    else { 334 + leap }
}

/// Leap years among the years `1..=n`.
pub open spec fn leap_years_through(n: int) -> int {
    n / 4 - n / 100 + n / 400
}

/// Days from 1970-01-01 to the first of January of year `y`.
pub open spec fn days_before_year(y: int) -> int {
    365 * (y - 1970) + leap_years_through(y - 1) - leap_years_through(1969)
}

/// A real date: a month of the year and a day of that month.
pub open spec fn valid_date(y: int, m: int, d: int) -> bool {
    1 <= m <= 12 && 1 <= d <= days_in_month(y, m)
}

/// Days from 1970-01-01 to the date `y-m-d`.
pub open spec fn days_since_epoch(y: int, m: int, d: int) -> int {
    days_before_year(y) + days_before_month(y, m) + d - 1
}

/// Days from the first of March of year 0 to the first of March of year
/// `era * 400 + k`, less the whole eras: the start of year `k` of an era.
spec fn era_year_start(k: int) -> int {
    365 * k + k / 4 - k / 100
}

/// Year `k` of an era, counted from the first of March, ends with a 29th of
/// February.
spec fn era_year_leap(k: int) -> bool {
    (k + 1) % 4 == 0 && ((k + 1) % 100 != 0 || k + 1 == 400)
}

#[verifier::rlimit(50)]
proof fn lemma_year_of_era(doe: int)
    requires
        0 <= doe <= 146096,
    ensures
        ({
            let yoe = (doe - doe / 1460 + doe / 36524 - doe / 146096) / 365;
            &&& 0 <= yoe <= 399
            &&& era_year_start(yoe) <= doe
            &&& doe - era_year_start(yoe) <= 364 + (if era_year_leap(yoe) { 1int } else { 0 })
        }),
{
}

/// Days of the year, counted from the first of March, before month `mp`
/// (March is month 0).
spec fn march_month_start(mp: int) -> int {
    (153 * mp + 2) / 5
}

proof fn lemma_month_of_year(doy: int)
    requires
        0 <= doy <= 365,
    ensures
        ({
            let mp = (5 * doy + 2) / 153;
            &&& 0 <= mp <= 11
            &&& march_month_start(mp) <= doy
            &&& mp < 11 ==> doy < march_month_start(mp + 1)
        }),
{
}

proof fn lemma_leap_step(n: int)
    ensures
        leap_years_through(n) - leap_years_through(n - 1) == (if is_leap(n) { 1int } else { 0 }),
{
}

proof fn lemma_era_start(era: int, yoe: int)
    requires
        0 <= era,
        0 <= yoe <= 399,
    ensures
        365 * (era * 400 + yoe) + leap_years_through(era * 400 + yoe)
            == era * 146_097 + era_year_start(yoe),
        era_year_leap(yoe) == is_leap(era * 400 + yoe + 1),
{
}

/// From the first of March of year `y` (counted from 1970-01-01), `doy` days
/// on, falls the date that the March-based month `mp` and the day `d` name.
#[verifier::rlimit(30)]
proof fn lemma_link(y: int, start: int, doy: int, mp: int, d: int)
    requires
        y >= 0,
        start == 365 * y + leap_years_through(y) - 719_468,
        0 <= doy <= 364 + (if is_leap(y + 1) { 1int } else { 0 }),
        0 <= mp <= 11,
        march_month_start(mp) <= doy,
        mp < 11 ==> doy < march_month_start(mp + 1),
        d == doy - march_month_start(mp) + 1,
    ensures
        ({
            let m = if mp < 10 { mp + 3 } else { mp - 9 };
            let year = if m <= 2 { y + 1 } else { y };
            &&& valid_date(year, m, d)
            &&& days_since_epoch(year, m, d) == start + doy
        }),
{
    lemma_leap_step(y);
    lemma_leap_step(y + 1);
}

proof fn lemma_date_within_year(y: int, m: int, d: int)
    requires
        valid_date(y, m, d),
    ensures
        days_before_year(y) <= days_since_epoch(y, m, d) < days_before_year(y + 1),
{
    lemma_leap_step(y);
}

proof fn lemma_years_increase(a: int, b: int)
    requires
        a < b,
    ensures
        days_before_year(a + 1) <= days_before_year(b),
    decreases b - a,
{
    if b > a + 1 {
        lemma_years_increase(a, b - 1);
        lemma_leap_step(b - 1);
    }
}

/// Two dates with the same day count are the same date: the count names
/// one date only.
pub proof fn lemma_date_unique(y1: int, m1: int, d1: int, y2: int, m2: int, d2: int)
    requires
        valid_date(y1, m1, d1),
        valid_date(y2, m2, d2),
        days_since_epoch(y1, m1, d1) == days_since_epoch(y2, m2, d2),
    ensures
        y1 == y2,
        m1 == m2,
        d1 == d2,
{
    lemma_date_within_year(y1, m1, d1);
    lemma_date_within_year(y2, m2, d2);
    if y1 < y2 {
        lemma_years_increase(y1, y2);
    } else if y2 < y1 {
        lemma_years_increase(y2, y1);
    }
}

/// The date that lies `days` days after 1970-01-01 (the year as a number
/// of any size).
fn civil_from_days(days: u64) -> (r: (u64, u32, u32))
    requires
        days <= 106_751_991_167_300,
    ensures
        valid_date(r.0 as int, r.1 as int, r.2 as int),
        days_since_epoch(r.0 as int, r.1 as int, r.2 as int) == days,
{
    let z: u64 = days + 719_468;
    let era: u64 = z / 146_097;
    let doe: u64 = z - era * 146_097;
    proof {
        lemma_year_of_era(doe as int);
    }
    let yoe: u64 = (doe - doe / 1460 + doe / 36524 - doe / 146_096) / 365;
    let y: u64 = yoe + era * 400;
    let doy: u64 = doe - (365 * yoe + yoe / 4 - yoe / 100);
    proof {
        lemma_month_of_year(doy as int);
        lemma_era_start(era as int, yoe as int);
        lemma_link(y as int, 365 * (y as int) + leap_years_through(y as int) - 719_468,
            doy as int, (5 * doy + 2) / 153, doy - (153 * ((5 * doy + 2) / 153) + 2) / 5 + 1);
    }
    let mp: u64 = (5 * doy + 2) / 153;
    let d: u64 = doy - (153 * mp + 2) / 5 + 1;
    let m: u64 = if mp < 10 { mp + 3 } else { mp - 9 };
    let year: u64 = if m <= 2 { y + 1 } else { y };
    (year, m as u32, d as u32)
}

/// The date that lies `n` days after 1970-01-01.
pub open spec fn date_of_day(n: int) -> (int, int, int) {
    choose|t: (int, int, int)| is_date_of_day(t, n)
}

/// `t` is a real date and lies `n` days after 1970-01-01.
pub open spec fn is_date_of_day(t: (int, int, int), n: int) -> bool {
    valid_date(t.0, t.1, t.2) && days_since_epoch(t.0, t.1, t.2) == n
}

/// A date's day count leads back to the date.
pub proof fn lemma_date_of_day(y: int, m: int, d: int)
    requires
        valid_date(y, m, d),
    ensures
        date_of_day(days_since_epoch(y, m, d)) == (y, m, d),
{
    let n = days_since_epoch(y, m, d);
    assert(is_date_of_day((y, m, d), n));
    let t = date_of_day(n);
    lemma_date_unique(t.0, t.1, t.2, y, m, d);
}

/// Days since 1970-01-01 to (year, month, day), the year cut to `i32` as the
/// date printer stores it.
pub fn days_since_epoch_to_ymd(days: u64) -> (r: (i32, u32, u32))
    requires
        days <= 106_751_991_167_300,
    ensures
        r.0 == (date_of_day(days as int).0 as i32),
        r.1 == date_of_day(days as int).1,
        r.2 == date_of_day(days as int).2,
{
    let (y, m, d) = civil_from_days(days);
    proof {
        lemma_date_of_day(y as int, m as int, d as int);
    }
    (y as i32, m, d)
}

} // verus!
