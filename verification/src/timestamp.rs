use chrono::{Datelike, TimeZone, Timelike};
use vstd::prelude::*;

verus! {

/// Highest year the calendar supports; the codec rejects dates beyond it.
pub const MAX_YEAR: u16 = 9999;

/// A civil timestamp in the single local time zone, kept as plain fields.
///
/// The library does all calendar arithmetic on this type itself; the time
/// zone database is consulted only through the trusted wrappers below, to
/// reject local times that the zone cannot resolve uniquely and to read the
/// current instant.
#[derive(Clone, Copy, Debug, PartialEq, Eq, Structural)]
pub struct Timestamp {
    pub year: u16,
    pub month: u8,
    pub day: u8,
    pub hour: u8,
    pub minute: u8,
    pub second: u8,
}

/// The proleptic Gregorian leap-year rule.
pub open spec fn spec_is_leap_year(y: int) -> bool {
    (y % 4 == 0 && y % 100 != 0) || y % 400 == 0
}

/// Number of days in month `m` of year `y` (months count from 1).
pub open spec fn spec_days_in_month(y: int, m: int) -> int {
    if m == 2 {
        if spec_is_leap_year(y) {
            29
        } else {
            28
        }
    } else if m == 4 || m == 6 || m == 9 || m == 11 {
        30
    } else {
        31
    }
}

/// Number of days in year `y`.
pub open spec fn spec_days_in_year(y: int) -> int {
    if spec_is_leap_year(y) {
        366
    } else {
        365
    }
}

/// Days in all years before `y`, counting from year 0.
pub open spec fn spec_days_before_year(y: int) -> int
    decreases y,
{
    if y <= 0 {
        0
    } else {
        spec_days_before_year(y - 1) + spec_days_in_year(y - 1)
    }
}

/// Days in the months of year `y` that precede month `m`.
pub open spec fn spec_days_before_month(y: int, m: int) -> int
    decreases m,
{
    if m <= 1 {
        0
    } else {
        spec_days_before_month(y, m - 1) + spec_days_in_month(y, m - 1)
    }
}

impl Timestamp {
    /// The timestamp names a real civil time within the supported years.
    pub open spec fn valid(self) -> bool {
        &&& self.year <= MAX_YEAR
        &&& 1 <= self.month <= 12
        &&& 1 <= self.day <= spec_days_in_month(self.year as int, self.month as int)
        &&& self.hour < 24
        &&& self.minute < 60
        &&& self.second < 60
    }

    /// Day number of the date part, counting day 0 as January 1 of year 0.
    pub open spec fn spec_epoch_days(self) -> int {
        spec_days_before_year(self.year as int) + spec_days_before_month(
            self.year as int,
            self.month as int,
        ) + (self.day - 1)
    }

    /// Position on a linear seconds scale: the single number that ordering
    /// and recurrence arithmetic work with.
    pub open spec fn lin(self) -> int {
        self.spec_epoch_days() * 86400 + self.hour * 3600 + self.minute * 60 + self.second
    }

    /// The same instant with seconds dropped, as the codec renders it.
    pub open spec fn spec_truncate_minutes(self) -> Timestamp {
        Timestamp { second: 0, ..self }
    }
}

/// One more than the largest `lin` value of a valid timestamp.
pub open spec fn spec_lin_bound() -> int {
    spec_days_before_year(MAX_YEAR as int + 1) * 86400
}

pub fn is_leap_year(y: u16) -> (r: bool)
    ensures
        r == spec_is_leap_year(y as int),
{
    (y % 4 == 0 && y % 100 != 0) || y % 400 == 0
}

pub fn days_in_month(y: u16, m: u8) -> (r: u8)
    ensures
        r == spec_days_in_month(y as int, m as int),
{
    if m == 2 {
        if is_leap_year(y) {
            29
        } else {
            28
        }
    } else if m == 4 || m == 6 || m == 9 || m == 11 {
        30
    } else {
        31
    }
}

fn days_in_year(y: u16) -> (r: u16)
    ensures
        r == spec_days_in_year(y as int),
{
    if is_leap_year(y) {
        366
    } else {
        365
    }
}

/// Every year contributes at least 365 and at most 366 days.
pub proof fn lemma_days_before_year_bounds(y: int)
    requires
        0 <= y,
    ensures
        365 * y <= spec_days_before_year(y) <= 366 * y,
    decreases y,
{
    if y > 0 {
        lemma_days_before_year_bounds(y - 1);
    }
}

/// The day count is strictly monotone in the year.
pub proof fn lemma_days_before_year_monotone(a: int, b: int)
    requires
        0 <= a <= b,
    ensures
        spec_days_before_year(a) <= spec_days_before_year(b),
        a < b ==> spec_days_before_year(a) + spec_days_in_year(a) <= spec_days_before_year(b),
    decreases b,
{
    if a < b {
        lemma_days_before_year_monotone(a, b - 1);
    }
}

/// Months contribute at least 28 and at most 31 days each.
pub proof fn lemma_days_before_month_bounds(y: int, m: int)
    requires
        1 <= m,
    ensures
        28 * (m - 1) <= spec_days_before_month(y, m) <= 31 * (m - 1),
    decreases m,
{
    if m > 1 {
        lemma_days_before_month_bounds(y, m - 1);
    }
}

/// The day count within a year is monotone in the month.
pub proof fn lemma_days_before_month_monotone(y: int, a: int, b: int)
    requires
        1 <= a <= b,
    ensures
        spec_days_before_month(y, a) <= spec_days_before_month(y, b),
        a < b ==> spec_days_before_month(y, a) + spec_days_in_month(y, a)
            <= spec_days_before_month(y, b),
    decreases b,
{
    if a < b {
        lemma_days_before_month_monotone(y, a, b - 1);
    }
}

/// All days of year `y` lie before the days of later years.
pub proof fn lemma_days_of_year_in_range(y: int, m: int, d: int)
    requires
        0 <= y,
        1 <= m <= 12,
        1 <= d <= spec_days_in_month(y, m),
    ensures
        0 <= spec_days_before_year(y) + spec_days_before_month(y, m) + (d - 1)
            < spec_days_before_year(y + 1),
{
    lemma_days_before_year_bounds(y);
    lemma_days_before_month_bounds(y, m);
    lemma_days_before_month_monotone(y, m, 13);
    lemma_months_sum_to_year(y);
    assert(spec_days_before_year(y + 1) == spec_days_before_year(y) + spec_days_in_year(y));
}

/// The twelve months of a year sum to that year's day count.
proof fn lemma_months_sum_to_year(y: int)
    ensures
        spec_days_before_month(y, 13) == spec_days_in_year(y),
{
    reveal_with_fuel(spec_days_before_month, 14);
}

fn days_before_month(y: u16, m: u8) -> (r: u16)
    requires
        m <= 13,
    ensures
        r == spec_days_before_month(y as int, m as int),
{
    let mut i: u8 = 1;
    let mut acc: u16 = 0;
    if m <= 1 {
        return 0;
    }
    while i < m
        invariant
            1 <= i <= m <= 13,
            acc == spec_days_before_month(y as int, i as int),
            acc <= 31 * (i - 1),
        decreases m - i,
    {
        proof {
            lemma_days_before_month_bounds(y as int, i + 1);
        }
        acc = acc + days_in_month(y, i) as u16;
        i = i + 1;
    }
    acc
}

fn days_before_year(y: u16) -> (r: u32)
    requires
        y <= MAX_YEAR + 1,
    ensures
        r == spec_days_before_year(y as int),
{
    let mut i: u16 = 0;
    let mut acc: u32 = 0;
    while i < y
        invariant
            0 <= i <= y,
            acc == spec_days_before_year(i as int),
            acc <= 366 * (i as u32),
        decreases y - i,
    {
        proof {
            lemma_days_before_year_bounds(i as int + 1);
        }
        acc = acc + days_in_year(i) as u32;
        i = i + 1;
    }
    acc
}

impl Timestamp {
    /// Day number of the date part on the linear day scale.
    pub fn epoch_days(&self) -> (r: u32)
        requires
            self.valid(),
        ensures
            r == self.spec_epoch_days(),
            r < spec_days_before_year(MAX_YEAR as int + 1),
    {
        proof {
            lemma_days_of_year_in_range(self.year as int, self.month as int, self.day as int);
            lemma_days_before_year_monotone(self.year as int + 1, MAX_YEAR as int + 1);
            lemma_days_before_year_bounds(MAX_YEAR as int + 1);
        }
        days_before_year(self.year) + days_before_month(self.year, self.month) as u32 + (self.day
            - 1) as u32
    }

    /// Rebuilds the unique date whose day number is `d`.
    fn date_from_days(d: u32) -> (r: (u16, u8, u8))
        requires
            d < spec_days_before_year(MAX_YEAR as int + 1),
        ensures
            ({
                let (y, m, day) = r;
                &&& y <= MAX_YEAR
                &&& 1 <= m <= 12
                &&& 1 <= day <= spec_days_in_month(y as int, m as int)
                &&& spec_days_before_year(y as int) + spec_days_before_month(y as int, m as int)
                    + (day - 1) == d
            }),
    {
        let mut y: u16 = 0;
        let mut acc: u32 = 0;
        proof {
            lemma_days_before_year_bounds(MAX_YEAR as int + 1);
        }
        while acc + days_in_year(y) as u32 <= d
            invariant
                y <= MAX_YEAR,
                acc == spec_days_before_year(y as int),
                acc <= d,
                d < 3660000,
                d < spec_days_before_year(MAX_YEAR as int + 1),
            decreases MAX_YEAR - y,
        {
            proof {
                if y >= MAX_YEAR {
                    lemma_days_before_year_monotone(MAX_YEAR as int + 1, y as int + 1);
                    assert(false);
                }
            }
            acc = acc + days_in_year(y) as u32;
            y = y + 1;
        }
        let mut rem: u32 = d - acc;
        let mut m: u8 = 1;
        while rem >= days_in_month(y, m) as u32
            invariant
                1 <= m <= 12,
                y <= MAX_YEAR,
                spec_days_before_month(y as int, m as int) <= d - spec_days_before_year(y as int)
                    < spec_days_in_year(y as int),
                rem == d - spec_days_before_year(y as int) - spec_days_before_month(
                    y as int,
                    m as int,
                ),
            decreases 12 - m,
        {
            proof {
                lemma_months_sum_to_year(y as int);
                if m >= 12 {
                    assert(spec_days_before_month(y as int, 13) == spec_days_before_month(
                        y as int,
                        12,
                    ) + spec_days_in_month(y as int, 12));
                    assert(false);
                }
                lemma_days_before_month_monotone(y as int, m as int, m as int + 1);
            }
            rem = rem - days_in_month(y, m) as u32;
            m = m + 1;
        }
        (y, m, (rem + 1) as u8)
    }

    /// Rebuilds the unique valid timestamp at position `t` of the linear
    /// seconds scale.
    pub fn from_seconds(t: u64) -> (r: Timestamp)
        requires
            t < spec_lin_bound(),
        ensures
            r.valid(),
            r.lin() == t,
    {
        proof {
            vstd::arithmetic::div_mod::lemma_fundamental_div_mod(t as int, 86400);
            vstd::arithmetic::div_mod::lemma_mod_division_less_than_divisor(t as int, 86400);
        }
        let days = t / 86400;
        let sod = (t % 86400) as u32;
        proof {
            lemma_days_before_year_bounds(MAX_YEAR as int + 1);
            assert(days < spec_days_before_year(MAX_YEAR as int + 1));
        }
        let (y, mo, d) = Self::date_from_days(days as u32);
        let hour = sod / 3600;
        let rest = sod % 3600;
        let minute = rest / 60;
        let second = rest % 60;
        proof {
            vstd::arithmetic::div_mod::lemma_fundamental_div_mod(sod as int, 3600);
            vstd::arithmetic::div_mod::lemma_mod_division_less_than_divisor(sod as int, 3600);
            vstd::arithmetic::div_mod::lemma_fundamental_div_mod(rest as int, 60);
            vstd::arithmetic::div_mod::lemma_mod_division_less_than_divisor(rest as int, 60);
            assert(sod == 3600 * (hour as int) + rest);
            assert(rest == 60 * (minute as int) + second);
            assert(hour < 24 && minute < 60 && second < 60);
        }
        let r = Timestamp {
            year: y,
            month: mo,
            day: d,
            hour: hour as u8,
            minute: minute as u8,
            second: second as u8,
        };
        proof {
            assert(r.spec_epoch_days() == days);
            assert(t == 86400 * (days as int) + sod);
            assert(r.lin() == (days as int) * 86400 + (hour as int) * 3600 + (minute as int) * 60
                + second);
        }
        r
    }

    /// Position on the linear seconds scale.
    pub fn total_seconds(&self) -> (r: u64)
        requires
            self.valid(),
        ensures
            r == self.lin(),
            r < spec_lin_bound(),
    {
        proof {
            lemma_days_before_year_bounds(MAX_YEAR as int + 1);
        }
        let days = self.epoch_days();
        days as u64 * 86400 + self.hour as u64 * 3600 + self.minute as u64 * 60
            + self.second as u64
    }
}

/// One more than the largest linear position, as an executable value.
pub fn lin_bound() -> (r: u64)
    ensures
        r == spec_lin_bound(),
{
    proof {
        lemma_days_before_year_bounds(MAX_YEAR as int + 1);
    }
    days_before_year(MAX_YEAR + 1) as u64 * 86400
}

/// Two valid timestamps at the same position of the linear scale are the
/// same civil time: the scale pins a timestamp completely.
pub proof fn lemma_lin_injective(a: Timestamp, b: Timestamp)
    requires
        a.valid(),
        b.valid(),
        a.lin() == b.lin(),
    ensures
        a == b,
{
    assert(a.spec_epoch_days() == b.spec_epoch_days() && a.hour == b.hour && a.minute == b.minute
        && a.second == b.second);
    lemma_days_before_month_bounds(a.year as int, a.month as int);
    lemma_days_before_month_bounds(b.year as int, b.month as int);
    if a.year != b.year {
        let (lo, hi) = if a.year < b.year {
            (a, b)
        } else {
            (b, a)
        };
        lemma_days_of_year_in_range(lo.year as int, lo.month as int, lo.day as int);
        lemma_days_before_year_monotone(lo.year as int + 1, hi.year as int);
        assert(false);
    }
    if a.month != b.month {
        let (lo, hi) = if a.month < b.month {
            (a, b)
        } else {
            (b, a)
        };
        lemma_days_before_month_monotone(a.year as int, lo.month as int, hi.month as int);
        assert(false);
    }
}

/// Relies on chrono's `TimeZone::with_ymd_and_hms` on `Local`: reports
/// whether the local time zone resolves this civil time to exactly one
/// instant (neither skipped by a forward transition nor occurring twice).
/// The answer depends on the machine's zone, so nothing is assumed of it.
#[verifier::external_body]
pub fn local_time_is_unique(t: &Timestamp) -> bool {
    matches!(
        chrono::Local.with_ymd_and_hms(
            t.year as i32,
            t.month as u32,
            t.day as u32,
            t.hour as u32,
            t.minute as u32,
            t.second as u32,
        ),
        chrono::LocalResult::Single(_)
    )
}

/// Relies on chrono's `Local::now` and the `Datelike`/`Timelike` accessors:
/// reads the current civil time in the local zone as plain fields. The value
/// depends on the clock, so nothing is assumed of it. `Local::now` itself
/// panics on a system clock set before 1970; no argument can exclude that.
#[verifier::external_body]
pub fn now_civil_fields() -> (i64, i64, i64, i64, i64, i64) {
    let now = chrono::Local::now();
    (
        now.year() as i64,
        now.month() as i64,
        now.day() as i64,
        now.hour() as i64,
        now.minute() as i64,
        now.second() as i64,
    )
}

/// The civil time given by `now` is strictly before `t`, field by field.
pub open spec fn spec_fields_before(now: (i64, i64, i64, i64, i64, i64), t: Timestamp) -> bool {
    if now.0 != t.year as int {
        now.0 < t.year as int
    } else if now.1 != t.month as int {
        now.1 < t.month as int
    } else if now.2 != t.day as int {
        now.2 < t.day as int
    } else if now.3 != t.hour as int {
        now.3 < t.hour as int
    } else if now.4 != t.minute as int {
        now.4 < t.minute as int
    } else {
        now.5 < t.second as int
    }
}

/// Decides `spec_fields_before` for a civil time read from the clock.
pub fn fields_before(now: (i64, i64, i64, i64, i64, i64), t: &Timestamp) -> (r: bool)
    ensures
        r == spec_fields_before(now, *t),
{
    if now.0 != t.year as i64 {
        now.0 < t.year as i64
    } else if now.1 != t.month as i64 {
        now.1 < t.month as i64
    } else if now.2 != t.day as i64 {
        now.2 < t.day as i64
    } else if now.3 != t.hour as i64 {
        now.3 < t.hour as i64
    } else if now.4 != t.minute as i64 {
        now.4 < t.minute as i64
    } else {
        now.5 < t.second as i64
    }
}

} // verus!
