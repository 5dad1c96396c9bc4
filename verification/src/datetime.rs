//! A time-zone-naive calendar date and time of day, in the proleptic
//! Gregorian calendar, with nanosecond precision.
//!
//! EBML stores a date as a count of nanoseconds since 2001-01-01T00:00:00Z.
//! The EDTD schema format, on the other hand, writes dates as calendar
//! literals. This module carries the calendar form and converts between the
//! two: every conversion is pinned to the day-counting functions below, so
//! that a round trip through either representation is exact.

use vstd::prelude::*;

verus! {

/// Nanoseconds in a day.
pub const NANOS_PER_DAY: i64 = 86_400_000_000_000;

/// Nanoseconds in a second.
pub const NANOS_PER_SECOND: i64 = 1_000_000_000;

/// Whether `y` is a leap year in the proleptic Gregorian calendar.
pub open spec fn is_leap_year(y: int) -> bool {
    (y % 4 == 0 && y % 100 != 0) || y % 400 == 0
}

/// The number of days in year `y`.
pub open spec fn days_in_year(y: int) -> int {
    if is_leap_year(y) {
        366
    } else {
        365
    }
}

/// The number of days in month `m` of year `y`.
pub open spec fn days_in_month(y: int, m: int) -> int {
    if m == 2 {
        if is_leap_year(y) {
            29
        } else {
            28
        }
    } else if m == 4 || m == 6 || m == 9 || m == 11 {
        30
    } else {
        31
    }
}

/// Days from 2001-01-01 to the first day of year `y`; negative for earlier
/// years.
pub open spec fn days_to_year(y: int) -> int
    decreases
            if y >= 2001 {
                y - 2001
            } else {
                2001 - y
            },
{
    if y == 2001 {
        0
    } else if y > 2001 {
        days_to_year(y - 1) + days_in_year(y - 1)
    } else {
        days_to_year(y + 1) - days_in_year(y)
    }
}

/// Days from the first day of year `y` to the first day of its month `m`.
pub open spec fn days_before_month(y: int, m: int) -> int
    decreases m,
{
    if m <= 1 {
        0
    } else {
        days_before_month(y, m - 1) + days_in_month(y, m - 1)
    }
}

/// Whether year, month and day name a calendar date this module accepts:
/// years of at most four digits, as EDTD date literals are written.
pub open spec fn valid_date(y: int, m: int, d: int) -> bool {
    &&& 0 <= y <= 9999
    &&& 1 <= m <= 12
    &&& 1 <= d <= days_in_month(y, m)
}

/// Whether the time-of-day fields are in range.
pub open spec fn valid_time(h: int, mi: int, s: int, ns: int) -> bool {
    &&& 0 <= h < 24
    &&& 0 <= mi < 60
    &&& 0 <= s < 60
    &&& 0 <= ns < 1_000_000_000
}

/// A calendar date with a time of day, time-zone naive.
#[derive(Debug, Clone, Copy, PartialEq, Eq, Structural)]
pub struct DateTime {
    year: i32,
    month: u8,
    day: u8,
    hour: u8,
    minute: u8,
    second: u8,
    nano: u32,
}

impl DateTime {
    /// The year, 0 through 9999.
    pub closed spec fn spec_year(self) -> int {
        self.year as int
    }

    /// The month, 1 through 12.
    pub closed spec fn spec_month(self) -> int {
        self.month as int
    }

    /// The day of the month, starting at 1.
    pub closed spec fn spec_day(self) -> int {
        self.day as int
    }

    /// The hour, 0 through 23.
    pub closed spec fn spec_hour(self) -> int {
        self.hour as int
    }

    /// The minute.
    pub closed spec fn spec_minute(self) -> int {
        self.minute as int
    }

    /// The second.
    pub closed spec fn spec_second(self) -> int {
        self.second as int
    }

    /// The nanoseconds within the second.
    pub closed spec fn spec_nano(self) -> int {
        self.nano as int
    }

    #[verifier::type_invariant]
    spec fn inv(self) -> bool {
        &&& valid_date(self.spec_year(), self.spec_month(), self.spec_day())
        &&& valid_time(self.spec_hour(), self.spec_minute(), self.spec_second(), self.spec_nano())
    }

    /// Days from 2001-01-01 to this date; negative for earlier dates.
    pub open spec fn spec_days(self) -> int {
        days_to_year(self.spec_year()) + days_before_month(self.spec_year(), self.spec_month())
            + self.spec_day() - 1
    }

    /// Nanoseconds from 2001-01-01T00:00:00 to this instant, as an unbounded
    /// integer; it overflows 64 bits for dates far from the epoch.
    pub open spec fn spec_nanos(self) -> int {
        (self.spec_days() * 86_400 + self.spec_hour() * 3_600 + self.spec_minute() * 60
            + self.spec_second()) * 1_000_000_000 + self.spec_nano()
    }

    /// Builds a date-time from its fields, checking each range; the day is
    /// checked against the month's length, leap years included.
    pub fn new(year: i32, month: u8, day: u8, hour: u8, minute: u8, second: u8, nano: u32) -> (r:
        Option<DateTime>)
        ensures
            r is Some <==> valid_date(year as int, month as int, day as int) && valid_time(
                hour as int,
                minute as int,
                second as int,
                nano as int,
            ),
            r matches Some(dt) ==> {
                &&& dt.spec_year() == year
                &&& dt.spec_month() == month
                &&& dt.spec_day() == day
                &&& dt.spec_hour() == hour
                &&& dt.spec_minute() == minute
                &&& dt.spec_second() == second
                &&& dt.spec_nano() == nano
            },
    {
        if year < 0 || year > 9999 || month < 1 || month > 12 {
            return None;
        }
        if day < 1 || day > days_in_month_exec(year, month) {
            return None;
        }
        if hour >= 24 || minute >= 60 || second >= 60 || nano >= 1_000_000_000 {
            return None;
        }
        Some(DateTime { year, month, day, hour, minute, second, nano })
    }

    /// The year.
    pub fn year(&self) -> (r: i32)
        ensures
            r == self.spec_year(),
    {
        self.year
    }

    /// The month, 1 through 12.
    pub fn month(&self) -> (r: u8)
        ensures
            r == self.spec_month(),
    {
        self.month
    }

    /// The day of the month, starting at 1.
    pub fn day(&self) -> (r: u8)
        ensures
            r == self.spec_day(),
    {
        self.day
    }

    /// The hour.
    pub fn hour(&self) -> (r: u8)
        ensures
            r == self.spec_hour(),
    {
        self.hour
    }

    /// The minute.
    pub fn minute(&self) -> (r: u8)
        ensures
            r == self.spec_minute(),
    {
        self.minute
    }

    /// The second.
    pub fn second(&self) -> (r: u8)
        ensures
            r == self.spec_second(),
    {
        self.second
    }

    /// The nanoseconds within the second.
    pub fn nano(&self) -> (r: u32)
        ensures
            r == self.spec_nano(),
    {
        self.nano
    }
}

/// Whether `y` is a leap year.
pub fn is_leap_year_exec(y: i32) -> (r: bool)
    ensures
        r == is_leap_year(y as int),
{
    (y % 4 == 0 && y % 100 != 0) || y % 400 == 0
}

/// The number of days in year `y`.
pub fn days_in_year_exec(y: i32) -> (r: u16)
    ensures
        r == days_in_year(y as int),
{
    if is_leap_year_exec(y) {
        366
    } else {
        365
    }
}

/// The number of days in month `m` of year `y`.
pub fn days_in_month_exec(y: i32, m: u8) -> (r: u8)
    ensures
        r == days_in_month(y as int, m as int),
{
    if m == 2 {
        if is_leap_year_exec(y) {
            29
        } else {
            28
        }
    } else if m == 4 || m == 6 || m == 9 || m == 11 {
        30
    } else {
        31
    }
}

/// A year between 0 and 9999 begins at most four million days away from the
/// millennium.
proof fn lemma_days_to_year_bound(y: int)
    requires
        0 <= y <= 9999,
    ensures
        y >= 2001 ==> 365 * (y - 2001) <= days_to_year(y) <= 366 * (y - 2001),
        y <= 2001 ==> 366 * (y - 2001) <= days_to_year(y) <= 365 * (y - 2001),
        -4_000_000 < days_to_year(y) < 4_000_000,
    decreases
            if y >= 2001 {
                y - 2001
            } else {
                2001 - y
            },
{
    if y > 2001 {
        lemma_days_to_year_bound(y - 1);
    } else if y < 2001 {
        lemma_days_to_year_bound(y + 1);
    }
}

/// The months of a year account for all its days.
proof fn lemma_days_before_month_all(y: int)
    ensures
        days_before_month(y, 13) == days_in_year(y),
{
    reveal_with_fuel(days_before_month, 14);
}

/// `days_before_month` grows by whole months and stays within the year.
proof fn lemma_days_before_month_bound(y: int, m: int)
    requires
        1 <= m <= 13,
    ensures
        0 <= days_before_month(y, m) <= days_in_year(y),
        m <= 12 ==> days_before_month(y, m) + days_in_month(y, m) <= days_in_year(y),
    decreases 13 - m,
{
    if m == 13 {
        lemma_days_before_month_all(y);
    } else {
        lemma_days_before_month_bound(y, m + 1);
        if m > 1 {
            lemma_days_before_month_nonneg(y, m);
        }
    }
}

/// `days_before_month` is non-negative.
proof fn lemma_days_before_month_nonneg(y: int, m: int)
    ensures
        days_before_month(y, m) >= 0,
    decreases m,
{
    if m > 1 {
        lemma_days_before_month_nonneg(y, m - 1);
    }
}

impl DateTime {
    /// Days from 2001-01-01 to this date, negative for earlier dates.
    pub fn days_since_millennium(&self) -> (r: i64)
        ensures
            r == self.spec_days(),
            -4_000_000 < r < 4_000_000,
    {
        proof {
            use_type_invariant(self);
            lemma_days_to_year_bound(self.spec_year());
        }
        let mut days: i64 = 0;
        let mut y: i32 = 2001;
        if self.year >= 2001 {
            while y < self.year
                invariant
                    2001 <= y <= self.year <= 9999,
                    days == days_to_year(y as int),
                    -4_000_000 < days < 4_000_000,
                decreases self.year - y,
            {
                proof {
                    lemma_days_to_year_bound(y as int);
                    lemma_days_to_year_bound(y + 1);
                }
                days = days + (days_in_year_exec(y) as i64);
                y = y + 1;
            }
        } else {
            while y > self.year
                invariant
                    0 <= self.year <= y <= 2001,
                    days == days_to_year(y as int),
                    -4_000_000 < days < 4_000_000,
                decreases y - self.year,
            {
                proof {
                    lemma_days_to_year_bound(y as int);
                    lemma_days_to_year_bound(y - 1);
                }
                days = days - (days_in_year_exec(y - 1) as i64);
                y = y - 1;
            }
        }
        let mut m: u8 = 1;
        let mut in_year: i64 = 0;
        while m < self.month
            invariant
                1 <= m <= self.spec_month() <= 12,
                self.inv(),
                y == self.spec_year(),
                days == days_to_year(self.spec_year()),
                in_year == days_before_month(self.spec_year(), m as int),
                0 <= in_year <= 366,
            decreases self.month - m,
        {
            proof {
                lemma_days_before_month_bound(self.spec_year(), m as int);
            }
            in_year = in_year + (days_in_month_exec(y, m) as i64);
            m = m + 1;
        }
        proof {
            lemma_days_before_month_bound(self.spec_year(), self.spec_month());
        }
        days + in_year + (self.day as i64) - 1
    }

    /// Nanoseconds from 2001-01-01T00:00:00 to this instant; `None` when the
    /// count does not fit in 64 bits.
    pub fn nanos_since_millennium(&self) -> (r: Option<i64>)
        ensures
            r is Some <==> -0x8000_0000_0000_0000 <= self.spec_nanos() <= 0x7FFF_FFFF_FFFF_FFFF,
            r matches Some(n) ==> n == self.spec_nanos(),
    {
        proof {
            use_type_invariant(self);
        }
        let days = self.days_since_millennium();
        let secs: i64 = days * 86_400 + (self.hour as i64) * 3_600 + (self.minute as i64) * 60 + (
        self.second as i64);
        if secs > 9_223_372_036 || secs < -9_223_372_037 {
            return None;
        }
        if secs == 9_223_372_036 && self.nano > 854_775_807 {
            return None;
        }
        if secs == -9_223_372_037 && self.nano < 145_224_192 {
            return None;
        }
        if secs == -9_223_372_037 {
            Some((secs + 1) * NANOS_PER_SECOND + ((self.nano as i64) - NANOS_PER_SECOND))
        } else {
            Some(secs * NANOS_PER_SECOND + (self.nano as i64))
        }
    }

    /// The date-time a given count of nanoseconds after 2001-01-01T00:00:00;
    /// the inverse of [`DateTime::nanos_since_millennium`]. Every 64-bit
    /// count lands within a few hundred years of the epoch, so this cannot
    /// fail.
    pub fn from_nanos(nanos: i64) -> (r: DateTime)
        ensures
            r.spec_nanos() == nanos as int,
    {
        let mut y: i32 = 2001;
        let mut rem: i64 = nanos;
        if rem >= 0 {
            while rem >= (days_in_year_exec(y) as i64) * NANOS_PER_DAY
                invariant
                    2001 <= y <= 2294,
                    rem == nanos - days_to_year(y as int) * 86_400 * NANOS_PER_SECOND,
                    rem >= 0,
                decreases rem,
            {
                proof {
                    lemma_days_to_year_bound(y as int);
                    lemma_days_to_year_bound(y + 1);
                    assert((days_to_year(y as int) + days_in_year(y as int)) * 86_400
                        * 1_000_000_000 == days_to_year(y as int) * 86_400 * 1_000_000_000
                        + days_in_year(y as int) * 86_400 * 1_000_000_000) by (nonlinear_arith);
                }
                rem = rem - (days_in_year_exec(y) as i64) * NANOS_PER_DAY;
                y = y + 1;
                proof {
                    assert(365 * (y - 2001) * 86_400 * 1_000_000_000 <= days_to_year(y as int)
                        * 86_400 * 1_000_000_000) by (nonlinear_arith)
                        requires
                            365 * (y - 2001) <= days_to_year(y as int),
                    ;
                    lemma_days_to_year_bound(y as int);
                }
            }
        } else {
            while rem < 0
                invariant
                    1708 <= y <= 2001,
                    rem == nanos - days_to_year(y as int) * 86_400 * NANOS_PER_SECOND,
                    rem < (days_in_year(y as int) * 86_400 * NANOS_PER_SECOND) || rem < 0,
                decreases y,
            {
                proof {
                    lemma_days_to_year_bound(y as int);
                    lemma_days_to_year_bound(y - 1);
                    if y == 1708 {
                        assert(days_to_year(y as int) <= 365 * (y - 2001));
                        assert(false);
                    }
                    assert(days_to_year((y - 1) as int) == days_to_year(y as int) - days_in_year(
                        (y - 1) as int,
                    ));
                }
                y = y - 1;
                rem = rem + (days_in_year_exec(y) as i64) * NANOS_PER_DAY;
            }
        }
        proof {
            lemma_days_to_year_bound(y as int);
        }
        let mut m: u8 = 1;
        while rem >= (days_in_month_exec(y, m) as i64) * NANOS_PER_DAY
            invariant
                1 <= m <= 12,
                1707 <= y <= 2294,
                rem == nanos - (days_to_year(y as int) + days_before_month(y as int, m as int))
                    * 86_400 * NANOS_PER_SECOND,
                0 <= rem,
                rem < (days_in_year(y as int) - days_before_month(y as int, m as int)) * 86_400
                    * NANOS_PER_SECOND,
            decreases 12 - m,
        {
            proof {
                lemma_days_before_month_bound(y as int, m as int);
                if m == 12 {
                    lemma_days_before_month_all(y as int);
                    assert(false);
                }
                assert((days_to_year(y as int) + days_before_month(y as int, m as int)
                    + days_in_month(y as int, m as int)) * 86_400 * 1_000_000_000 == (days_to_year(
                    y as int,
                ) + days_before_month(y as int, m as int)) * 86_400 * 1_000_000_000 + days_in_month(
                    y as int,
                    m as int,
                ) * 86_400 * 1_000_000_000) by (nonlinear_arith);
            }
            rem = rem - (days_in_month_exec(y, m) as i64) * NANOS_PER_DAY;
            m = m + 1;
        }
        proof {
            lemma_days_before_month_bound(y as int, m as int);
        }
        let day0: i64 = rem / NANOS_PER_DAY;
        let tod: i64 = rem % NANOS_PER_DAY;
        let hour: i64 = tod / (3_600 * NANOS_PER_SECOND);
        let in_hour: i64 = tod % (3_600 * NANOS_PER_SECOND);
        let minute: i64 = in_hour / (60 * NANOS_PER_SECOND);
        let in_minute: i64 = in_hour % (60 * NANOS_PER_SECOND);
        let second: i64 = in_minute / NANOS_PER_SECOND;
        let nano: i64 = in_minute % NANOS_PER_SECOND;
        proof {
            assert(day0 < days_in_month(y as int, m as int)) by (nonlinear_arith)
                requires
                    0 <= rem,
                    rem < days_in_month(y as int, m as int) * 86_400 * 1_000_000_000,
                    day0 == rem / 86_400_000_000_000,
                    days_in_month(y as int, m as int) >= 1,
            ;
        }
        let dt = DateTime {
            year: y,
            month: m,
            day: (day0 + 1) as u8,
            hour: hour as u8,
            minute: minute as u8,
            second: second as u8,
            nano: nano as u32,
        };
        proof {
            assert(dt.spec_nanos() == nanos as int) by (nonlinear_arith)
                requires
                    dt.spec_days() == days_to_year(y as int) + days_before_month(
                        y as int,
                        m as int,
                    ) + day0,
                    rem == nanos - (days_to_year(y as int) + days_before_month(y as int, m as int))
                        * 86_400 * 1_000_000_000,
                    rem == day0 * 86_400_000_000_000 + tod,
                    tod == (hour * 3_600 + minute * 60 + second) * 1_000_000_000 + nano,
                    dt.spec_hour() == hour,
                    dt.spec_minute() == minute,
                    dt.spec_second() == second,
                    dt.spec_nano() == nano,
                    dt.spec_nanos() == (dt.spec_days() * 86_400 + dt.spec_hour() * 3_600
                        + dt.spec_minute() * 60 + dt.spec_second()) * 1_000_000_000
                        + dt.spec_nano(),
            ;
        }
        dt
    }
}

} // verus!
