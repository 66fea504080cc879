//! Calendar date-times and the arithmetic the timestamp policy needs.
use chrono::{Datelike, Timelike};
use vstd::prelude::*;

verus! {

pub const NANOS_PER_SECOND: u64 = 1_000_000_000;

/// The earliest and latest years a `PhotoDateTime` may carry.
pub const MIN_YEAR: i32 = -262_143;

pub const MAX_YEAR: i32 = 262_142;

pub open spec fn is_leap_year(y: int) -> bool {
    (y % 4 == 0 && y % 100 != 0) || y % 400 == 0
}

pub open spec fn month_days(y: int, m: int) -> int {
    if m == 2 {
        if is_leap_year(y) { 29 } else { 28 }
    } else if m == 4 || m == 6 || m == 9 || m == 11 {
        30
    } else {
        31
    }
}

pub open spec fn year_days(y: int) -> int {
    if is_leap_year(y) { 366 } else { 365 }
}

/// Days from the first of January of `y` to the first of month `m`.
pub open spec fn days_before_month(y: int, m: int) -> int
    decreases m,
{
    if m <= 1 {
        0
    } else {
        days_before_month(y, m - 1) + month_days(y, m - 1)
    }
}

/// Days from 1970-01-01 to the first of January of `y` (negative before 1970).
pub open spec fn days_before_year(y: int) -> int
    decreases (if y >= 1970 { y - 1970 } else { 1970 - y }),
{
    if y == 1970 {
        0
    } else if y > 1970 {
        days_before_year(y - 1) + year_days(y - 1)
    } else {
        days_before_year(y + 1) - year_days(y)
    }
}

/// Days from 1970-01-01 to the given day of the proleptic Gregorian calendar.
pub open spec fn days_from_epoch(y: int, m: int, d: int) -> int {
    days_before_year(y) + days_before_month(y, m) + d - 1
}

/// A UTC date-time with nanosecond precision, as calendar fields.
#[derive(Clone, Copy, Debug, PartialEq, Eq, Structural)]
pub struct PhotoDateTime {
    pub year: i32,
    pub month: u32,
    pub day: u32,
    pub hour: u32,
    pub minute: u32,
    pub second: u32,
    pub nanosecond: u32,
}

impl PhotoDateTime {
    /// Every field lies in its calendar range.
    pub open spec fn wf(&self) -> bool {
        &&& MIN_YEAR <= self.year <= MAX_YEAR
        &&& 1 <= self.month <= 12
        &&& 1 <= self.day <= month_days(self.year as int, self.month as int)
        &&& self.hour < 24
        &&& self.minute < 60
        &&& self.second < 60
        &&& self.nanosecond < NANOS_PER_SECOND
    }

    /// Whole seconds since 1970-01-01T00:00:00 UTC.
    pub open spec fn epoch_seconds(&self) -> int {
        days_from_epoch(self.year as int, self.month as int, self.day as int) * 86400
            + self.hour * 3600 + self.minute * 60 + self.second
    }

    /// Nanoseconds since 1970-01-01T00:00:00 UTC.
    pub open spec fn instant(&self) -> int {
        self.epoch_seconds() * 1_000_000_000 + self.nanosecond
    }
}

pub proof fn lemma_next_year(y: int)
    ensures
        days_before_year(y + 1) == days_before_year(y) + year_days(y),
        days_before_month(y, 13) == year_days(y),
{
    reveal_with_fuel(days_before_month, 13);
    if y >= 1970 {
        assert(days_before_year(y + 1) == days_before_year(y) + year_days(y));
    } else {
        assert(days_before_year(y) == days_before_year(y + 1) - year_days(y));
    }
}

/// The first of the month after (`y`, `m`) lies `month_days(y, m)` days later.
pub proof fn lemma_next_month(y: int, m: int)
    requires
        1 <= m <= 12,
    ensures
        m < 12 ==> days_from_epoch(y, m + 1, 1) == days_from_epoch(y, m, 1) + month_days(y, m),
        m == 12 ==> days_from_epoch(y + 1, 1, 1) == days_from_epoch(y, m, 1) + month_days(y, m),
{
    lemma_next_year(y);
    assert(days_before_month(y, m + 1) == days_before_month(y, m) + month_days(y, m));
}

pub proof fn lemma_days_before_year_bounds(y: int)
    ensures
        y >= 1970 ==> 365 * (y - 1970) <= days_before_year(y) <= 366 * (y - 1970),
        y < 1970 ==> 366 * (y - 1970) <= days_before_year(y) <= 365 * (y - 1970),
    decreases (if y >= 1970 { y - 1970 } else { 1970 - y }),
{
    if y > 1970 {
        lemma_days_before_year_bounds(y - 1);
    } else if y < 1970 {
        lemma_days_before_year_bounds(y + 1);
    }
}

/// The number of days in month `month` of `year`.
fn days_in_month(year: i64, month: u32) -> (r: u32)
    requires
        1 <= month <= 12,
    ensures
        r == month_days(year as int, month as int),
        28 <= r <= 31,
{
    if month == 2 {
        // divisibility does not depend on the sign
        let y: u64 = if year >= 0 {
            year as u64
        } else {
            (-(year as i128)) as u64
        };
        proof {
            let a = year as int;
            let b = y as int;
            assert(b == a || b == -a);
            if b == -a {
                assert((a % 4 == 0) == (b % 4 == 0)) by (nonlinear_arith)
                    requires
                        b == -a,
                ;
                assert((a % 100 == 0) == (b % 100 == 0)) by (nonlinear_arith)
                    requires
                        b == -a,
                ;
                assert((a % 400 == 0) == (b % 400 == 0)) by (nonlinear_arith)
                    requires
                        b == -a,
                ;
            }
        }
        if (y % 4 == 0 && y % 100 != 0) || y % 400 == 0 {
            29
        } else {
            28
        }
    } else if month == 4 || month == 6 || month == 9 || month == 11 {
        30
    } else {
        31
    }
}

/// Date-time fields as a camera wrote them: each field may exceed its calendar range.
#[derive(Clone, Copy, Debug, PartialEq, Eq, Structural)]
pub struct ExifDateTime {
    pub year: u16,
    pub month: u8,
    pub day: u8,
    pub hour: u8,
    pub minute: u8,
    pub second: u8,
    /// Sub-second part in nanoseconds, if any.
    pub nanosecond: Option<u32>,
    /// Offset from UTC in minutes, if any.
    pub offset: Option<i16>,
}

impl ExifDateTime {
    /// Every field already lies in its calendar range.
    pub open spec fn in_range(&self) -> bool {
        &&& 1 <= self.month <= 12
        &&& 1 <= self.day <= month_days(self.year as int, self.month as int)
        &&& self.hour < 24
        &&& self.minute < 60
        &&& self.second < 60
        &&& (self.nanosecond matches Some(n) ==> n < NANOS_PER_SECOND)
    }

    pub open spec fn nanos(&self) -> int {
        match self.nanosecond {
            Some(n) => n as int,
            None => 0,
        }
    }

    /// The instant the fields denote when every overflow is carried upward: month
    /// `m` counts `m - 1` months from January of the year, day `d` counts `d - 1`
    /// days from the first of that month, and so on down to the nanoseconds.
    pub open spec fn carried_instant(&self) -> int {
        let months = self.year * 12 + self.month - 1;
        let days = days_from_epoch(months / 12, months % 12 + 1, 1) + self.day - 1;
        ((days * 86400 + self.hour * 3600 + self.minute * 60 + self.second) * 1_000_000_000)
            + self.nanos()
    }

    /// Carries each overflowing field into the next larger one, using the true
    /// length of every month crossed, and yields a valid calendar date-time.
    pub fn normalized(&self) -> (r: PhotoDateTime)
        ensures
            r.wf(),
            r.instant() == self.carried_instant(),
            -1 <= r.year <= 65_600,
            self.in_range() ==> r.year == self.year && r.month == self.month && r.day
                == self.day && r.hour == self.hour && r.minute == self.minute && r.second
                == self.second && r.nanosecond == self.nanos(),
    {
        let nanos: u64 = match self.nanosecond {
            Some(n) => n as u64,
            None => 0,
        };
        let nanosecond: u64 = nanos % 1_000_000_000;
        let s: u64 = self.second as u64 + nanos / 1_000_000_000;
        let second: u64 = s % 60;
        let mi: u64 = self.minute as u64 + s / 60;
        let minute: u64 = mi % 60;
        let h: u64 = self.hour as u64 + mi / 60;
        let hour: u64 = h % 24;
        let mut day: u64 = self.day as u64 + h / 24;
        let mut year: i64 = self.year as i64;
        let mut month: u32 = self.month as u32;
        let ghost months: int = self.year * 12 + self.month - 1;
        if month == 0 {
            year = year - 1;
            month = 12;
        } else {
            year = year + ((month - 1) / 12) as i64;
            month = (month - 1) % 12 + 1;
        }
        assert(year * 12 + month - 1 == months);
        assert(months / 12 == year && months % 12 + 1 == month) by (nonlinear_arith)
            requires
                year * 12 + month - 1 == months,
                1 <= month <= 12,
        ;
        let ghost d1: int = days_from_epoch(year as int, month as int, 1) + self.day - 1;
        assert(self.carried_instant() == ((d1 * 86400 + self.hour * 3600 + self.minute * 60
            + self.second) * 1_000_000_000) + self.nanos());
        let ghost start: int = d1 + h / 24;
        if day == 0 {
            if month == 1 {
                year = year - 1;
                month = 12;
            } else {
                month = month - 1;
            }
            proof {
                lemma_next_month(year as int, month as int);
            }
            day = days_in_month(year, month) as u64;
        }
        assert(days_from_epoch(year as int, month as int, 1) + day - 1 == start);
        let ghost bound: int = 28 * (year * 12 + month) + day;
        let mut dim: u32 = days_in_month(year, month);
        while day > dim as u64
            invariant
                1 <= month <= 12,
                -1 <= year,
                28 * (year * 12 + month) + day <= bound,
                bound <= 28 * (65_557 * 12 + 12) + 300,
                dim == month_days(year as int, month as int),
                day >= 1,
                self.in_range() ==> year == self.year && month == self.month && day == self.day,
                days_from_epoch(year as int, month as int, 1) + day - 1 == start,
            decreases day,
        {
            proof {
                lemma_next_month(year as int, month as int);
            }
            day = day - dim as u64;
            if month == 12 {
                month = 1;
                year = year + 1;
            } else {
                month = month + 1;
            }
            dim = days_in_month(year, month);
        }
        let r = PhotoDateTime {
            year: year as i32,
            month,
            day: day as u32,
            hour: hour as u32,
            minute: minute as u32,
            second: second as u32,
            nanosecond: nanosecond as u32,
        };
        assert(nanos == (nanos / 1_000_000_000) * 1_000_000_000 + nanosecond);
        assert(s == (s / 60) * 60 + second);
        assert(mi == (mi / 60) * 60 + minute);
        assert(h == (h / 24) * 24 + hour);
        assert(r.epoch_seconds() == start * 86400 + hour * 3600 + minute * 60 + second);
        r
    }
}

/// The largest distance from the epoch, in seconds, that the conversions below accept.
pub const MAX_EPOCH_SECONDS: i64 = 8_200_000_000_000;

/// Relies on chrono's `DateTime::from_timestamp`: the UTC calendar fields of the
/// instant `secs` seconds and `nanos` nanoseconds after 1970-01-01T00:00:00.
#[verifier::external_body]
pub(crate) fn civil_from_epoch(secs: i64, nanos: u32) -> (r: Option<PhotoDateTime>)
    requires
        -MAX_EPOCH_SECONDS <= secs <= MAX_EPOCH_SECONDS,
        nanos < NANOS_PER_SECOND,
    ensures
        r is Some,
        r.unwrap().wf(),
        r.unwrap().epoch_seconds() == secs,
        r.unwrap().nanosecond == nanos,
{
    let d = chrono::DateTime::from_timestamp(secs, nanos)?.naive_utc();
    let (year, month, day) = (d.year(), d.month(), d.day());
    let (hour, minute, second, nanosecond) = (d.hour(), d.minute(), d.second(), d.nanosecond());
    Some(PhotoDateTime { year, month, day, hour, minute, second, nanosecond })
}

/// Relies on chrono's `NaiveDate::from_ymd_opt`, `NaiveDate::and_hms_opt` and
/// `DateTime::timestamp`: whole seconds from 1970-01-01T00:00:00 UTC to `d`.
#[verifier::external_body]
fn epoch_seconds_of(d: &PhotoDateTime) -> (r: Option<i64>)
    requires
        d.wf(),
    ensures
        r == Some(d.epoch_seconds() as i64),
{
    let date = chrono::NaiveDate::from_ymd_opt(d.year, d.month, d.day)?;
    Some(date.and_hms_opt(d.hour, d.minute, d.second)?.and_utc().timestamp())
}

pub proof fn lemma_days_before_month_bounds(y: int, m: int)
    requires
        1 <= m <= 13,
    ensures
        0 <= days_before_month(y, m) <= 31 * (m - 1),
    decreases m,
{
    if m > 1 {
        lemma_days_before_month_bounds(y, m - 1);
    }
}

/// Bounds on the seconds from the epoch for the years a camera can write.
pub proof fn lemma_epoch_seconds_bounds(d: PhotoDateTime)
    requires
        d.wf(),
        -1 <= d.year <= 70_000,
    ensures
        -100_000_000_000 <= d.epoch_seconds() <= 3_000_000_000_000,
{
    lemma_days_before_year_bounds(d.year as int);
    lemma_days_before_month_bounds(d.year as int, d.month as int);
}

impl PhotoDateTime {
    /// The date-time `delta` nanoseconds after this one.
    pub fn shifted(&self, delta: i64) -> (r: PhotoDateTime)
        requires
            self.wf(),
            -1 <= self.year <= 70_000,
            -10_000_000_000_000_000 <= delta <= 10_000_000_000_000_000,
        ensures
            r.wf(),
            r.instant() == self.instant() + delta,
    {
        proof {
            lemma_epoch_seconds_bounds(*self);
        }
        let secs: i64 = match epoch_seconds_of(self) {
            Some(s) => s,
            None => 0,
        };
        // Shift onto a non-negative scale so that the split into seconds and
        // nanoseconds uses unsigned division.
        let lift: u128 = 10_000_000_000_000;
        let total: u128 = ((secs as i128 + lift as i128) * 1_000_000_000 + self.nanosecond as i128
            + delta as i128) as u128;
        let whole: u128 = total / 1_000_000_000;
        let nanos: u128 = total % 1_000_000_000;
        let s: i64 = (whole as i128 - lift as i128) as i64;
        assert(total == whole * 1_000_000_000 + nanos);
        match civil_from_epoch(s, nanos as u32) {
            Some(r) => r,
            None => *self,
        }
    }
}

pub proof fn lemma_days_before_month_step(y: int, m1: int, m2: int)
    requires
        1 <= m1 < m2 <= 13,
    ensures
        days_before_month(y, m1) + month_days(y, m1) <= days_before_month(y, m2),
    decreases m2,
{
    if m2 > m1 + 1 {
        lemma_days_before_month_step(y, m1, m2 - 1);
    }
}

pub proof fn lemma_days_before_year_step(y1: int, y2: int)
    requires
        y1 < y2,
    ensures
        days_before_year(y1) + year_days(y1) <= days_before_year(y2),
    decreases y2 - y1,
{
    lemma_next_year(y1);
    if y2 > y1 + 1 {
        lemma_days_before_year_step(y1 + 1, y2);
        lemma_next_year(y1 + 1);
    }
}

/// Field-by-field order of two date-times, year first.
pub open spec fn fields_precede(a: PhotoDateTime, b: PhotoDateTime) -> bool {
    if a.year != b.year {
        a.year < b.year
    } else if a.month != b.month {
        a.month < b.month
    } else if a.day != b.day {
        a.day < b.day
    } else if a.hour != b.hour {
        a.hour < b.hour
    } else if a.minute != b.minute {
        a.minute < b.minute
    } else if a.second != b.second {
        a.second < b.second
    } else {
        a.nanosecond < b.nanosecond
    }
}

/// On valid date-times the field order is the order in time.
pub proof fn lemma_fields_precede_is_earlier(a: PhotoDateTime, b: PhotoDateTime)
    requires
        a.wf(),
        b.wf(),
        fields_precede(a, b),
    ensures
        a.instant() < b.instant(),
{
    let da = days_from_epoch(a.year as int, a.month as int, a.day as int);
    let db = days_from_epoch(b.year as int, b.month as int, b.day as int);
    lemma_next_year(a.year as int);
    lemma_days_before_month_bounds(b.year as int, b.month as int);
    if a.year != b.year {
        lemma_days_before_year_step(a.year as int, b.year as int);
        if a.month < 12 {
            lemma_days_before_month_step(a.year as int, a.month as int, 13);
        }
        assert(da < db);
    } else if a.month != b.month {
        lemma_days_before_month_step(a.year as int, a.month as int, b.month as int);
        assert(da < db);
    }
    if da < db {
        assert((da + 1) * 86400 <= db * 86400);
    }
}

/// A valid date-time is determined by its instant.
pub proof fn instant_determines_date_time(a: PhotoDateTime, b: PhotoDateTime)
    requires
        a.wf(),
        b.wf(),
        a.instant() == b.instant(),
    ensures
        a == b,
{
    if fields_precede(a, b) {
        lemma_fields_precede_is_earlier(a, b);
    } else if fields_precede(b, a) {
        lemma_fields_precede_is_earlier(b, a);
    }
}

/// Whether `a` is earlier than `b`.
pub fn is_earlier(a: &PhotoDateTime, b: &PhotoDateTime) -> (r: bool)
    requires
        a.wf(),
        b.wf(),
    ensures
        r == (a.instant() < b.instant()),
{
    let r = if a.year != b.year {
        a.year < b.year
    } else if a.month != b.month {
        a.month < b.month
    } else if a.day != b.day {
        a.day < b.day
    } else if a.hour != b.hour {
        a.hour < b.hour
    } else if a.minute != b.minute {
        a.minute < b.minute
    } else if a.second != b.second {
        a.second < b.second
    } else {
        a.nanosecond < b.nanosecond
    };
    proof {
        if r {
            lemma_fields_precede_is_earlier(*a, *b);
        } else if fields_precede(*b, *a) {
            lemma_fields_precede_is_earlier(*b, *a);
        } else {
            assert(*a == *b);
        }
    }
    r
}

} // verus!
