//! Timestamps: the year-less one that a log line carries, and the absolute one
//! that it becomes once the year of its file is known.
//!
//! Whether a date or a time of day exists is asked of `chrono`; the library keeps
//! the fields themselves, so that contracts can speak of them.

use chrono::{NaiveDate, NaiveTime};
use vstd::prelude::*;

verus! {

/// `chrono::NaiveDate`: a day of the calendar. The library asks only whether
/// there is one, and never looks into it.
#[verifier::external_type_specification]
#[verifier::external_body]
pub struct ExNaiveDate(NaiveDate);

/// `chrono::NaiveTime`: a time of day. The library asks only whether there is
/// one, and never looks into it.
#[verifier::external_type_specification]
#[verifier::external_body]
pub struct ExNaiveTime(NaiveTime);

/// The first year that `chrono` has dates for.
pub const MIN_YEAR: i32 = -262143;

/// The last year that `chrono` has dates for.
pub const MAX_YEAR: i32 = 262142;

/// Leap years of the proleptic Gregorian calendar.
pub open spec fn is_leap_year(year: int) -> bool {
    year % 4 == 0 && (year % 100 != 0 || year % 400 == 0)
}

/// The number of days of a month; 0 for a month that does not exist.
pub open spec fn days_in_month(year: int, month: int) -> int {
    if month == 2 {
        if is_leap_year(year) {
            29
        } else {
            28
        }
    } else if month == 4 || month == 6 || month == 9 || month == 11 {
        30
    } else if 1 <= month <= 12 {
        31
    } else {
        0
    }
}

/// Whether the day exists in the calendar, in a year that `chrono` can hold.
pub open spec fn is_calendar_date(year: int, month: int, day: int) -> bool {
    MIN_YEAR <= year <= MAX_YEAR && 1 <= month <= 12 && 1 <= day <= days_in_month(year, month)
}

/// Whether `chrono` takes the four numbers for a time of day. It lets the
/// microseconds run into a second million in the last second of a minute, which
/// is how it writes a leap second.
pub open spec fn is_clock_reading(hour: int, minute: int, second: int, microsecond: int) -> bool {
    0 <= hour < 24 && 0 <= minute < 60 && 0 <= second < 60 && 0 <= microsecond < 2_000_000 && (
    microsecond < 1_000_000 || second == 59)
}

/// `NaiveDate::from_ymd_opt` gives a date exactly for the days that exist in the
/// proleptic Gregorian calendar between `MIN_YEAR` and `MAX_YEAR`.
pub assume_specification[ NaiveDate::from_ymd_opt ](year: i32, month: u32, day: u32) -> (date:
    Option<NaiveDate>)
    ensures
        date.is_some() == is_calendar_date(year as int, month as int, day as int),
;

/// `NaiveTime::from_hms_micro_opt` gives a time exactly for the readings that
/// `is_clock_reading` describes.
pub assume_specification[ NaiveTime::from_hms_micro_opt ](
    hour: u32,
    min: u32,
    sec: u32,
    micro: u32,
) -> (time: Option<NaiveTime>)
    ensures
        time.is_some() == is_clock_reading(hour as int, min as int, sec as int, micro as int),
;

/// A point in time, to the microsecond, without a time zone.
#[derive(Clone, Copy, Debug, PartialEq, Eq, Structural, PartialOrd, Ord, Hash)]
pub struct Timestamp {
    pub year: i32,
    pub month: u8,
    pub day: u8,
    pub hour: u8,
    pub minute: u8,
    pub second: u8,
    pub microsecond: u32,
}

/// What a log line says of its time: everything but the year.
#[derive(Clone, Copy, Debug, PartialEq, Eq, Structural, PartialOrd, Ord, Hash)]
pub struct TimestampWithoutYear {
    pub month: u8,
    pub day: u8,
    pub hour: u8,
    pub minute: u8,
    pub second: u8,
    pub microsecond: u32,
}

/// Whether the seven numbers name a moment: a day of the calendar and a time of
/// day, without a leap second.
pub open spec fn is_moment(
    year: int,
    month: int,
    day: int,
    hour: int,
    minute: int,
    second: int,
    microsecond: int,
) -> bool {
    is_calendar_date(year, month, day) && 0 <= hour < 24 && 0 <= minute < 60 && 0 <= second < 60
        && 0 <= microsecond < 1_000_000
}

/// The timestamp of the seven fields, where they name a moment.
pub open spec fn moment(
    year: i32,
    month: u8,
    day: u8,
    hour: u8,
    minute: u8,
    second: u8,
    microsecond: u32,
) -> Option<Timestamp> {
    if is_moment(
        year as int,
        month as int,
        day as int,
        hour as int,
        minute as int,
        second as int,
        microsecond as int,
    ) {
        Some(Timestamp { year, month, day, hour, minute, second, microsecond })
    } else {
        None
    }
}

impl Timestamp {
    /// A number that orders timestamps as the tuple (year, month, day, hour,
    /// minute, second, microsecond) orders them, which is their order in time.
    pub open spec fn ordinal(self) -> int {
        (((((self.year * 256 + self.month) * 256 + self.day) * 256 + self.hour) * 256
            + self.minute) * 256 + self.second) * 4294967296 + self.microsecond
    }

    /// The timestamp of the given fields, where they name a moment.
    pub fn new(
        year: i32,
        month: u8,
        day: u8,
        hour: u8,
        minute: u8,
        second: u8,
        microsecond: u32,
    ) -> (t: Option<Timestamp>)
        ensures
            t == moment(year, month, day, hour, minute, second, microsecond),
    {
        if microsecond >= 1_000_000 {
            return None;
        }
        let date = NaiveDate::from_ymd_opt(year, month as u32, day as u32);
        let time = NaiveTime::from_hms_micro_opt(
            hour as u32,
            minute as u32,
            second as u32,
            microsecond,
        );
        if date.is_some() && time.is_some() {
            Some(Timestamp { year, month, day, hour, minute, second, microsecond })
        } else {
            None
        }
    }

    /// Midnight at the start of the given day, where the day exists.
    pub fn midnight(year: i32, month: u8, day: u8) -> (t: Option<Timestamp>)
        ensures
            t == moment(year, month, day, 0, 0, 0, 0),
    {
        Timestamp::new(year, month, day, 0, 0, 0, 0)
    }

    /// What a log line says of this moment: everything but the year.
    pub open spec fn without_year(self) -> TimestampWithoutYear {
        TimestampWithoutYear {
            month: self.month,
            day: self.day,
            hour: self.hour,
            minute: self.minute,
            second: self.second,
            microsecond: self.microsecond,
        }
    }

    /// What a log line says of this moment: everything but the year.
    pub fn drop_year(&self) -> (t: TimestampWithoutYear)
        ensures
            t == self.without_year(),
    {
        TimestampWithoutYear {
            month: self.month,
            day: self.day,
            hour: self.hour,
            minute: self.minute,
            second: self.second,
            microsecond: self.microsecond,
        }
    }

    /// The timestamp's place in the order of time, as a number.
    pub fn sort_key(&self) -> (k: i128)
        ensures
            k as int == self.ordinal(),
    {
        let date: i128 = (self.year as i128 * 256 + self.month as i128) * 256 + self.day as i128;
        let time: i128 = (self.hour as i128 * 256 + self.minute as i128) * 256
            + self.second as i128;
        (date * 16777216 + time) * 4294967296 + self.microsecond as i128
    }

    /// Whether `self` is earlier than `other`.
    pub fn is_before(&self, other: &Timestamp) -> (b: bool)
        ensures
            b == (self.ordinal() < other.ordinal()),
    {
        self.sort_key() < other.sort_key()
    }

    /// Whether `self` is later than `other`.
    pub fn is_after(&self, other: &Timestamp) -> (b: bool)
        ensures
            b == (self.ordinal() > other.ordinal()),
    {
        self.sort_key() > other.sort_key()
    }
}

/// Timestamps are ordered as their fields are, the year first and the
/// microsecond last; two with the same place in the order are the same.
pub proof fn lemma_ordinal_is_lexicographic(a: Timestamp, b: Timestamp)
    ensures
        a.ordinal() < b.ordinal() <==> (a.year < b.year || (a.year == b.year && (a.month < b.month
            || (a.month == b.month && (a.day < b.day || (a.day == b.day && (a.hour < b.hour || (
        a.hour == b.hour && (a.minute < b.minute || (a.minute == b.minute && (a.second < b.second
            || (a.second == b.second && a.microsecond < b.microsecond)))))))))))),
        a.ordinal() == b.ordinal() <==> a == b,
{
}

/// A timestamp that names a moment in some year shows numbers that a calendar
/// and a clock can show.
pub proof fn lemma_moments_are_in_bounds(t: TimestampWithoutYear, year: i32)
    requires
        t.in_year(year) is Some,
    ensures
        t.in_bounds(),
        t.in_year(year).unwrap().without_year() == t,
        t.in_year(year).unwrap().year == year,
{
}

/// The place of a timestamp in the order of time fits in 128 bits.
pub proof fn lemma_ordinal_fits(t: Timestamp)
    ensures
        i128::MIN <= t.ordinal() <= i128::MAX,
{
}

impl TimestampWithoutYear {
    /// Whether every number is one that a calendar or a clock can show: the
    /// month from 1 to 12, the day from 1 to 31, the hour up to 23, minute and
    /// second up to 59, and the microseconds below a million. Whether the day
    /// exists is another matter: that depends on the year.
    pub open spec fn in_bounds(self) -> bool {
        &&& 1 <= self.month <= 12
        &&& 1 <= self.day <= 31
        &&& self.hour <= 23
        &&& self.minute <= 59
        &&& self.second <= 59
        &&& self.microsecond <= 999_999
    }

    /// Decides whether every number is one that a calendar or a clock can show.
    pub fn is_in_bounds(&self) -> (b: bool)
        ensures
            b == self.in_bounds(),
    {
        1 <= self.month && self.month <= 12 && 1 <= self.day && self.day <= 31 && self.hour <= 23
            && self.minute <= 59 && self.second <= 59 && self.microsecond <= 999_999
    }

    /// The absolute timestamp in the given year; `None` where that year has no
    /// such day, or the day no such time.
    pub fn with_year(&self, year: i32) -> (t: Option<Timestamp>)
        ensures
            t == self.in_year(year),
    {
        Timestamp::new(
            year,
            self.month,
            self.day,
            self.hour,
            self.minute,
            self.second,
            self.microsecond,
        )
    }

    /// The absolute timestamp in the given year, as a value.
    pub open spec fn in_year(self, year: i32) -> Option<Timestamp> {
        moment(year, self.month, self.day, self.hour, self.minute, self.second, self.microsecond)
    }
}

} // verus!
