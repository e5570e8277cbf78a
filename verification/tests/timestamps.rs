use chrono::{NaiveDate, NaiveTime};
use yblp::timestamp::{Timestamp, TimestampWithoutYear, MAX_YEAR, MIN_YEAR};

fn years() -> Vec<i32> {
    vec![
        i32::MIN,
        MIN_YEAR - 1,
        MIN_YEAR,
        -401,
        -400,
        -100,
        -4,
        -1,
        0,
        1,
        4,
        100,
        400,
        1900,
        1999,
        2000,
        2020,
        2021,
        2024,
        2100,
        MAX_YEAR,
        MAX_YEAR + 1,
        i32::MAX,
    ]
}

#[test]
fn dates_exist_where_the_calendar_has_them() {
    for year in years() {
        for month in 0..=13u8 {
            for day in 0..=32u8 {
                let ours = Timestamp::new(year, month, day, 0, 0, 0, 0);
                let theirs = NaiveDate::from_ymd_opt(year, month as u32, day as u32);
                assert_eq!(ours.is_some(), theirs.is_some(), "{}-{}-{}", year, month, day);
                if let Some(t) = ours {
                    assert_eq!((t.year, t.month, t.day), (year, month, day));
                }
            }
        }
    }
}

#[test]
fn the_bounds_of_the_years_are_those_of_the_calendar() {
    assert_eq!(NaiveDate::MIN, NaiveDate::from_ymd_opt(MIN_YEAR, 1, 1).unwrap());
    assert_eq!(NaiveDate::MAX, NaiveDate::from_ymd_opt(MAX_YEAR, 12, 31).unwrap());
    assert!(Timestamp::midnight(MIN_YEAR, 1, 1).is_some());
    assert!(Timestamp::midnight(MIN_YEAR - 1, 12, 31).is_none());
    assert!(Timestamp::midnight(MAX_YEAR, 12, 31).is_some());
    assert!(Timestamp::midnight(MAX_YEAR + 1, 1, 1).is_none());
}

#[test]
fn times_exist_where_the_clock_has_them() {
    for hour in [0u8, 1, 12, 23, 24, 25, 99, 255] {
        for minute in [0u8, 1, 30, 59, 60, 61, 99, 255] {
            for second in [0u8, 1, 58, 59, 60, 61, 99, 255] {
                for micro in [0u32, 1, 999_999] {
                    let ours = Timestamp::new(2021, 4, 8, hour, minute, second, micro);
                    let theirs = NaiveTime::from_hms_micro_opt(
                        hour as u32,
                        minute as u32,
                        second as u32,
                        micro,
                    );
                    assert_eq!(ours.is_some(), theirs.is_some());
                    assert_eq!(ours.is_some(), hour < 24 && minute < 60 && second < 60);
                }
            }
        }
    }
}

#[test]
fn a_leap_second_is_no_moment() {
    assert!(NaiveTime::from_hms_micro_opt(23, 59, 59, 1_000_000).is_some());
    assert_eq!(Timestamp::new(2021, 4, 8, 23, 59, 59, 1_000_000), None);
    assert_eq!(Timestamp::new(2021, 4, 8, 23, 59, 59, 1_999_999), None);
    assert_eq!(Timestamp::new(2021, 4, 8, 23, 59, 58, 1_000_000), None);
    assert_eq!(Timestamp::new(2021, 4, 8, 0, 0, 0, u32::MAX), None);
    assert!(Timestamp::new(2021, 4, 8, 23, 59, 59, 999_999).is_some());
}

#[test]
fn midnight_is_the_start_of_the_day() {
    assert_eq!(
        Timestamp::midnight(2021, 4, 8),
        Some(Timestamp {
            year: 2021,
            month: 4,
            day: 8,
            hour: 0,
            minute: 0,
            second: 0,
            microsecond: 0
        })
    );
    assert_eq!(Timestamp::midnight(2021, 4, 31), None);
}

fn moments() -> Vec<Timestamp> {
    let mut all = Vec::new();
    for year in [-5, 0, 1999, 2020, 2021] {
        for (month, day) in [(1u8, 1u8), (2, 28), (4, 8), (12, 31)] {
            for (hour, minute, second, micro) in
                [(0u8, 0u8, 0u8, 0u32), (0, 0, 0, 1), (10, 34, 43, 355123), (23, 59, 59, 999_999)]
            {
                all.push(Timestamp::new(year, month, day, hour, minute, second, micro).unwrap());
            }
        }
    }
    all
}

fn in_chrono(t: &Timestamp) -> chrono::NaiveDateTime {
    NaiveDate::from_ymd_opt(t.year, t.month as u32, t.day as u32)
        .unwrap()
        .and_hms_micro_opt(t.hour as u32, t.minute as u32, t.second as u32, t.microsecond)
        .unwrap()
}

#[test]
fn the_order_of_timestamps_is_the_order_of_time() {
    let all = moments();
    for a in &all {
        for b in &all {
            assert_eq!(a.is_before(b), in_chrono(a) < in_chrono(b));
            assert_eq!(a.is_after(b), in_chrono(a) > in_chrono(b));
            assert_eq!(a.sort_key() < b.sort_key(), in_chrono(a) < in_chrono(b));
            assert_eq!(a.sort_key() == b.sort_key(), a == b);
            assert_eq!(a < b, a.is_before(b));
        }
    }
}

#[test]
fn sort_key_is_the_stated_number() {
    let t = Timestamp { year: 1, month: 2, day: 3, hour: 4, minute: 5, second: 6, microsecond: 7 };
    let expected: i128 =
        (((((1i128 * 256 + 2) * 256 + 3) * 256 + 4) * 256 + 5) * 256 + 6) * 4294967296 + 7;
    assert_eq!(t.sort_key(), expected);
    let t = Timestamp { year: -1, month: 0, day: 0, hour: 0, minute: 0, second: 0, microsecond: 0 };
    assert_eq!(t.sort_key(), -(1i128 << 72));
    let t = Timestamp {
        year: i32::MAX,
        month: 255,
        day: 255,
        hour: 255,
        minute: 255,
        second: 255,
        microsecond: u32::MAX,
    };
    assert_eq!(t.sort_key(), ((i32::MAX as i128 + 1) << 72) - 1);
    let t = Timestamp {
        year: i32::MIN,
        month: 0,
        day: 0,
        hour: 0,
        minute: 0,
        second: 0,
        microsecond: 0,
    };
    assert_eq!(t.sort_key(), (i32::MIN as i128) << 72);
}

#[test]
fn with_year_places_the_line_in_the_year() {
    let partial = TimestampWithoutYear {
        month: 2,
        day: 29,
        hour: 10,
        minute: 34,
        second: 43,
        microsecond: 355123,
    };
    assert_eq!(
        partial.with_year(2020),
        Some(Timestamp {
            year: 2020,
            month: 2,
            day: 29,
            hour: 10,
            minute: 34,
            second: 43,
            microsecond: 355123
        })
    );
    assert_eq!(partial.with_year(2021), None);
    assert_eq!(partial.with_year(MAX_YEAR + 1), None);
}
