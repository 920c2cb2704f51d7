use chrono::{Datelike, TimeZone, Timelike};
use pyscman::moment::Moment;

fn moment(secs: i64, nanos: u32, offset: i32) -> Moment {
    Moment::new(secs, nanos, offset).unwrap()
}

#[test]
fn parts_out_of_range_make_no_moment() {
    assert!(Moment::new(0, 0, 0).is_some());
    assert!(Moment::new(0, 2_000_000_000, 0).is_none());
    assert!(Moment::new(58, 1_000_000_000, 0).is_none());
    assert!(Moment::new(59, 1_000_000_000, 0).is_some());
    assert!(Moment::new(-1, 1_500_000_000, 0).is_some());
    assert!(Moment::new(0, 0, 86_400).is_none());
    assert!(Moment::new(0, 0, -86_400).is_none());
    assert!(Moment::new(8_210_266_876_799, 0, 0).is_some());
    assert!(Moment::new(8_210_266_876_800, 0, 0).is_none());
    assert!(Moment::new(-8_334_601_228_800, 0, 0).is_some());
    assert!(Moment::new(-8_334_601_228_801, 0, 0).is_none());
}

#[test]
fn moments_are_those_of_chrono() {
    let cases = [
        (0, 0),
        (58, 1_000_000_000),
        (59, 1_999_999_999),
        (-1, 1_000_000_000),
        (-2, 1_000_000_000),
        (59, 2_000_000_000),
        (8_210_266_876_799, 999_999_999),
        (8_210_266_876_800, 0),
        (-8_334_601_228_800, 0),
        (-8_334_601_228_801, 0),
    ];
    for (secs, nanos) in cases {
        let known = chrono::DateTime::from_timestamp(secs, nanos).is_some();
        assert_eq!(Moment::new(secs, nanos, 0).is_some(), known, "{} {}", secs, nanos);
    }
}

#[test]
fn the_clock_and_calendar_show_the_local_time() {
    // 2024-02-29T22:45:10Z, a Thursday; an hour and a half later it is March.
    let utc = moment(1_709_246_710, 0, 0).slot();
    assert_eq!((utc.minute, utc.hour, utc.day, utc.month, utc.weekday), (45, 22, 29, 2, 4));
    let local = moment(1_709_246_710, 0, 5_400).slot();
    assert_eq!((local.minute, local.hour, local.day, local.month, local.weekday), (15, 0, 1, 3, 5));
}

fn civil(day: i64) -> (i64, i64, i64) {
    let leap = |y: i64| y.rem_euclid(4) == 0 && (y.rem_euclid(100) != 0 || y.rem_euclid(400) == 0);
    let before_year = |y: i64| {
        let z = y - 1;
        365 * z + z.div_euclid(4) - z.div_euclid(100) + z.div_euclid(400) - 719_162
    };
    let mut year = 1970 + day.div_euclid(366);
    while before_year(year) > day {
        year -= 1;
    }
    while before_year(year + 1) <= day {
        year += 1;
    }
    let mut rest = day - before_year(year);
    let february = if leap(year) { 29 } else { 28 };
    let lengths = [31, february, 31, 30, 31, 30, 31, 31, 30, 31, 30, 31];
    let mut month = 0;
    while rest >= lengths[month] {
        rest -= lengths[month];
        month += 1;
    }
    (year, month as i64 + 1, rest + 1)
}

#[test]
fn the_calendar_is_the_gregorian_one() {
    let mut secs: i64 = -70_000_000_000;
    while secs < 70_000_000_000 {
        let offset = (secs % 86_000) as i32;
        let local = secs + offset as i64;
        let slot = moment(secs, 0, offset).slot();
        let (_, month, day) = civil(local.div_euclid(86_400));
        assert_eq!(slot.minute as i64, local.div_euclid(60).rem_euclid(60));
        assert_eq!(slot.hour as i64, local.div_euclid(3_600).rem_euclid(24));
        assert_eq!(slot.day as i64, day);
        assert_eq!(slot.month as i64, month);
        assert_eq!(slot.weekday as i64, (local.div_euclid(86_400) + 4).rem_euclid(7));
        secs += 77_777_777;
    }
}

#[test]
fn the_calendar_holds_at_the_ends_of_time() {
    for (secs, offset) in [
        (-8_334_601_228_800, -86_399),
        (-8_334_601_228_800, 0),
        (8_210_266_876_799, 86_399),
        (8_210_266_876_799, 0),
    ] {
        let local = secs + offset as i64;
        let slot = moment(secs, 0, offset).slot();
        let day_number = local.div_euclid(86_400);
        // 400 years are a whole number of weeks and bring back every date.
        let cycle = 146_097;
        let (_, month, day) = civil(day_number.rem_euclid(cycle));
        assert_eq!((slot.month as i64, slot.day as i64), (month, day));
        assert_eq!(slot.weekday as i64, (day_number + 4).rem_euclid(7));
        assert_eq!(slot.hour as i64, local.div_euclid(3_600).rem_euclid(24));
        assert_eq!(slot.minute as i64, local.div_euclid(60).rem_euclid(60));
    }
}

#[test]
fn time_between_moments_is_measured() {
    let start = moment(1_000, 500_000_000, 0);
    assert!(moment(1_010, 500_000_000, 3_600).is_later_by(&start, 10));
    assert!(!moment(1_010, 499_999_999, 0).is_later_by(&start, 10));
    assert!(moment(1_010, 0, 0).is_later_by(&start, 9));
    assert!(start.is_later_by(&start, 0));
    assert!(!moment(1_000, 0, 0).is_later_by(&start, 0));
    assert!(!moment(999, 500_000_000, 0).is_later_by(&start, 0));
    assert!(!moment(1_010, 0, 0).is_later_by(&start, u64::MAX));
    assert!(!moment(1_010, 0, 0).is_later_by(&start, 1 << 63));
}

#[test]
fn a_leap_second_counts_between_times_of_day() {
    let cases = [
        ((3_700, 0), (3_599, 1_500_000_000)),
        ((3_599, 1_500_000_000), (3_599, 0)),
        ((3_599, 1_500_000_000), (3_700, 0)),
        ((3_599, 1_500_000_000), (100, 0)),
        ((90_000, 0), (86_399, 1_500_000_000)),
        ((86_400, 0), (86_399, 1_900_000_000)),
    ];
    for (a, b) in cases {
        let day = 86_400i64;
        let leap: i64 = if a.0 % day > b.0 % day && b.1 >= 1_000_000_000 {
            1
        } else if a.0 % day < b.0 % day && a.1 >= 1_000_000_000 {
            -1
        } else {
            0
        };
        let nanos = (a.0 - b.0 + leap) * 1_000_000_000 + a.1 as i64 - b.1 as i64;
        let later = moment(a.0, a.1, 0);
        let earlier = moment(b.0, b.1, 0);
        for secs in 0..4_000u64 {
            assert_eq!(later.is_later_by(&earlier, secs), nanos >= secs as i64 * 1_000_000_000);
        }
    }
}

#[test]
fn an_interval_once_over_stays_over() {
    let start = moment(500, 0, 0);
    assert!(!moment(559, 999_999_999, 0).is_later_by(&start, 60));
    for later in 560..700 {
        assert!(moment(later, 0, 0).is_later_by(&start, 60));
    }
}

#[test]
fn moments_are_written_as_rfc_3339_has_them() {
    assert_eq!(moment(0, 0, 0).to_text(), "1970-01-01T00:00:00Z");
    assert_eq!(moment(0, 0, 7_200).to_text(), "1970-01-01T02:00:00+02:00");
    assert_eq!(moment(1_709_246_710, 120_000_000, -3_600).to_text(), "2024-02-29T21:45:10.120-01:00");
    assert_eq!(moment(0, 1, 0).to_text(), "1970-01-01T00:00:00.000000001Z");
}

#[test]
fn moments_are_written_as_serde_writes_them() {
    for (secs, nanos, offset) in [(0, 0, 0), (1_709_246_710, 1_000, 5_400), (59, 1_250_000_000, -60)] {
        let at = chrono::FixedOffset::east_opt(offset).unwrap().timestamp_opt(secs, nanos).unwrap();
        let text = serde_json::to_value(at).unwrap();
        assert_eq!(text, serde_json::Value::String(moment(secs, nanos, offset).to_text()));
    }
}

#[test]
fn a_moment_beyond_the_last_local_year_cannot_be_written() {
    assert!(moment(8_210_266_876_799, 0, 0).writable());
    assert!(!moment(8_210_266_876_799, 0, 1).writable());
    assert!(!moment(-8_334_601_228_800, 0, -1).writable());
}

#[test]
fn the_clock_of_the_machine_is_read() {
    let before = chrono::Local::now();
    let now = Moment::now();
    let after = chrono::Local::now();
    assert!(before.timestamp() <= now.secs() && now.secs() <= after.timestamp());
    assert!(now.nanos() < 1_000_000_000);
    assert_eq!(now.offset(), after.offset().local_minus_utc());
    if before.minute() == after.minute() {
        let slot = now.slot();
        assert_eq!(slot.minute, before.minute());
        assert_eq!(slot.hour, before.hour());
        assert_eq!(slot.day, before.day());
        assert_eq!(slot.month, before.month());
        assert_eq!(slot.weekday, before.weekday().num_days_from_sunday());
    }
}

#[test]
fn the_week_begins_on_sunday() {
    // 1970-01-04 was a Sunday.
    for day in 0..14 {
        assert_eq!(moment((3 + day) * 86_400, 0, 0).slot().weekday as i64, day % 7);
    }
}
