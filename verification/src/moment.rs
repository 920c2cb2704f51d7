//! Points in time together with the offset of the local clock, and what a calendar says of them.

use chrono::{Datelike, TimeZone, Timelike};
use vstd::prelude::*;

verus! {

/// The seconds since 1970-01-01T00:00:00Z at which the first representable year begins.
pub const FIRST_SECOND: i64 = -8_334_601_228_800;

/// The seconds since 1970-01-01T00:00:00Z at which the last representable year ends.
pub const LAST_SECOND: i64 = 8_210_266_876_799;

/// Whether there is a moment of these parts: `secs` since 1970-01-01T00:00:00Z, `nanos` behind
/// that second, and a local clock that is `offset` seconds ahead. A leap second is told by
/// `nanos` past the whole second, at the end of a minute.
pub open spec fn is_moment(secs: int, nanos: int, offset: int) -> bool {
    &&& FIRST_SECOND <= secs <= LAST_SECOND
    &&& 0 <= nanos < 2_000_000_000
    &&& nanos >= 1_000_000_000 ==> secs % 60 == 59
    &&& -86_400 < offset < 86_400
}

/// A day of the calendar.
pub ghost struct Date {
    pub year: int,
    pub month: int,
    pub day: int,
}

/// Whether `year` has a 29th of February.
pub open spec fn is_leap_year(year: int) -> bool {
    year % 4 == 0 && (year % 100 != 0 || year % 400 == 0)
}

/// The number of days of a month.
pub open spec fn days_in_month(year: int, month: int) -> int {
    if month == 2 {
        if is_leap_year(year) {
            29
        } else {
            28
        }
    } else if month == 4 || month == 6 || month == 9 || month == 11 {
        30
    } else {
        31
    }
}

/// Whether the calendar has this day.
pub open spec fn is_date(date: Date) -> bool {
    1 <= date.month <= 12 && 1 <= date.day <= days_in_month(date.year, date.month)
}

/// The days of the months of `year` before `month`.
pub open spec fn days_before_month(year: int, month: int) -> int
    decreases month,
{
    if month <= 1 {
        0
    } else {
        days_before_month(year, month - 1) + days_in_month(year, month - 1)
    }
}

/// The days from the first day of the year 1 to the first day of `year`.
pub open spec fn days_before_year(year: int) -> int {
    365 * (year - 1) + (year - 1) / 4 - (year - 1) / 100 + (year - 1) / 400
}

/// The days from 1970-01-01 to `date`.
pub open spec fn epoch_day(date: Date) -> int {
    days_before_year(date.year) + days_before_month(date.year, date.month) + date.day - 1 - 719_162
}

/// The date that is `day` days behind 1970-01-01.
pub open spec fn date_of(day: int) -> Date {
    choose|date: Date| is_date(date) && epoch_day(date) == day
}

/// The nanoseconds by which the moment `a` is later than the moment `b`, each given by its
/// `secs` and `nanos`. A leap second counts where it lies between their times of day.
pub open spec fn nanos_since(a: (int, int), b: (int, int)) -> int {
    let leap = if a.0 % 86_400 > b.0 % 86_400 && b.1 >= 1_000_000_000 {
        1
    } else if a.0 % 86_400 < b.0 % 86_400 && a.1 >= 1_000_000_000 {
        -1
    } else {
        0int
    };
    (a.0 - b.0 + leap) * 1_000_000_000 + a.1 - b.1
}

/// What `to_rfc3339_opts` of `chrono` writes of the moment of these parts, with as many digits
/// of the second as it needs and `Z` for the offset 0.
pub uninterp spec fn rfc3339(secs: int, nanos: int, offset: int) -> Seq<char>;

/// `Timelike::minute` of a `chrono` date and time: the minute of the local clock.
#[verifier::external_body]
fn chrono_minute(secs: i64, nanos: u32, offset: i32) -> (r: u32)
    requires
        is_moment(secs as int, nanos as int, offset as int),
    ensures
        r == (secs + offset) / 60 % 60,
{
    chrono::FixedOffset::east_opt(offset).unwrap().timestamp_opt(secs, nanos).unwrap().minute()
}

/// `Timelike::hour` of a `chrono` date and time: the hour of the local clock.
#[verifier::external_body]
fn chrono_hour(secs: i64, nanos: u32, offset: i32) -> (r: u32)
    requires
        is_moment(secs as int, nanos as int, offset as int),
    ensures
        r == (secs + offset) / 3_600 % 24,
{
    chrono::FixedOffset::east_opt(offset).unwrap().timestamp_opt(secs, nanos).unwrap().hour()
}

/// `Datelike::day` of a `chrono` date and time: the day of the month in the local calendar.
#[verifier::external_body]
fn chrono_day(secs: i64, nanos: u32, offset: i32) -> (r: u32)
    requires
        is_moment(secs as int, nanos as int, offset as int),
    ensures
        r == date_of((secs + offset) / 86_400).day,
{
    chrono::FixedOffset::east_opt(offset).unwrap().timestamp_opt(secs, nanos).unwrap().day()
}

/// `Datelike::month` of a `chrono` date and time: the month in the local calendar, from 1.
#[verifier::external_body]
fn chrono_month(secs: i64, nanos: u32, offset: i32) -> (r: u32)
    requires
        is_moment(secs as int, nanos as int, offset as int),
    ensures
        r == date_of((secs + offset) / 86_400).month,
{
    chrono::FixedOffset::east_opt(offset).unwrap().timestamp_opt(secs, nanos).unwrap().month()
}

/// `Datelike::weekday` of a `chrono` date and time, as `num_days_from_sunday` counts it: the
/// days that have gone by since Sunday. The first day of 1970 was a Thursday.
#[verifier::external_body]
fn chrono_weekday(secs: i64, nanos: u32, offset: i32) -> (r: u32)
    requires
        is_moment(secs as int, nanos as int, offset as int),
    ensures
        r == ((secs + offset) / 86_400 + 4) % 7,
{
    let at = chrono::FixedOffset::east_opt(offset).unwrap().timestamp_opt(secs, nanos).unwrap();
    at.weekday().num_days_from_sunday()
}

/// `signed_duration_since` of two `chrono` dates and times, `a` and `b`, each given by its
/// `secs` and `nanos`: the time from `b` to `a`, as whole seconds and the nanoseconds left.
#[verifier::external_body]
fn chrono_since(a: (i64, u32), b: (i64, u32)) -> (r: (i64, i32))
    requires
        is_moment(a.0 as int, a.1 as int, 0),
        is_moment(b.0 as int, b.1 as int, 0),
    ensures
        r.0 * 1_000_000_000 + r.1 == nanos_since((a.0 as int, a.1 as int), (b.0 as int, b.1 as int)),
        -1_000_000_000 < r.1 < 1_000_000_000,
{
    let later = chrono::Utc.timestamp_opt(a.0, a.1).unwrap();
    let delta = later.signed_duration_since(chrono::Utc.timestamp_opt(b.0, b.1).unwrap());
    (delta.num_seconds(), delta.subsec_nanos())
}

/// `to_rfc3339_opts` of a `chrono` date and time: the text that stands for it. It exists where
/// the local clock, too, shows a representable year.
#[verifier::external_body]
fn chrono_rfc3339(secs: i64, nanos: u32, offset: i32) -> (r: String)
    requires
        is_moment(secs as int, nanos as int, offset as int),
        FIRST_SECOND <= secs + offset <= LAST_SECOND,
    ensures
        r@ == rfc3339(secs as int, nanos as int, offset as int),
{
    let at = chrono::FixedOffset::east_opt(offset).unwrap().timestamp_opt(secs, nanos).unwrap();
    at.to_rfc3339_opts(chrono::SecondsFormat::AutoSi, true)
}

/// `Local::now` of `chrono`: what the clock of this machine shows. Of the reading nothing is
/// known but that it is a moment, not before 1970 and not within a leap second.
#[verifier::external_body]
fn chrono_now() -> (r: (i64, u32, i32))
    ensures
        is_moment(r.0 as int, r.1 as int, r.2 as int),
        r.0 >= 0,
        r.1 < 1_000_000_000,
{
    let now = chrono::Local::now();
    (now.timestamp(), now.timestamp_subsec_nanos(), now.offset().local_minus_utc())
}

/// A point in time and the offset of the local clock there.
#[derive(Clone, Copy, Debug, PartialEq, Eq, Structural)]
pub struct Moment {
    secs: i64,
    nanos: u32,
    offset: i32,
}

/// What a clock on the wall and a calendar beside it show, but for the year.
#[derive(Clone, Copy, Debug, PartialEq, Eq, Structural)]
pub struct Slot {
    pub minute: u32,
    pub hour: u32,
    pub day: u32,
    pub month: u32,
    /// The days since Sunday.
    pub weekday: u32,
}

/// What a clock and a calendar show, as a value of mathematics.
pub ghost struct SlotView {
    pub minute: int,
    pub hour: int,
    pub day: int,
    pub month: int,
    pub weekday: int,
}

impl View for Slot {
    type V = SlotView;

    open spec fn view(&self) -> SlotView {
        SlotView {
            minute: self.minute as int,
            hour: self.hour as int,
            day: self.day as int,
            month: self.month as int,
            weekday: self.weekday as int,
        }
    }
}

impl Moment {
    /// The seconds since 1970-01-01T00:00:00Z.
    pub closed spec fn spec_secs(self) -> int {
        self.secs as int
    }

    /// The nanoseconds behind that second.
    pub closed spec fn spec_nanos(self) -> int {
        self.nanos as int
    }

    /// The seconds by which the local clock is ahead.
    pub closed spec fn spec_offset(self) -> int {
        self.offset as int
    }

    #[verifier::type_invariant]
    spec fn inv(self) -> bool {
        is_moment(self.secs as int, self.nanos as int, self.offset as int)
    }

    /// What the local clock and calendar show.
    pub open spec fn local_slot(self) -> SlotView {
        let local = self.spec_secs() + self.spec_offset();
        SlotView {
            minute: local / 60 % 60,
            hour: local / 3_600 % 24,
            day: date_of(local / 86_400).day,
            month: date_of(local / 86_400).month,
            weekday: (local / 86_400 + 4) % 7,
        }
    }

    /// Whether a clock can show this moment: it is not before 1970 and not within a leap second.
    pub open spec fn is_reading(self) -> bool {
        &&& is_moment(self.spec_secs(), self.spec_nanos(), self.spec_offset())
        &&& self.spec_secs() >= 0
        &&& self.spec_nanos() < 1_000_000_000
    }

    /// The nanoseconds by which this moment is later than `earlier`.
    pub open spec fn nanos_after(self, earlier: Moment) -> int {
        nanos_since(
            (self.spec_secs(), self.spec_nanos()),
            (earlier.spec_secs(), earlier.spec_nanos()),
        )
    }

    /// Whether the local clock shows a representable year, so that the moment can be written down.
    pub open spec fn is_writable(self) -> bool {
        FIRST_SECOND <= self.spec_secs() + self.spec_offset() <= LAST_SECOND
    }

    /// The moment of these parts, where there is one.
    pub fn new(secs: i64, nanos: u32, offset: i32) -> (r: Option<Moment>)
        ensures
            r is Some <==> is_moment(secs as int, nanos as int, offset as int),
            r matches Some(m) ==> m.spec_secs() == secs && m.spec_nanos() == nanos
                && m.spec_offset() == offset,
    {
        let leap = nanos >= 1_000_000_000;
        let in_range = FIRST_SECOND <= secs && secs <= LAST_SECOND && nanos < 2_000_000_000
            && -86_400 < offset && offset < 86_400;
        if in_range && (!leap || end_of_minute(secs)) {
            Some(Moment { secs, nanos, offset })
        } else {
            None
        }
    }

    /// The moment that the clock of this machine shows.
    pub fn now() -> (r: Moment)
        ensures
            r.is_reading(),
    {
        let (secs, nanos, offset) = chrono_now();
        Moment { secs, nanos, offset }
    }

    /// The seconds since 1970-01-01T00:00:00Z.
    pub fn secs(&self) -> (r: i64)
        ensures
            r == self.spec_secs(),
    {
        self.secs
    }

    /// The nanoseconds behind that second.
    pub fn nanos(&self) -> (r: u32)
        ensures
            r == self.spec_nanos(),
    {
        self.nanos
    }

    /// The seconds by which the local clock is ahead.
    pub fn offset(&self) -> (r: i32)
        ensures
            r == self.spec_offset(),
    {
        self.offset
    }

    /// What the local clock and calendar show.
    pub fn slot(&self) -> (r: Slot)
        ensures
            r@ == self.local_slot(),
    {
        proof {
            use_type_invariant(self);
        }
        Slot {
            minute: chrono_minute(self.secs, self.nanos, self.offset),
            hour: chrono_hour(self.secs, self.nanos, self.offset),
            day: chrono_day(self.secs, self.nanos, self.offset),
            month: chrono_month(self.secs, self.nanos, self.offset),
            weekday: chrono_weekday(self.secs, self.nanos, self.offset),
        }
    }

    /// Whether at least `secs` seconds lie between `earlier` and this moment.
    pub fn is_later_by(&self, earlier: &Moment, secs: u64) -> (r: bool)
        ensures
            r == (self.nanos_after(*earlier) >= secs * 1_000_000_000),
    {
        proof {
            use_type_invariant(self);
            use_type_invariant(earlier);
        }
        let (whole, rest) = chrono_since((self.secs, self.nanos), (earlier.secs, earlier.nanos));
        whole as i128 > secs as i128 || (whole as i128 == secs as i128 && rest >= 0)
    }

    /// Whether the moment can be written down.
    pub fn writable(&self) -> (r: bool)
        ensures
            r == self.is_writable(),
    {
        proof {
            use_type_invariant(self);
        }
        let local: i64 = self.secs + self.offset as i64;
        FIRST_SECOND <= local && local <= LAST_SECOND
    }

    /// The moment as RFC 3339 writes it.
    pub fn to_text(&self) -> (r: String)
        requires
            self.is_writable(),
        ensures
            r@ == rfc3339(self.spec_secs(), self.spec_nanos(), self.spec_offset()),
    {
        proof {
            use_type_invariant(self);
        }
        chrono_rfc3339(self.secs, self.nanos, self.offset)
    }
}

/// Whether `secs` is the last second of a minute.
fn end_of_minute(secs: i64) -> (r: bool)
    requires
        FIRST_SECOND <= secs <= LAST_SECOND,
    ensures
        r == (secs as int % 60 == 59),
{
    // The first second is that of a minute, so that the difference is a count of seconds.
    (secs - FIRST_SECOND) % 60 == 59
}

/// No two days of the calendar are equally far from 1970-01-01, so `date_of` gives back the
/// date that a number of days was counted to.
pub proof fn dates_and_day_numbers_correspond(date: Date)
    requires
        is_date(date),
    ensures
        date_of(epoch_day(date)) == date,
{
    let other = date_of(epoch_day(date));
    assert(is_date(other) && epoch_day(other) == epoch_day(date));
    if other.year < date.year {
        lemma_years_in_order(other.year, date.year);
    } else if date.year < other.year {
        lemma_years_in_order(date.year, other.year);
    }
    lemma_day_of_year(other);
    lemma_day_of_year(date);
    if other.year == date.year {
        if other.month < date.month {
            lemma_months_in_order(date.year, other.month, date.month);
        } else if date.month < other.month {
            lemma_months_in_order(date.year, date.month, other.month);
        }
    }
}

/// Every number of days is that of some date, so `date_of` always gives one.
pub proof fn every_day_number_has_a_date(day: int)
    ensures
        is_date(date_of(day)),
        epoch_day(date_of(day)) == day,
{
    let date = lemma_some_date(day);
    assert(is_date(date) && epoch_day(date) == day);
}

/// A clock shows minutes from 0 to 59 and hours from 0 to 23, a calendar days from 1 to 31 and
/// months from 1 to 12, and a week has days from 0, for Sunday, to 6.
pub proof fn clocks_and_calendars_have_bounds(at: Moment)
    ensures
        0 <= at.local_slot().minute <= 59,
        0 <= at.local_slot().hour <= 23,
        1 <= at.local_slot().day <= 31,
        1 <= at.local_slot().month <= 12,
        0 <= at.local_slot().weekday <= 6,
{
    every_day_number_has_a_date((at.spec_secs() + at.spec_offset()) / 86_400);
}

proof fn lemma_some_date(day: int) -> (date: Date)
    ensures
        is_date(date),
        epoch_day(date) == day,
    decreases
            if day >= 0 {
                day
            } else {
                -day
            },
{
    if day == 0 {
        let date = Date { year: 1970, month: 1, day: 1 };
        assert(days_before_year(1970) == 719_162);
        date
    } else if day > 0 {
        let before = lemma_some_date(day - 1);
        if before.day < days_in_month(before.year, before.month) {
            Date { day: before.day + 1, ..before }
        } else if before.month < 12 {
            Date { month: before.month + 1, day: 1, ..before }
        } else {
            lemma_year_length(before.year);
            reveal_with_fuel(days_before_month, 13);
            Date { year: before.year + 1, month: 1, day: 1 }
        }
    } else {
        let behind = lemma_some_date(day + 1);
        if behind.day > 1 {
            Date { day: behind.day - 1, ..behind }
        } else if behind.month > 1 {
            Date {
                month: behind.month - 1,
                day: days_in_month(behind.year, behind.month - 1),
                ..behind
            }
        } else {
            lemma_year_length(behind.year - 1);
            reveal_with_fuel(days_before_month, 13);
            Date { year: behind.year - 1, month: 12, day: 31 }
        }
    }
}

/// How many days a year has.
pub proof fn lemma_year_length(year: int)
    ensures
        days_before_year(year + 1) - days_before_year(year) == if is_leap_year(year) {
            366
        } else {
            365int
        },
{
    let before = year - 1;
    assert(year / 4 - before / 4 == if year % 4 == 0 { 1 } else { 0int });
    assert(year / 100 - before / 100 == if year % 100 == 0 { 1 } else { 0int });
    assert(year / 400 - before / 400 == if year % 400 == 0 { 1 } else { 0int });
    assert(year % 400 == 0 ==> year % 100 == 0);
    assert(year % 100 == 0 ==> year % 4 == 0);
}

proof fn lemma_years_in_order(a: int, b: int)
    requires
        a < b,
    ensures
        days_before_year(a) + (if is_leap_year(a) {
            366
        } else {
            365int
        }) <= days_before_year(b),
    decreases b - a,
{
    lemma_year_length(b - 1);
    if a + 1 < b {
        lemma_years_in_order(a, b - 1);
    } else {
        lemma_year_length(a);
    }
}

proof fn lemma_months_in_order(year: int, a: int, b: int)
    requires
        1 <= a < b <= 13,
    ensures
        days_before_month(year, a) + days_in_month(year, a) <= days_before_month(year, b),
    decreases b - a,
{
    if a + 1 < b {
        lemma_months_in_order(year, a, b - 1);
    }
}

proof fn lemma_day_of_year(date: Date)
    requires
        is_date(date),
    ensures
        0 <= days_before_month(date.year, date.month) + date.day - 1 < if is_leap_year(date.year) {
            366
        } else {
            365int
        },
{
    reveal_with_fuel(days_before_month, 14);
    lemma_months_in_order(date.year, date.month, 13);
}

} // verus!
