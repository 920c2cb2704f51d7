//! What clocks and calendars show, and how time is measured.

use crate::moment::{Moment, Slot, FIRST_SECOND, LAST_SECOND};
use vstd::prelude::*;

verus! {

use crate::moment;
use crate::moment::Date;

/// The local clock and calendar show the time of day and the day that the seconds since 1970
/// began, moved by the offset, come to. The first day of 1970 was a Thursday.
pub proof fn the_slot_is_that_of_the_local_time(
    at: Moment,
    days: int,
    hour: int,
    minute: int,
    second: int,
    date: Date,
)
    requires
        0 <= hour < 24,
        0 <= minute < 60,
        0 <= second < 60,
        at.spec_secs() + at.spec_offset() == 86_400 * days + 3_600 * hour + 60 * minute + second,
        moment::is_date(date),
        moment::epoch_day(date) == days,
    ensures
        at.local_slot().hour == hour,
        at.local_slot().minute == minute,
        at.local_slot().day == date.day,
        at.local_slot().month == date.month,
        at.local_slot().weekday == (days + 4) % 7,
{
    let local = at.spec_secs() + at.spec_offset();
    assert(local / 60 == 1_440 * days + 60 * hour + minute);
    assert(local / 3_600 == 24 * days + hour);
    assert(local / 86_400 == days);
    moment::dates_and_day_numbers_correspond(date);
}

/// The number of days that the months of the Gregorian calendar have.
pub open spec fn month_length(year: int, month: int) -> int {
    if month == 2 {
        if year % 400 == 0 || (year % 4 == 0 && year % 100 != 0) {
            29
        } else {
            28
        }
    } else if month <= 7 {
        30 + month % 2
    } else {
        31 - month % 2
    }
}

/// The days of the calendar follow each other: behind each day of a month comes the next, behind
/// the last of a month the first of the next, and behind the last of a year the first of the next.
/// They are counted from the first day of 1970.
pub proof fn days_follow_each_other(date: Date)
    requires
        moment::is_date(date),
    ensures
        moment::epoch_day(Date { year: 1970, month: 1, day: 1 }) == 0,
        1 <= date.month <= 12,
        1 <= date.day <= month_length(date.year, date.month),
        date.day < month_length(date.year, date.month) ==> moment::is_date(
            Date { day: date.day + 1, ..date },
        ) && moment::epoch_day(Date { day: date.day + 1, ..date }) == moment::epoch_day(date) + 1,
        date.day == month_length(date.year, date.month) && date.month < 12 ==> moment::is_date(
            Date { month: date.month + 1, day: 1, ..date },
        ) && moment::epoch_day(Date { month: date.month + 1, day: 1, ..date })
            == moment::epoch_day(date) + 1,
        date.day == month_length(date.year, date.month) && date.month == 12 ==> moment::is_date(
            Date { year: date.year + 1, month: 1, day: 1 },
        ) && moment::epoch_day(Date { year: date.year + 1, month: 1, day: 1 })
            == moment::epoch_day(date) + 1,
{
    assert(moment::days_before_year(1970) == 719_162);
    if date.month == 12 {
        moment::lemma_year_length(date.year);
        reveal_with_fuel(moment::days_before_month, 13);
    }
}

/// Between two moments outside of leap seconds lie the seconds and the nanoseconds between them.
/// Time that has gone by from one moment to another is to come from that to the first.
pub proof fn time_is_measured_between_moments(a: Moment, b: Moment)
    ensures
        a.spec_nanos() < 1_000_000_000 && b.spec_nanos() < 1_000_000_000 ==> a.nanos_after(b)
            == 1_000_000_000 * (a.spec_secs() - b.spec_secs()) + a.spec_nanos() - b.spec_nanos(),
        a.nanos_after(b) == -b.nanos_after(a),
        a.nanos_after(a) == 0,
        a.spec_nanos() >= 1_000_000_000 && b.spec_nanos() < 1_000_000_000 && a.spec_secs()
            % 86_400 >= b.spec_secs() % 86_400 ==> a.nanos_after(b) == 1_000_000_000 * (
        a.spec_secs() - b.spec_secs()) + a.spec_nanos() - b.spec_nanos(),
        a.spec_nanos() >= 1_000_000_000 && a.spec_secs() % 86_400 < b.spec_secs() % 86_400
            ==> a.nanos_after(b) == 1_000_000_000 * (a.spec_secs() - b.spec_secs() - 1)
            + a.spec_nanos() - b.spec_nanos(),
{
}

/// There are moments from the first second of the year -262143 to the last of the year 262142, with
/// any nanosecond, within a leap second at the end of each minute, and with any offset below a day.
pub proof fn moments_are_those_of_the_representable_years(secs: int, nanos: int, offset: int)
    ensures
        FIRST_SECOND == 86_400 * moment::epoch_day(Date { year: -262_143, month: 1, day: 1 }),
        LAST_SECOND == 86_400 * moment::epoch_day(Date { year: 262_142, month: 12, day: 31 })
            + 86_399,
        moment::is_moment(secs, nanos, offset) ==> FIRST_SECOND <= secs <= LAST_SECOND && 0 <= nanos
            && -86_400 < offset < 86_400,
        FIRST_SECOND <= secs <= LAST_SECOND && 0 <= nanos < 1_000_000_000 && -86_400 < offset
            < 86_400 ==> moment::is_moment(secs, nanos, offset),
        nanos >= 1_000_000_000 && moment::is_moment(secs, 0, offset) ==> (moment::is_moment(
            secs,
            nanos,
            offset,
        ) <==> nanos < 2_000_000_000 && (secs + 1) % 60 == 0),
{
    reveal_with_fuel(moment::days_before_month, 13);
}

/// A reading of the clock is a moment from 1970 on and outside of leap seconds, and a moment can
/// be written down where the local clock shows a representable year.
pub proof fn readings_and_writable_moments(at: Moment)
    ensures
        at.is_reading() <==> moment::is_moment(at.spec_secs(), at.spec_nanos(), at.spec_offset())
            && at.spec_secs() >= 0 && at.spec_nanos() < 1_000_000_000,
        at.is_writable() <==> FIRST_SECOND <= at.spec_secs() + at.spec_offset() <= LAST_SECOND,
{
}

/// What is said of a slot is said of its own parts.
pub proof fn a_slot_is_its_parts(slot: Slot)
    ensures
        slot@.minute == slot.minute,
        slot@.hour == slot.hour,
        slot@.day == slot.day,
        slot@.month == slot.month,
        slot@.weekday == slot.weekday,
{
}

} // verus!
