//! Instants of the one local time line that reminders are kept on, written
//! by their calendar date and clock time, and the calendar arithmetic that
//! due times are reckoned with.

use chrono::{Datelike, Months, NaiveDate, TimeDelta, Timelike};
use std::cmp::Ordering;
use vstd::prelude::*;

verus! {

/// The first year of the calendar, which is chrono's.
pub const MIN_YEAR: i32 = -262_143;

/// The last year of the calendar.
pub const MAX_YEAR: i32 = 262_142;

/// Leap years of the Gregorian calendar, carried back before its adoption.
pub open spec fn is_leap_year(year: int) -> bool {
    year % 4 == 0 && (year % 100 != 0 || year % 400 == 0)
}

/// The number of days in a month of a year.
pub open spec fn days_in_month(year: int, month: int) -> int {
    if month == 2 {
        if is_leap_year(year) {
            29
        } else {
            28
        }
    } else if month == 4 || month == 6 || month == 9 || month == 11 {
        30
    } else {
        31
    }
}

/// The dates that the calendar holds.
pub open spec fn date_exists(year: int, month: int, day: int) -> bool {
    &&& MIN_YEAR <= year <= MAX_YEAR
    &&& 1 <= month <= 12
    &&& 1 <= day <= days_in_month(year, month)
}

/// An instant, to the second. Instants compare as they lie on the time
/// line: `<` is `before`, `<=` is `at_or_before`.
#[derive(Clone, Copy, Debug, PartialEq, Eq, Structural, Ord)]
pub struct LocalDateTime {
    pub year: i32,
    pub month: u32,
    pub day: u32,
    pub hour: u32,
    pub minute: u32,
    pub second: u32,
}

impl LocalDateTime {
    /// The date is one of the calendar and the time one of a 24-hour clock.
    pub open spec fn wf(self) -> bool {
        &&& date_exists(self.year as int, self.month as int, self.day as int)
        &&& self.hour < 24
        &&& self.minute < 60
        &&& self.second < 60
    }

    /// Strictly earlier on the time line.
    pub open spec fn before(self, other: LocalDateTime) -> bool {
        ||| self.year < other.year
        ||| self.year == other.year && self.month < other.month
        ||| self.year == other.year && self.month == other.month && self.day < other.day
        ||| self.year == other.year && self.month == other.month && self.day == other.day
            && self.hour < other.hour
        ||| self.year == other.year && self.month == other.month && self.day == other.day
            && self.hour == other.hour && self.minute < other.minute
        ||| self.year == other.year && self.month == other.month && self.day == other.day
            && self.hour == other.hour && self.minute == other.minute && self.second
            < other.second
    }

    /// Not later on the time line.
    pub open spec fn at_or_before(self, other: LocalDateTime) -> bool {
        self == other || self.before(other)
    }
}

impl PartialOrd for LocalDateTime {
    fn partial_cmp(&self, other: &Self) -> (r: Option<Ordering>) {
        if self.year != other.year {
            if self.year < other.year {
                Some(Ordering::Less)
            } else {
                Some(Ordering::Greater)
            }
        } else if self.month != other.month {
            if self.month < other.month {
                Some(Ordering::Less)
            } else {
                Some(Ordering::Greater)
            }
        } else if self.day != other.day {
            if self.day < other.day {
                Some(Ordering::Less)
            } else {
                Some(Ordering::Greater)
            }
        } else if self.hour != other.hour {
            if self.hour < other.hour {
                Some(Ordering::Less)
            } else {
                Some(Ordering::Greater)
            }
        } else if self.minute != other.minute {
            if self.minute < other.minute {
                Some(Ordering::Less)
            } else {
                Some(Ordering::Greater)
            }
        } else if self.second != other.second {
            if self.second < other.second {
                Some(Ordering::Less)
            } else {
                Some(Ordering::Greater)
            }
        } else {
            Some(Ordering::Equal)
        }
    }
}

impl vstd::std_specs::cmp::PartialOrdSpecImpl for LocalDateTime {
    open spec fn obeys_partial_cmp_spec() -> bool {
        true
    }

    open spec fn partial_cmp_spec(&self, other: &Self) -> Option<Ordering> {
        if *self == *other {
            Some(Ordering::Equal)
        } else if self.before(*other) {
            Some(Ordering::Less)
        } else {
            Some(Ordering::Greater)
        }
    }
}

/// An instant made of the given parts, where they form one.
pub open spec fn checked(t: LocalDateTime) -> Option<LocalDateTime> {
    if t.wf() {
        Some(t)
    } else {
        None
    }
}

/// The instant a whole number of months after `t`: the same day of the
/// month and the same time, or the last day of the month reached where that
/// month is shorter. There is none where `t` is no instant or the calendar
/// ends before.
pub open spec fn months_later(t: LocalDateTime, months: u32) -> Option<LocalDateTime> {
    let count = t.year * 12 + (t.month - 1) + months;
    let year = count / 12;
    let month = count % 12 + 1;
    let last = days_in_month(year, month);
    if t.wf() && year <= MAX_YEAR {
        Some(
            LocalDateTime {
                year: year as i32,
                month: month as u32,
                day: if t.day <= last {
                    t.day
                } else {
                    last as u32
                },
                ..t
            },
        )
    } else {
        None
    }
}

/// The instant with the date and time of `t` in another year. There is none
/// where `t` is no instant or that year has no such date.
pub open spec fn in_year(t: LocalDateTime, year: int) -> Option<LocalDateTime> {
    if t.wf() && date_exists(year, t.month as int, t.day as int) {
        Some(LocalDateTime { year: year as i32, ..t })
    } else {
        None
    }
}

/// The instant that lies a number of seconds after `t`, as
/// `chrono::NaiveDateTime::checked_add_signed` reckons it, or none where it
/// gives none. Nothing here says which instant that is: `plus_seconds` is
/// the one place that speaks of it.
pub uninterp spec fn seconds_later(t: LocalDateTime, seconds: i64) -> Option<LocalDateTime>;

/// Asks `chrono::NaiveDate::from_ymd_opt` whether the calendar holds a date.
///
/// Not proved, taken from chrono's documentation: there is such a date
/// exactly where the year is from `MIN_YEAR` to `MAX_YEAR`, the month from 1
/// to 12 and the day from 1 to the length of that month.
#[verifier::external_body]
pub(crate) fn in_calendar(year: i32, month: u32, day: u32) -> (r: bool)
    ensures
        r == date_exists(year as int, month as int, day as int),
{
    NaiveDate::from_ymd_opt(year, month, day).is_some()
}

/// Adds whole seconds with `chrono::NaiveDateTime::checked_add_signed`. The
/// instant goes in through `NaiveDate::from_ymd_opt` and `and_hms_opt`, the
/// span through `chrono::TimeDelta::try_seconds`; where one of the four
/// gives none, so does this.
///
/// Not proved: that the result depends on `t` and `seconds` alone, which is
/// why it has a name, and that a span that is not negative never leads to
/// an earlier instant.
#[verifier::external_body]
pub(crate) fn plus_seconds(t: LocalDateTime, seconds: i64) -> (r: Option<LocalDateTime>)
    ensures
        r == seconds_later(t, seconds),
        r matches Some(end) ==> seconds >= 0 ==> t.at_or_before(end),
{
    let start =
        NaiveDate::from_ymd_opt(t.year, t.month, t.day)?.and_hms_opt(t.hour, t.minute, t.second)?;
    let end = start.checked_add_signed(TimeDelta::try_seconds(seconds)?)?;
    Some(
        LocalDateTime {
            year: end.year(),
            month: end.month(),
            day: end.day(),
            hour: end.hour(),
            minute: end.minute(),
            second: end.second(),
        },
    )
}

/// Adds months with `chrono::NaiveDateTime::checked_add_months`.
///
/// Not proved, taken from chrono's documentation and source: the months
/// counted from the year 0 go up by `months`; the day stays, or becomes the
/// last day of the month reached where that month is shorter; the time
/// stays; and there is no result where `t` is no instant or the year
/// reached is past `MAX_YEAR`.
#[verifier::external_body]
pub(crate) fn plus_months(t: LocalDateTime, months: u32) -> (r: Option<LocalDateTime>)
    ensures
        r == months_later(t, months),
{
    let start =
        NaiveDate::from_ymd_opt(t.year, t.month, t.day)?.and_hms_opt(t.hour, t.minute, t.second)?;
    let end = start.checked_add_months(Months::new(months))?;
    Some(
        LocalDateTime {
            year: end.year(),
            month: end.month(),
            day: end.day(),
            hour: end.hour(),
            minute: end.minute(),
            second: end.second(),
        },
    )
}

/// Changes the year with `chrono::Datelike::with_year`.
///
/// Not proved, taken from chrono's documentation: month, day and time stay,
/// and there is no result where `t` is no instant, the year is outside the
/// calendar, or the year has no such day, as with 29 February.
#[verifier::external_body]
pub(crate) fn with_year(t: LocalDateTime, year: i32) -> (r: Option<LocalDateTime>)
    ensures
        r == in_year(t, year as int),
{
    let start =
        NaiveDate::from_ymd_opt(t.year, t.month, t.day)?.and_hms_opt(t.hour, t.minute, t.second)?;
    let end = start.with_year(year)?;
    Some(
        LocalDateTime {
            year: end.year(),
            month: end.month(),
            day: end.day(),
            hour: end.hour(),
            minute: end.minute(),
            second: end.second(),
        },
    )
}

impl LocalDateTime {
    /// The instant with the given date and time, if there is one.
    pub fn new(year: i32, month: u32, day: u32, hour: u32, minute: u32, second: u32) -> (r:
        Option<LocalDateTime>)
        ensures
            r == checked(LocalDateTime { year, month, day, hour, minute, second }),
    {
        if in_calendar(year, month, day) && hour < 24 && minute < 60 && second < 60 {
            Some(LocalDateTime { year, month, day, hour, minute, second })
        } else {
            None
        }
    }
}

/// The order of instants is strict and total: no instant is before itself,
/// of two different ones exactly one is before the other, and the order is
/// transitive.
pub proof fn lemma_time_line(a: LocalDateTime, b: LocalDateTime, c: LocalDateTime)
    ensures
        !a.before(a),
        a == b || a.before(b) || b.before(a),
        !(a.before(b) && b.before(a)),
        a.before(b) && b.before(c) ==> a.before(c),
        a.at_or_before(b) && b.at_or_before(c) ==> a.at_or_before(c),
{
}

/// Moving on by months never leads back, and leads to an instant.
pub proof fn lemma_months_later(t: LocalDateTime, months: u32)
    ensures
        months_later(t, months) matches Some(end) ==> end.wf() && t.at_or_before(end),
        t.wf() ==> months_later(t, 0) == Some(t),
{
}

} // verus!
