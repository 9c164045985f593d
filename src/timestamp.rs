use chrono::{NaiveDate, NaiveDateTime};
use vstd::prelude::*;

verus! {

/// Minutes in one calendar day.
pub const MINUTES_PER_DAY: i64 = 1440;

/// A local wall-clock time at minute resolution, counted in minutes from
/// 1970-01-01 00:00 on the local calendar.
#[derive(Clone, Copy, Debug, PartialEq, Eq, Structural, Hash, PartialOrd, Ord)]
pub struct Timestamp {
    pub minutes: i64,
}

/// A day of the local calendar, counted in days from 1970-01-01.
#[derive(Clone, Copy, Debug, PartialEq, Eq, Structural, Hash, PartialOrd, Ord)]
pub struct LocalDate {
    pub days: i64,
}

/// The day on which a minute count falls (rounding towards the past).
pub open spec fn day_of_minute(m: int) -> int {
    m / (MINUTES_PER_DAY as int)
}

/// The calendar day of a timestamp.
pub open spec fn date_of(t: Timestamp) -> LocalDate {
    LocalDate { days: day_of_minute(t.minutes as int) as i64 }
}

/// Minutes from 1970-01-01 00:00 to the given wall-clock time on the proleptic
/// Gregorian calendar, or `None` where no such date or time exists.
pub uninterp spec fn minutes_of_civil(year: int, month: int, day: int, hour: int, minute: int) -> Option<int>;

/// The bound on any minute count of a representable date (the calendar covers
/// the years 262145 BCE to 262143 CE).
pub const CIVIL_MINUTES_BOUND: i64 = 0x100_0000_0000;

/// Relies on chrono's `NaiveDate::from_ymd_opt` (a day that exists, in range,
/// else `None`), `NaiveDate::and_hms_opt` (`None` on an invalid hour or minute),
/// `NaiveDateTime::signed_duration_since` from the `Default` 1970-01-01 00:00, and
/// `TimeDelta::num_minutes`.
#[verifier::external_body]
fn civil_minutes(year: i32, month: u32, day: u32, hour: u32, minute: u32) -> (r: Option<i64>)
    ensures
        match r {
            Some(m) => minutes_of_civil(year as int, month as int, day as int, hour as int, minute as int)
                == Some(m as int) && -CIVIL_MINUTES_BOUND < m < CIVIL_MINUTES_BOUND,
            None => minutes_of_civil(year as int, month as int, day as int, hour as int, minute as int)
                is None,
        },
        (month < 1 || month > 12 || day < 1 || day > 31 || hour > 23 || minute > 59) ==> r is None,
        (1 <= month <= 12 && 1 <= day <= 28 && hour <= 23 && minute <= 59 && 0 <= year <= 9999)
            ==> r is Some,
{
    match NaiveDate::from_ymd_opt(year, month, day) {
        None => None,
        Some(d) => match d.and_hms_opt(hour, minute, 0) {
            None => None,
            Some(t) => Some(t.signed_duration_since(NaiveDateTime::default()).num_minutes()),
        },
    }
}

impl Timestamp {
    /// The wall-clock time with the given calendar fields (seconds zero), or
    /// `None` where that date or time does not exist.
    pub fn from_civil(year: i32, month: u32, day: u32, hour: u32, minute: u32) -> (r: Option<Timestamp>)
        ensures
            match r {
                Some(t) => minutes_of_civil(year as int, month as int, day as int, hour as int, minute as int)
                    == Some(t.minutes as int),
                None => minutes_of_civil(year as int, month as int, day as int, hour as int, minute as int)
                    is None,
            },
            (month < 1 || month > 12 || day < 1 || day > 31 || hour > 23 || minute > 59) ==> r is None,
            (1 <= month <= 12 && 1 <= day <= 28 && hour <= 23 && minute <= 59 && 0 <= year <= 9999)
                ==> r is Some,
            r matches Some(t) ==> -CIVIL_MINUTES_BOUND < t.minutes < CIVIL_MINUTES_BOUND,
    {
        match civil_minutes(year, month, day, hour, minute) {
            Some(m) => Some(Timestamp { minutes: m }),
            None => None,
        }
    }

    /// The local calendar day on which this timestamp falls.
    pub fn date(&self) -> (r: LocalDate)
        ensures
            r == date_of(*self),
    {
        let m = self.minutes;
        if m >= 0 {
            LocalDate { days: m / MINUTES_PER_DAY }
        } else {
            let back: i64 = -1 - m;
            LocalDate { days: -1 - back / MINUTES_PER_DAY }
        }
    }
}

} // verus!
