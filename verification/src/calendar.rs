//! Instants on the clock and in the calendar.
//!
//! An instant is a number of seconds since the Unix epoch, in UTC. The time
//! of day and the day of the week follow from it by division; the year and
//! the month are those of the proleptic Gregorian calendar as the `chrono`
//! crate reckons them.

use vstd::prelude::*;

verus! {

/// Seconds in a day.
pub const DAY_SECONDS: i64 = 86_400;

/// The first instant of the calendar: the start of the year -262143.
pub const CALENDAR_FIRST: i64 = -8_334_601_228_800;

/// The last instant of the calendar: the last second of the year 262142.
pub const CALENDAR_LAST: i64 = 8_210_266_876_799;

/// Whether the calendar reaches as far as `timestamp`.
pub open spec fn in_calendar(timestamp: int) -> bool {
    CALENDAR_FIRST <= timestamp <= CALENDAR_LAST
}

/// The hour of the day of an instant, from 0 to 23.
pub open spec fn hour_of_day(timestamp: int) -> int {
    (timestamp % 86_400) / 3_600
}

/// The day of the week of an instant, from 0 for Monday to 6 for Sunday.
/// The epoch fell on a Thursday.
pub open spec fn weekday(timestamp: int) -> int {
    (timestamp / 86_400 + 3) % 7
}

/// The year of the calendar date of an instant, as `chrono` gives it.
pub uninterp spec fn civil_year(timestamp: int) -> int;

/// The month of the calendar date of an instant, as `chrono` gives it.
pub uninterp spec fn civil_month(timestamp: int) -> int;

/// The months of the calendar numbered in sequence: twelve to the year,
/// January of the year 0 being month 0.
pub open spec fn month_number(timestamp: int) -> int {
    civil_year(timestamp) * 12 + civil_month(timestamp) - 1
}

/// The hour of the day of an instant.
pub fn hour_of_day_of(timestamp: i64) -> (hour: usize)
    ensures
        hour == hour_of_day(timestamp as int),
        hour < 24,
{
    match timestamp.checked_rem_euclid(DAY_SECONDS) {
        Some(second) => (second / 3_600) as usize,
        None => 0,
    }
}

/// The day of the week of an instant.
pub fn weekday_of(timestamp: i64) -> (day: usize)
    ensures
        day == weekday(timestamp as int),
        day < 7,
{
    match timestamp.checked_div_euclid(DAY_SECONDS) {
        Some(days) => {
            match (days + 3).checked_rem_euclid(7) {
                Some(day) => day as usize,
                None => 0,
            }
        },
        None => 0,
    }
}

/// The year of an instant: `chrono::Datelike::year` of
/// `chrono::DateTime::from_timestamp`.
///
/// Trusted: there is a result exactly for the instants the calendar
/// reaches, and it is what `civil_year` names.
#[verifier::external_body]
fn year_of(timestamp: i64) -> (year: Option<i32>)
    ensures
        year is Some <==> in_calendar(timestamp as int),
        year matches Some(y) ==> y == civil_year(timestamp as int),
{
    match chrono::DateTime::from_timestamp(timestamp, 0) {
        Some(at) => Some(chrono::Datelike::year(&at)),
        None => None,
    }
}

/// The month of an instant: `chrono::Datelike::month` of
/// `chrono::DateTime::from_timestamp`.
///
/// Trusted: there is a result exactly for the instants the calendar
/// reaches; it is what `civil_month` names, and lies between 1 and 12.
#[verifier::external_body]
fn month_of(timestamp: i64) -> (month: Option<u32>)
    ensures
        month is Some <==> in_calendar(timestamp as int),
        month matches Some(m) ==> m == civil_month(timestamp as int) && 1 <= m <= 12,
{
    match chrono::DateTime::from_timestamp(timestamp, 0) {
        Some(at) => Some(chrono::Datelike::month(&at)),
        None => None,
    }
}

/// The number of the month an instant falls in, where the calendar reaches
/// that far.
pub fn month_number_of(timestamp: i64) -> (number: Option<i64>)
    ensures
        number is Some <==> in_calendar(timestamp as int),
        number matches Some(n) ==> n == month_number(timestamp as int),
{
    match year_of(timestamp) {
        Some(year) => {
            match month_of(timestamp) {
                Some(month) => Some((year as i64) * 12 + (month as i64) - 1),
                None => None,
            }
        },
        None => None,
    }
}

/// The year that the month numbered `number` belongs to.
pub open spec fn year_of_month(number: int) -> int {
    number / 12
}

/// The place in its year, from 1 to 12, of the month numbered `number`.
pub open spec fn month_in_year(number: int) -> int {
    number % 12 + 1
}

} // verus!
