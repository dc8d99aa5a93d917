//! The date of the release that the notes are written for.
//!
//! Releases follow each other every six weeks. Dates are counted in days of
//! the proleptic Gregorian calendar, 1 January of the year 1 being day 1.

use vstd::prelude::*;

verus! {

/// A calendar date without a time of day.
#[derive(Debug, Clone, Copy, PartialEq, Eq, Structural)]
pub struct CalendarDate {
    pub year: i32,
    pub month: u32,
    pub day: u32,
}

/// The days between two releases.
pub const CYCLE_DAYS: i64 = 42;

/// The year of a known release (1.42.0).
pub const KNOWN_YEAR: i32 = 2020;

/// The month of the known release.
pub const KNOWN_MONTH: u32 = 3;

/// The day of the known release.
pub const KNOWN_DAY: u32 = 12;

/// The number of the day with the given year, month and day of the month;
/// `None` where there is no such date or `chrono` cannot hold it.
pub uninterp spec fn day_number(year: int, month: int, day: int) -> Option<int>;

/// The year, month and day of the month of the day with the given number;
/// `None` where `chrono` cannot hold the date.
pub uninterp spec fn date_of_day(day: int) -> Option<(int, int, int)>;

/// `chrono::NaiveDate::from_ymd_opt` and `Datelike::num_days_from_ce`: the
/// number of the day that the three values name. The contract only gives
/// that result its name.
#[verifier::external_body]
fn days_from_ce(year: i32, month: u32, day: u32) -> (days: Option<i32>)
    ensures
        match days {
            Some(n) => day_number(year as int, month as int, day as int) == Some(n as int),
            None => day_number(year as int, month as int, day as int) is None,
        },
{
    match chrono::NaiveDate::from_ymd_opt(year, month, day) {
        Some(date) => Some(chrono::Datelike::num_days_from_ce(&date)),
        None => None,
    }
}

/// `chrono::NaiveDate::from_num_days_from_ce_opt` and the `year`, `month` and
/// `day` of `Datelike`: the date of the day with the given number. The
/// contract only gives that result its name.
#[verifier::external_body]
fn date_from_ce(days: i32) -> (date: Option<(i32, u32, u32)>)
    ensures
        match date {
            Some(found) => date_of_day(days as int) == Some(
                (found.0 as int, found.1 as int, found.2 as int),
            ),
            None => date_of_day(days as int) is None,
        },
{
    match chrono::NaiveDate::from_num_days_from_ce_opt(days) {
        Some(date) => Some(
            (
                chrono::Datelike::year(&date),
                chrono::Datelike::month(&date),
                chrono::Datelike::day(&date),
            ),
        ),
        None => None,
    }
}

/// The day of the release that is being prepared on day `today`, given the
/// day `known` of an earlier release: the first day that is a whole number of
/// cycles, and at least one, after `known` and not before `today`.
pub open spec fn release_day(known: int, today: int) -> int {
    if today <= known + CYCLE_DAYS {
        known + CYCLE_DAYS
    } else {
        known + CYCLE_DAYS * ((today - known + CYCLE_DAYS - 1) / (CYCLE_DAYS as int))
    }
}

/// What `release_day` is: a whole number of cycles after `known`, at least
/// one; not before `today`; and the first such day.
pub proof fn lemma_release_day(known: int, today: int)
    ensures
        ({
            let day = release_day(known, today);
            &&& day >= known + CYCLE_DAYS
            &&& day >= today
            &&& (day - known) % (CYCLE_DAYS as int) == 0
            &&& day == known + CYCLE_DAYS || day - CYCLE_DAYS < today
        }),
{
    if today > known + CYCLE_DAYS {
        let distance = today - known + CYCLE_DAYS - 1;
        let cycles = distance / 42;
        assert(distance == 42 * cycles + distance % 42) by (nonlinear_arith)
            requires
                cycles == distance / 42,
        ;
        assert(0 <= distance % 42 < 42);
        assert((42 * cycles) % 42 == 0) by (nonlinear_arith);
    } else {
        assert(42int % 42 == 0);
    }
}

/// Computes the day of the release that is being prepared on day `today`.
pub fn next_release_day(known: i32, today: i32) -> (day: i64)
    ensures
        day == release_day(known as int, today as int),
{
    let known: i64 = known as i64;
    let today: i64 = today as i64;
    if today <= known + CYCLE_DAYS {
        known + CYCLE_DAYS
    } else {
        let cycles: i64 = (today - known + CYCLE_DAYS - 1) / CYCLE_DAYS;
        assert(0 <= cycles <= 0x1_0000_0000) by {
            assert(0 < today - known + CYCLE_DAYS - 1 < 0x2_0000_0000);
        }
        assert(CYCLE_DAYS * cycles <= 42 * 0x1_0000_0000) by (nonlinear_arith)
            requires
                0 <= cycles <= 0x1_0000_0000,
                CYCLE_DAYS == 42,
        ;
        known + CYCLE_DAYS * cycles
    }
}

/// The date of the release that is being prepared on the date `today`;
/// `None` where one of the dates involved cannot be held.
pub open spec fn release_date_of(today: CalendarDate) -> Option<CalendarDate> {
    match (
        day_number(KNOWN_YEAR as int, KNOWN_MONTH as int, KNOWN_DAY as int),
        day_number(today.year as int, today.month as int, today.day as int),
    ) {
        (Some(known), Some(now)) => {
            let day = release_day(known, now);
            if i32::MIN <= day <= i32::MAX {
                match date_of_day(day) {
                    Some(found) => Some(
                        CalendarDate {
                            year: found.0 as i32,
                            month: found.1 as u32,
                            day: found.2 as u32,
                        },
                    ),
                    None => None,
                }
            } else {
                None
            }
        },
        _ => None,
    }
}

/// Computes the date of the release that is being prepared on the date
/// `today`.
pub fn release_date(today: CalendarDate) -> (date: Option<CalendarDate>)
    ensures
        date == release_date_of(today),
{
    let known = match days_from_ce(KNOWN_YEAR, KNOWN_MONTH, KNOWN_DAY) {
        Some(n) => n,
        None => {
            return None;
        },
    };
    let now = match days_from_ce(today.year, today.month, today.day) {
        Some(n) => n,
        None => {
            return None;
        },
    };
    let day = next_release_day(known, now);
    if day < i32::MIN as i64 || day > i32::MAX as i64 {
        return None;
    }
    match date_from_ce(day as i32) {
        Some(found) => Some(CalendarDate { year: found.0, month: found.1, day: found.2 }),
        None => None,
    }
}

} // verus!
