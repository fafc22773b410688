//! Gregorian calendar rules used by the date editor.
use vstd::prelude::*;

verus! {

/// The Gregorian leap-year rule: divisible by 4, except centuries that are
/// not divisible by 400.
pub open spec fn is_leap(year: int) -> bool {
    year % 4 == 0 && (year % 100 != 0 || year % 400 == 0)
}

/// Days in `month` (1 to 12) of a year that is a leap year or not.
/// Any other month number counts as a 30-day month.
pub open spec fn month_length(month: int, leap: bool) -> int {
    if month == 2 {
        if leap {
            29
        } else {
            28
        }
    } else if month == 1 || month == 3 || month == 5 || month == 7 || month == 8 || month == 10
        || month == 12 {
        31
    } else {
        30
    }
}

/// The month-length table of the Gregorian calendar, January first.
pub open spec fn calendar_table(leap: bool) -> Seq<int> {
    seq![31, if leap { 29 } else { 28 }, 31, 30, 31, 30, 31, 31, 30, 31, 30, 31]
}

/// Whether `year` is a leap year.
pub fn is_leap_year(year: u16) -> (r: bool)
    ensures
        r == is_leap(year as int),
{
    if year % 400 == 0 {
        true
    } else if year % 100 == 0 {
        false
    } else {
        year % 4 == 0
    }
}

/// The last day of `month` in a leap year or a common year.
pub fn get_max_day(month: u8, leap_year: bool) -> (r: u8)
    ensures
        r as int == month_length(month as int, leap_year),
{
    if month == 2 {
        if leap_year {
            29
        } else {
            28
        }
    } else if month == 1 || month == 3 || month == 5 || month == 7 || month == 8 || month == 10
        || month == 12 {
        31
    } else {
        30
    }
}

/// For every month of every year, the last day given for it is one of 28, 29,
/// 30 and 31, and is the day that the Gregorian calendar gives.
pub proof fn lemma_max_day_matches_calendar(month: int, year: int)
    requires
        1 <= month <= 12,
    ensures
        28 <= month_length(month, is_leap(year)) <= 31,
        month_length(month, is_leap(year)) == calendar_table(is_leap(year))[month - 1],
        month == 2 ==> (month_length(month, is_leap(year)) == 29 <==> is_leap(year)),
{
}

} // verus!
