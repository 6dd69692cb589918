//! Timestamps: a count of seconds since the start of 1970, told as a date
//! and a time of day in universal time and written in the ISO 8601 form
//! `2021-11-02T10:00:00Z`.

use crate::decimal::{digits_of, padded_digits, push_digits, push_padded};
use vstd::prelude::*;

verus! {

/// Seconds in a day.
pub const DAY: u64 = 86_400;

/// A date and a time of day.
#[derive(Clone, Copy, Debug, PartialEq, Eq, Structural)]
pub struct Moment {
    pub year: u64,
    pub month: u64,
    pub day: u64,
    pub hour: u64,
    pub minute: u64,
    pub second: u64,
}

/// Whether `year` has a 29th of February.
pub open spec fn is_leap(year: int) -> bool {
    year % 4 == 0 && (year % 100 != 0 || year % 400 == 0)
}

/// Number of days of `year`.
pub open spec fn days_in_year(year: int) -> int {
    if is_leap(year) {
        366
    } else {
        365
    }
}

/// Number of days of month `month` of `year`, January being month 1.
pub open spec fn days_in_month(year: int, month: int) -> int {
    if month == 2 {
        if is_leap(year) {
            29
        } else {
            28
        }
    } else if month == 4 || month == 6 || month == 9 || month == 11 {
        30
    } else {
        31
    }
}

/// Number of days from the start of 1970 to the start of `year`.
pub open spec fn days_before_year(year: int) -> int
    decreases year - 1970,
{
    if year <= 1970 {
        0
    } else {
        days_before_year(year - 1) + days_in_year(year - 1)
    }
}

/// Number of days from the start of `year` to the start of its month
/// `month`.
pub open spec fn days_before_month(year: int, month: int) -> int
    decreases month,
{
    if month <= 1 {
        0
    } else {
        days_before_month(year, month - 1) + days_in_month(year, month - 1)
    }
}

impl Moment {
    /// Whether this is a date of the calendar, in 1970 or later, and a time
    /// of day.
    pub open spec fn is_valid(&self) -> bool {
        &&& self.year >= 1970
        &&& 1 <= self.month <= 12
        &&& 1 <= self.day <= days_in_month(self.year as int, self.month as int)
        &&& self.hour < 24
        &&& self.minute < 60
        &&& self.second < 60
    }

    /// The seconds from the start of 1970 to this moment.
    pub open spec fn seconds(&self) -> int {
        (days_before_year(self.year as int) + days_before_month(
            self.year as int,
            self.month as int,
        ) + (self.day - 1)) * 86_400 + self.hour * 3_600 + self.minute * 60 + self.second
    }

    /// The moment as it is written: four digits of the year or more, then
    /// two digits each of month, day, hour, minute and second.
    pub open spec fn text(&self) -> Seq<u8> {
        (if self.year < 10_000 {
            padded_digits(self.year as nat, 4)
        } else {
            digits_of(self.year as nat)
        }) + seq![45u8] + padded_digits(self.month as nat, 2) + seq![45u8] + padded_digits(
            self.day as nat,
            2,
        ) + seq![84u8] + padded_digits(self.hour as nat, 2) + seq![58u8] + padded_digits(
            self.minute as nat,
            2,
        ) + seq![58u8] + padded_digits(self.second as nat, 2) + seq![90u8]
    }
}

fn leap(year: u64) -> (r: bool)
    ensures
        r == is_leap(year as int),
{
    year % 4 == 0 && (year % 100 != 0 || year % 400 == 0)
}

fn year_length(year: u64) -> (days: u64)
    ensures
        days == days_in_year(year as int),
{
    if leap(year) {
        366
    } else {
        365
    }
}

fn month_length(year: u64, month: u64) -> (days: u64)
    requires
        1 <= month <= 12,
    ensures
        days == days_in_month(year as int, month as int),
        28 <= days <= 31,
{
    if month == 2 {
        if leap(year) {
            29
        } else {
            28
        }
    } else if month == 4 || month == 6 || month == 9 || month == 11 {
        30
    } else {
        31
    }
}

/// A year has as many days as its twelve months.
pub proof fn lemma_months_fill_year(year: int)
    ensures
        days_before_month(year, 13) == days_in_year(year),
{
    reveal_with_fuel(days_before_month, 14);
}

/// The date and the time of day that lie `seconds` after the start of
/// 1970.
pub fn moment_of(seconds: u64) -> (moment: Moment)
    ensures
        moment.is_valid(),
        moment.seconds() == seconds,
{
    let mut days: u64 = seconds / DAY;
    let rest: u64 = seconds % DAY;
    let mut year: u64 = 1970;
    while days >= year_length(year)
        invariant
            1970 <= year,
            year - 1970 <= seconds / 86_400 - days,
            days <= seconds / 86_400,
            days_before_year(year as int) + days == seconds / 86_400,
        decreases days,
    {
        days = days - year_length(year);
        year = year + 1;
    }
    let ghost in_year = days;
    let mut month: u64 = 1;
    while days >= month_length(year, month)
        invariant
            1 <= month <= 12,
            days_before_month(year as int, month as int) + days == in_year,
            in_year < days_in_year(year as int),
        decreases 12 - month,
    {
        proof {
            if month == 12 {
                lemma_months_fill_year(year as int);
                assert(days_before_month(year as int, 13) == days_before_month(year as int, 12)
                    + days_in_month(year as int, 12));
            }
        }
        days = days - month_length(year, month);
        month = month + 1;
    }
    Moment {
        year,
        month,
        day: days + 1,
        hour: rest / 3_600,
        minute: rest % 3_600 / 60,
        second: rest % 60,
    }
}

/// Writes a moment in the ISO 8601 form, with `Z` for universal time.
pub fn iso_text(moment: &Moment) -> (text: Vec<u8>)
    ensures
        text@ == moment.text(),
{
    let mut text: Vec<u8> = Vec::new();
    if moment.year < 10_000 {
        push_padded(moment.year, 4, &mut text);
    } else {
        push_digits(moment.year, &mut text);
    }
    text.push(45);
    push_padded(moment.month, 2, &mut text);
    text.push(45);
    push_padded(moment.day, 2, &mut text);
    text.push(84);
    push_padded(moment.hour, 2, &mut text);
    text.push(58);
    push_padded(moment.minute, 2, &mut text);
    text.push(58);
    push_padded(moment.second, 2, &mut text);
    text.push(90);
    proof {
        assert(text@ =~= moment.text());
    }
    text
}

/// The timestamp of the moment that lies `seconds` after the start of
/// 1970.
pub fn timestamp(seconds: u64) -> (text: Vec<u8>)
    ensures
        exists|moment: Moment|
            moment.is_valid() && moment.seconds() == seconds && text@ == #[trigger] moment.text(),
{
    let moment = moment_of(seconds);
    iso_text(&moment)
}

} // verus!
