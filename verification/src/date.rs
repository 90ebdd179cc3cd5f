//! Calendar dates as day numbers.
//!
//! A [`Date`] is a day of the proleptic Gregorian calendar, held as the
//! number chrono gives it: January 1 of year 1 is day 1. Order, the next day
//! and the day of the week are plain arithmetic on that number; reading and
//! writing `YYYY-MM-DD` text and finding the year are left to chrono.

use vstd::prelude::*;
use crate::text::same_text;

verus! {

/// Day number of the earliest date chrono can hold (January 1, 262144 BCE).
pub const MIN_DAY_NUMBER: i32 = -95_746_129;

/// Day number of the latest date chrono can hold (December 31, 262142 CE).
pub const MAX_DAY_NUMBER: i32 = 95_745_399;

/// Whether `n` is the day number of a date that chrono can hold.
pub open spec fn is_day_number(n: int) -> bool {
    MIN_DAY_NUMBER <= n <= MAX_DAY_NUMBER
}

/// Days since Monday of day number `n`: 0 for Monday up to 6 for Sunday.
/// Day 1 is a Monday.
pub open spec fn days_from_monday(n: int) -> int {
    (n - 1) % 7
}

/// What `chrono::NaiveDate::parse_from_str` with the pattern `%Y-%m-%d`
/// makes of `text`: the day number of the date it reads, or `None` where it
/// rejects the text.
pub uninterp spec fn parsed_day_number(text: Seq<char>) -> Option<int>;

/// The text that chrono writes for day number `n` under the pattern
/// `%Y-%m-%d`.
pub uninterp spec fn iso_text(n: int) -> Seq<char>;

/// The calendar year in which day number `n` falls, as chrono counts years.
pub uninterp spec fn year_of_day(n: int) -> int;

/// The date that `text` names, as [`Date::parse`] reads it.
pub open spec fn parsed_date(text: Seq<char>) -> Option<int> {
    match parsed_day_number(text) {
        Some(n) => if is_day_number(n) { Some(n) } else { None },
        None => None,
    }
}

/// The date that `text` names when `text` is exactly what chrono writes for
/// that date; `None` for every other text.
pub open spec fn canonical_date(text: Seq<char>) -> Option<int> {
    match parsed_date(text) {
        Some(n) => if iso_text(n) == text { Some(n) } else { None },
        None => None,
    }
}

/// A calendar date.
#[derive(Clone, Copy, Debug, PartialEq, Eq, Structural, PartialOrd, Ord, Hash)]
pub struct Date {
    pub(crate) days: i32,
}

impl View for Date {
    type V = int;

    closed spec fn view(&self) -> int {
        self.days as int
    }
}

/// Calls `NaiveDate::parse_from_str(text, "%Y-%m-%d")` and hands back the
/// day number of the date read. Trusted: the result is what
/// [`parsed_day_number`] names for this text.
#[verifier::external_body]
fn chrono_parse(text: &str) -> (r: Option<i32>)
    ensures
        r matches Some(n) ==> parsed_day_number(text@) == Some(n as int),
        r is None ==> parsed_day_number(text@) is None,
{
    match chrono::NaiveDate::parse_from_str(text, "%Y-%m-%d") {
        Ok(date) => Some(chrono::Datelike::num_days_from_ce(&date)),
        Err(_) => None,
    }
}

/// Calls `NaiveDate::format("%Y-%m-%d")` on the date with day number `n`.
/// Trusted: the text is what [`iso_text`] names for `n`.
#[verifier::external_body]
fn chrono_format(n: i32) -> (r: String)
    requires
        is_day_number(n as int),
    ensures
        r@ == iso_text(n as int),
{
    match chrono::NaiveDate::from_num_days_from_ce_opt(n) {
        Some(date) => date.format("%Y-%m-%d").to_string(),
        None => String::new(),
    }
}

/// Calls `Datelike::year` on the date with day number `n`. Trusted: the
/// result is what [`year_of_day`] names for `n`.
#[verifier::external_body]
fn chrono_year(n: i32) -> (r: i32)
    requires
        is_day_number(n as int),
    ensures
        r == year_of_day(n as int),
{
    match chrono::NaiveDate::from_num_days_from_ce_opt(n) {
        Some(date) => chrono::Datelike::year(&date),
        None => 0,
    }
}

impl Date {
    #[verifier::type_invariant]
    spec fn in_range(self) -> bool {
        is_day_number(self.days as int)
    }

    /// The date with day number `n`, if there is one.
    pub fn from_days(n: i32) -> (r: Option<Date>)
        ensures
            r matches Some(d) ==> d@ == n && is_day_number(n as int),
            r is None <==> !is_day_number(n as int),
    {
        if MIN_DAY_NUMBER <= n && n <= MAX_DAY_NUMBER {
            Some(Date { days: n })
        } else {
            None
        }
    }

    /// The date with day number `n`, for callers that know there is one.
    pub(crate) fn at(n: i32) -> (d: Date)
        requires
            is_day_number(n as int),
        ensures
            d@ == n,
    {
        Date { days: n }
    }

    /// Two dates with one day number are one date.
    pub proof fn same_day(self, other: Date)
        ensures
            (self@ == other@) == (self == other),
    {
    }

    /// The day number of this date.
    pub fn days(&self) -> (n: i32)
        ensures
            n == self@,
            is_day_number(n as int),
    {
        proof {
            use_type_invariant(self);
        }
        self.days
    }

    /// The day after this one, or `None` after the last date.
    pub fn succ(&self) -> (r: Option<Date>)
        ensures
            r matches Some(d) ==> d@ == self@ + 1,
            r is None <==> self@ == MAX_DAY_NUMBER,
    {
        proof {
            use_type_invariant(self);
        }
        if self.days < MAX_DAY_NUMBER {
            Some(Date { days: self.days + 1 })
        } else {
            None
        }
    }

    /// Days since Monday: 0 for Monday up to 6 for Sunday.
    pub fn num_days_from_monday(&self) -> (w: u32)
        ensures
            w == days_from_monday(self@),
            w < 7,
    {
        proof {
            use_type_invariant(self);
        }
        // MIN_DAY_NUMBER - 1 leaves 3 when divided by 7.
        let offset: i64 = self.days as i64 - MIN_DAY_NUMBER as i64 + 3;
        (offset % 7) as u32
    }

    /// Reads a date written as `YYYY-MM-DD`, as leniently as chrono does.
    pub fn parse(text: &str) -> (r: Option<Date>)
        ensures
            r matches Some(d) ==> parsed_date(text@) == Some(d@),
            r is None <==> parsed_date(text@) is None,
    {
        match chrono_parse(text) {
            Some(n) => Date::from_days(n),
            None => None,
        }
    }

    /// Reads a date from the exact text that [`Date::to_iso_string`] writes
    /// for it, and from no other.
    pub fn parse_canonical(text: &str) -> (r: Option<Date>)
        ensures
            r matches Some(d) ==> canonical_date(text@) == Some(d@),
            r is None <==> canonical_date(text@) is None,
    {
        match Date::parse(text) {
            Some(d) => {
                let written = d.to_iso_string();
                if same_text(written.as_str(), text) {
                    Some(d)
                } else {
                    None
                }
            },
            None => None,
        }
    }

    /// Writes this date as `YYYY-MM-DD`.
    pub fn to_iso_string(&self) -> (r: String)
        ensures
            r@ == iso_text(self@),
    {
        chrono_format(self.days())
    }

    /// The calendar year of this date.
    pub fn year(&self) -> (y: i32)
        ensures
            y == year_of_day(self@),
    {
        chrono_year(self.days())
    }
}

} // verus!
