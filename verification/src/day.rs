//! Calendar days and the text that stands for one.

use vstd::prelude::*;
use crate::text::{numeral, two_digits};

verus! {

/// A day of the Gregorian calendar.
pub struct Date {
    pub year: nat,
    pub month: nat,
    pub day: nat,
}

/// How many days a month has.
pub open spec fn days_in_month(year: nat, month: nat) -> nat {
    if month == 2 {
        if year % 4 == 0 && (year % 100 != 0 || year % 400 == 0) {
            29
        } else {
            28
        }
    } else if month == 4 || month == 6 || month == 9 || month == 11 {
        30
    } else {
        31
    }
}

/// Whether there is such a day.
pub open spec fn is_date(d: Date) -> bool {
    &&& 1 <= d.month <= 12
    &&& 1 <= d.day <= days_in_month(d.year, d.month)
}

/// The year in four digits, or behind a plus sign where it takes more.
pub open spec fn year_text(year: nat) -> Seq<char> {
    if year < 10 {
        seq!['0', '0', '0'] + numeral(year)
    } else if year < 100 {
        seq!['0', '0'] + numeral(year)
    } else if year < 1000 {
        seq!['0'] + numeral(year)
    } else if year < 10000 {
        numeral(year)
    } else {
        seq!['+'] + numeral(year)
    }
}

/// The text that stands for a day: year, month and day with hyphens between them.
pub open spec fn day_text(d: Date) -> Seq<char> {
    year_text(d.year).push('-') + two_digits(d.month).push('-') + two_digits(d.day)
}

/// Whether a text stands for a day.
pub open spec fn is_day_text(t: Seq<char>) -> bool {
    exists|d: Date| is_date(d) && t == #[trigger] day_text(d)
}

/// There is a text that stands for a day.
pub proof fn lemma_some_day()
    ensures
        exists|t: Seq<char>| is_day_text(t),
{
    let first = Date { year: 1970, month: 1, day: 1 };
    assert(is_date(first));
    assert(is_day_text(day_text(first)));
}

/// `chrono::Local::now`, formatted by `chrono::DateTime::format` with the pattern `%Y-%m-%d`, is
/// the text of a day: the one that the clock and the time zone of the machine give. Which one is
/// not said, and two calls may differ. The clock stands at or after the start of 1970, else the
/// call panics.
#[verifier::external_body]
pub(crate) fn today() -> (r: String)
    ensures
        is_day_text(r@),
{
    chrono::Local::now().format("%Y-%m-%d").to_string()
}

/// Whether a text is one that the clock of the machine gives for a day: one that [`today`] may
/// return. That it stands for some day does not make it one.
pub closed spec fn is_clock_day(t: Seq<char>) -> bool {
    exists|s: String| #[trigger] call_ensures(today, (), s) && s@ == t
}

/// Calls a function that takes nothing, and keeps that its result is one of this function.
fn result_of<F: Fn() -> String>(f: F) -> (r: String)
    requires
        call_requires(f, ()),
    ensures
        call_ensures(f, (), r),
{
    f()
}

/// The text of the day that it is now, as the clock of the machine gives it.
pub(crate) fn clock_day() -> (r: String)
    ensures
        is_clock_day(r@),
        is_day_text(r@),
{
    result_of(today)
}

/// What counts as a day of the clock was returned by the call that reads the clock, and stands for
/// a day.
proof fn law_clock_days_come_from_the_clock(t: Seq<char>)
    requires
        is_clock_day(t),
    ensures
        exists|s: String| #[trigger] call_ensures(today, (), s) && s@ == t,
        is_day_text(t),
{
}

} // verus!
