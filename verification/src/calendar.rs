//! Calendar days, counted and named by `chrono`.
//!
//! A day is held as its number in the proleptic Gregorian calendar, the
//! first of January of the year 1 being day 1. Everything that needs the
//! calendar itself (the successor at the end of the range, the text of a
//! day) is asked of `chrono::NaiveDate`.

use chrono::Datelike;
use vstd::prelude::*;
use vstd::string::StringExecFns;

verus! {

/// The number of the first day that `chrono::NaiveDate` can hold.
pub const FIRST_DAY: i32 = -95_746_129;

/// The number of the last day that `chrono::NaiveDate` can hold.
pub const LAST_DAY: i32 = 95_745_399;

/// The text of day `number` under the `strftime` pattern `pattern`.
pub uninterp spec fn day_text(number: int, pattern: Seq<char>) -> Seq<char>;

/// The number of the day that `text` names under the pattern `pattern`, if it
/// names one.
pub uninterp spec fn parsed_day(text: Seq<char>, pattern: Seq<char>) -> Option<int>;

/// The pattern of a day inside a timestamp: year, month and day with hyphens.
pub open spec fn iso_pattern() -> Seq<char> {
    "%Y-%m-%d"@
}

/// The pattern of a day inside a file name: year, month and day with
/// underscores.
pub open spec fn file_pattern() -> Seq<char> {
    "%Y_%m_%d"@
}

/// `NaiveDate::succ_opt`: the next day, and none after the last day.
#[verifier::external_body]
pub(crate) fn successor(number: i32) -> (next: Option<i32>)
    requires
        FIRST_DAY <= number <= LAST_DAY,
    ensures
        next == (if number < LAST_DAY {
            Some((number + 1) as i32)
        } else {
            None
        }),
{
    let date = chrono::NaiveDate::from_num_days_from_ce_opt(number).unwrap();
    match date.succ_opt() {
        Some(next) => Some(next.num_days_from_ce()),
        None => None,
    }
}

/// `NaiveDate::format` with one of the two patterns of this library, written
/// out: the text that `day_text` names.
#[verifier::external_body]
pub(crate) fn format_number(number: i32, pattern: &str) -> (text: String)
    requires
        FIRST_DAY <= number <= LAST_DAY,
        pattern@ == iso_pattern() || pattern@ == file_pattern(),
    ensures
        text@ == day_text(number as int, pattern@),
{
    let date = chrono::NaiveDate::from_num_days_from_ce_opt(number).unwrap();
    date.format(pattern).to_string()
}

/// `NaiveDate::parse_from_str`: the number of the day that `parsed_day`
/// names, which lies in `chrono`'s range; the parser's error is dropped.
#[verifier::external_body]
pub(crate) fn parse_number(text: &str, pattern: &str) -> (number: Option<i32>)
    ensures
        match number {
            Some(n) => parsed_day(text@, pattern@) == Some(n as int) && FIRST_DAY <= n <= LAST_DAY,
            None => parsed_day(text@, pattern@).is_none(),
        },
{
    match chrono::NaiveDate::parse_from_str(text, pattern) {
        Ok(date) => Some(date.num_days_from_ce()),
        Err(_) => None,
    }
}

/// One calendar day.
#[derive(Clone, Copy, Debug, PartialEq, Eq, Structural)]
pub struct Day {
    pub number: i32,
}

impl Day {
    /// A day is valid when the calendar can hold it.
    pub open spec fn valid(self) -> bool {
        FIRST_DAY <= self.number <= LAST_DAY
    }

    /// The start of this day as a timestamp.
    pub open spec fn spec_start_instant(self) -> Seq<char> {
        day_text(self.number as int, iso_pattern()) + "T00:00:00Z"@
    }

    /// The name of the log file of this day's partition.
    pub open spec fn spec_log_name(self) -> Seq<char> {
        "day_"@ + day_text(self.number as int, file_pattern()) + ".jsonl"@
    }

    /// The day after this one; none after the last day.
    pub open spec fn next_day(self) -> Option<Day> {
        if self.number < LAST_DAY {
            Some(Day { number: (self.number + 1) as i32 })
        } else {
            None
        }
    }

    /// Whether the calendar can hold this day.
    pub fn is_valid(&self) -> (yes: bool)
        ensures
            yes == self.valid(),
    {
        FIRST_DAY <= self.number && self.number <= LAST_DAY
    }

    /// The day with the given number, if the calendar can hold it.
    pub fn new(number: i32) -> (day: Option<Day>)
        ensures
            day == (if FIRST_DAY <= number <= LAST_DAY {
                Some(Day { number })
            } else {
                None
            }),
    {
        if FIRST_DAY <= number && number <= LAST_DAY {
            Some(Day { number })
        } else {
            None
        }
    }

    /// Reads a day written as year, month and day with hyphens.
    pub fn parse(text: &str) -> (day: Option<Day>)
        ensures
            match day {
                Some(d) => d.valid() && parsed_day(text@, iso_pattern()) == Some(d.number as int),
                None => parsed_day(text@, iso_pattern()).is_none(),
            },
    {
        match parse_number(text, "%Y-%m-%d") {
            Some(number) => Some(Day { number }),
            None => None,
        }
    }

    /// The day after this one; none after the last day.
    pub fn next(&self) -> (day: Option<Day>)
        requires
            self.valid(),
        ensures
            day == self.next_day(),
            day is Some ==> day->Some_0.valid(),
    {
        match successor(self.number) {
            Some(number) => Some(Day { number }),
            None => None,
        }
    }

    /// This day written as year, month and day with hyphens.
    pub fn iso_text(&self) -> (text: String)
        requires
            self.valid(),
        ensures
            text@ == day_text(self.number as int, iso_pattern()),
    {
        format_number(self.number, "%Y-%m-%d")
    }

    /// The instant at which this day starts, as the source writes timestamps.
    pub fn start_instant(&self) -> (text: String)
        requires
            self.valid(),
        ensures
            text@ == self.spec_start_instant(),
    {
        let mut text = format_number(self.number, "%Y-%m-%d");
        text.append("T00:00:00Z");
        text
    }

    /// The name of the log file of this day's partition: the same for every
    /// run, so that a later run finds the file again.
    pub fn log_name(&self) -> (name: String)
        requires
            self.valid(),
        ensures
            name@ == self.spec_log_name(),
    {
        let mut name = String::from_str("day_");
        let day = format_number(self.number, "%Y_%m_%d");
        name.append(day.as_str());
        name.append(".jsonl");
        name
    }
}

} // verus!
