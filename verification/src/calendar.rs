//! Calendar days, their order, and the academic-year windows built on them.
//!
//! The calendar arithmetic itself is done by `chrono`; this module states what
//! the library relies on and proves the window computations from that.

use chrono::{Datelike, Days, NaiveDate};
use crate::text::{digit_char, is_digit};
use vstd::prelude::*;

verus! {

/// The earliest year a [`Date`] can carry.
pub const FIRST_YEAR: i32 = -262143;

/// The latest year a [`Date`] can carry.
pub const LAST_YEAR: i32 = 262142;

/// Distance between an academic-year number and the civil year in which that
/// academic year begins.
pub const ACADEMIC_YEAR_OFFSET: i32 = 1911;

/// A day of the proleptic Gregorian calendar.
#[derive(Clone, Copy, Debug, PartialEq, Eq, Structural)]
pub struct Date {
    pub year: i32,
    pub month: u32,
    pub day: u32,
}

/// Whether a year has a 29th of February.
pub open spec fn is_leap_year(year: int) -> bool {
    year % 4 == 0 && (year % 100 != 0 || year % 400 == 0)
}

/// The number of days of a month.
pub open spec fn days_in_month(year: int, month: int) -> int {
    if month == 2 {
        if is_leap_year(year) {
            29
        } else {
            28
        }
    } else if month == 4 || month == 6 || month == 9 || month == 11 {
        30
    } else {
        31
    }
}

/// The day that comes immediately before `d`, if the calendar has one.
pub open spec fn day_before(d: Date) -> Option<Date> {
    if d.day > 1 {
        Some(Date { year: d.year, month: d.month, day: (d.day - 1) as u32 })
    } else if d.month > 1 {
        Some(
            Date {
                year: d.year,
                month: (d.month - 1) as u32,
                day: days_in_month(d.year as int, d.month - 1) as u32,
            },
        )
    } else if d.year > FIRST_YEAR {
        Some(Date { year: (d.year - 1) as i32, month: 12, day: 31 })
    } else {
        None
    }
}

/// What `chrono` reads out of a text under the pattern `%Y-%m-%d`; `None`
/// where it rejects the text.
pub uninterp spec fn iso_date_of(text: Seq<char>) -> Option<Date>;

/// The day that `chrono` finds `days` days after `base`; `None` where it
/// finds none.
pub uninterp spec fn day_after(base: Date, days: int) -> Option<Date>;

/// The day from which sheets count their days: 30 December 1899.
pub open spec fn sheet_epoch() -> Date {
    Date { year: 1899, month: 12, day: 30 }
}

/// The day that a sheet means by the day count `days`.
pub open spec fn serial_date_of(days: int) -> Option<Date> {
    day_after(sheet_epoch(), days)
}

/// How `chrono` prints a calendar day under the pattern `%Y-%m-%d`.
pub uninterp spec fn iso_text_of(date: Date) -> Seq<char>;

/// Whether a text has the shape `dddd-dd-dd`: ten characters, decimal
/// digits but for a hyphen in the fifth and in the eighth place.
pub open spec fn is_plain_date(text: Seq<char>) -> bool {
    &&& text.len() == 10
    &&& text[4] == '-'
    &&& text[7] == '-'
    &&& is_digit(text[0])
    &&& is_digit(text[1])
    &&& is_digit(text[2])
    &&& is_digit(text[3])
    &&& is_digit(text[5])
    &&& is_digit(text[6])
    &&& is_digit(text[8])
    &&& is_digit(text[9])
}

/// The number that the digit in place `i` of a text stands for.
pub open spec fn digit_at(text: Seq<char>, i: int) -> int {
    text[i] as u32 - 48
}

/// The three numbers that a text of the shape `dddd-dd-dd` writes.
pub open spec fn plain_date_of(text: Seq<char>) -> Date {
    Date {
        year: (digit_at(text, 0) * 1000 + digit_at(text, 1) * 100 + digit_at(text, 2) * 10
            + digit_at(text, 3)) as i32,
        month: (digit_at(text, 5) * 10 + digit_at(text, 6)) as u32,
        day: (digit_at(text, 8) * 10 + digit_at(text, 9)) as u32,
    }
}

/// The value when it names a day that exists, and `None` otherwise.
pub open spec fn existing(date: Date) -> Option<Date> {
    if date.is_valid() {
        Some(date)
    } else {
        None
    }
}

/// A day with a year of four digits at most written in the shape
/// `dddd-dd-dd`, each number filled up with zeros.
pub open spec fn plain_text_of(date: Date) -> Seq<char> {
    let year = date.year as int;
    let month = date.month as int;
    let day = date.day as int;
    seq![
        digit_char(year / 1000),
        digit_char(year / 100 % 10),
        digit_char(year / 10 % 10),
        digit_char(year % 10),
        '-',
        digit_char(month / 10),
        digit_char(month % 10),
        '-',
        digit_char(day / 10),
        digit_char(day % 10),
    ]
}

impl Date {
    /// Whether the three numbers name a day that exists.
    pub open spec fn is_valid(self) -> bool {
        &&& FIRST_YEAR <= self.year <= LAST_YEAR
        &&& 1 <= self.month <= 12
        &&& 1 <= self.day <= days_in_month(self.year as int, self.month as int)
    }

    /// Chronological order: `self` is `other` or an earlier day.
    pub open spec fn spec_le(self, other: Date) -> bool {
        self.year < other.year || (self.year == other.year && (self.month < other.month || (
        self.month == other.month && self.day <= other.day)))
    }

    /// Strict chronological order.
    pub open spec fn spec_lt(self, other: Date) -> bool {
        self.spec_le(other) && self != other
    }

    /// The day with the given numbers, or `None` when no such day exists.
    pub fn from_ymd(year: i32, month: u32, day: u32) -> (r: Option<Date>)
        ensures
            r == (if (Date { year, month, day }).is_valid() {
                Some(Date { year, month, day })
            } else {
                None
            }),
    {
        chrono_from_ymd(year, month, day)
    }

    /// Whether the value names a day that exists.
    pub fn check(&self) -> (r: bool)
        ensures
            r == self.is_valid(),
    {
        chrono_from_ymd(self.year, self.month, self.day).is_some()
    }

    /// Reads a day written as `YYYY-MM-DD`.
    pub fn parse(text: &str) -> (r: Option<Date>)
        ensures
            r == iso_date_of(text@),
            r is Some ==> r->0.is_valid(),
            is_plain_date(text@) ==> r == existing(plain_date_of(text@)),
    {
        chrono_parse_ymd(text)
    }

    /// The day `days` days after this one.
    pub fn plus_days(&self, days: i64) -> (r: Option<Date>)
        ensures
            r == day_after(*self, days as int),
            r is Some ==> r->0.is_valid(),
            days < 0 || !self.is_valid() ==> r is None,
            days == 0 ==> r == existing(*self),
    {
        chrono_add_days(*self, days)
    }

    /// The day that a sheet means by the day count `days`.
    pub fn from_serial(days: i64) -> (r: Option<Date>)
        ensures
            r == serial_date_of(days as int),
            r is Some ==> r->0.is_valid(),
            days < 0 ==> r is None,
            days == 0 ==> r == Some(sheet_epoch()),
    {
        let epoch = Date { year: 1899, month: 12, day: 30 };
        epoch.plus_days(days)
    }

    /// The previous calendar day; `None` for a value that is no calendar
    /// day, and for the first day of [`FIRST_YEAR`].
    pub fn pred(&self) -> (r: Option<Date>)
        ensures
            r == (if self.is_valid() {
                day_before(*self)
            } else {
                None
            }),
            r is Some ==> r->0.is_valid() && r->0.spec_lt(*self),
    {
        let r = chrono_pred(*self);
        proof {
            if r is Some {
                lemma_day_before_valid(*self);
            }
        }
        r
    }

    /// The day written as `YYYY-MM-DD`; `None` for a value that is no
    /// calendar day.
    pub fn to_iso(&self) -> (r: Option<String>)
        ensures
            r is Some <==> self.is_valid(),
            r is Some ==> r->0@ == iso_text_of(*self),
            r is Some && 0 <= self.year <= 9999 ==> r->0@ == plain_text_of(*self),
    {
        chrono_format_ymd(*self)
    }

    /// Whether `self` is `other` or an earlier day.
    pub fn le(&self, other: &Date) -> (r: bool)
        ensures
            r == self.spec_le(*other),
    {
        self.year < other.year || (self.year == other.year && (self.month < other.month || (
        self.month == other.month && self.day <= other.day)))
    }

    /// Whether `self` is an earlier day than `other`.
    pub fn lt(&self, other: &Date) -> (r: bool)
        ensures
            r == self.spec_lt(*other),
    {
        self.le(other) && !(self.year == other.year && self.month == other.month && self.day
            == other.day)
    }
}

/// The day before a calendar day is a calendar day, and an earlier one.
pub proof fn lemma_day_before_valid(d: Date)
    requires
        d.is_valid(),
        day_before(d) is Some,
    ensures
        day_before(d)->0.is_valid(),
        day_before(d)->0.spec_lt(d),
{
}

/// Chronological order is a total order.
pub proof fn lemma_date_order(a: Date, b: Date, c: Date)
    ensures
        a.spec_le(a),
        a.spec_le(b) || b.spec_le(a),
        a.spec_le(b) && b.spec_le(a) ==> a == b,
        a.spec_le(b) && b.spec_le(c) ==> a.spec_le(c),
{
}

/// `NaiveDate::from_ymd_opt`: the day with these numbers when the calendar
/// has it and the year lies between [`FIRST_YEAR`] and [`LAST_YEAR`], and
/// `None` otherwise.
#[verifier::external_body]
fn chrono_from_ymd(year: i32, month: u32, day: u32) -> (r: Option<Date>)
    ensures
        r == (if (Date { year, month, day }).is_valid() {
            Some(Date { year, month, day })
        } else {
            None
        }),
{
    NaiveDate::from_ymd_opt(year, month, day).map(
        |d| Date { year: d.year(), month: d.month(), day: d.day() },
    )
}

/// `NaiveDate::parse_from_str` with the pattern `%Y-%m-%d`. The result is
/// named, not described in full. Two things are claimed of it: a parsed
/// day is a day of the calendar, which every `NaiveDate` is; and a text of
/// the shape `dddd-dd-dd` is read as the three numbers it writes, and is
/// turned away exactly when no such day exists.
#[verifier::external_body]
fn chrono_parse_ymd(text: &str) -> (r: Option<Date>)
    ensures
        r == iso_date_of(text@),
        r is Some ==> r->0.is_valid(),
        is_plain_date(text@) ==> r == existing(plain_date_of(text@)),
{
    match NaiveDate::parse_from_str(text, "%Y-%m-%d") {
        Ok(d) => Some(Date { year: d.year(), month: d.month(), day: d.day() }),
        Err(_) => None,
    }
}

/// `NaiveDate::checked_add_days`, with the count handed over as `u64` the
/// way `as` converts it, on the `NaiveDate` that `NaiveDate::from_ymd_opt`
/// makes of `base`. The result is named, not described in full. Claimed of
/// it: a day found is a day of the calendar, which every `NaiveDate` is; a
/// count below zero, which `as` turns into one above `i32::MAX`, finds no
/// day, nor does a `base` that is no day; and a count of zero finds `base`
/// itself.
#[verifier::external_body]
fn chrono_add_days(base: Date, days: i64) -> (r: Option<Date>)
    ensures
        r == day_after(base, days as int),
        r is Some ==> r->0.is_valid(),
        days < 0 || !base.is_valid() ==> r is None,
        days == 0 ==> r == existing(base),
{
    NaiveDate::from_ymd_opt(base.year, base.month, base.day).and_then(
        |d| d.checked_add_days(Days::new(days as u64)),
    ).map(|d| Date { year: d.year(), month: d.month(), day: d.day() })
}

/// `NaiveDate::pred_opt`: the previous calendar day, `None` on the first
/// representable day. A value that `NaiveDate::from_ymd_opt` rejects has no
/// previous day either.
#[verifier::external_body]
fn chrono_pred(date: Date) -> (r: Option<Date>)
    ensures
        r == (if date.is_valid() {
            day_before(date)
        } else {
            None
        }),
{
    NaiveDate::from_ymd_opt(date.year, date.month, date.day).and_then(|d| d.pred_opt()).map(
        |d| Date { year: d.year(), month: d.month(), day: d.day() },
    )
}

/// `NaiveDate::format` with the pattern `%Y-%m-%d`, turned into a `String`.
/// The text is named, and described for the years from 0 to 9999: four
/// digits, two and two, each number filled up with zeros, with hyphens
/// between. A value that `NaiveDate::from_ymd_opt` rejects is not printed.
#[verifier::external_body]
fn chrono_format_ymd(date: Date) -> (r: Option<String>)
    ensures
        r is Some <==> date.is_valid(),
        r is Some ==> r->0@ == iso_text_of(date),
        r is Some && 0 <= date.year <= 9999 ==> r->0@ == plain_text_of(date),
{
    NaiveDate::from_ymd_opt(date.year, date.month, date.day).map(
        |d| d.format("%Y-%m-%d").to_string(),
    )
}

/// The span of days that makes up one academic year, both ends included,
/// together with the last day before it.
#[derive(Clone, Copy, Debug, PartialEq, Eq, Structural)]
pub struct Window {
    pub start: Date,
    pub end: Date,
    pub eve: Date,
}

/// The first day of academic year `year`: the first of August of the civil
/// year that lies [`ACADEMIC_YEAR_OFFSET`] after it.
pub open spec fn window_start(year: int) -> Date {
    Date { year: (year + ACADEMIC_YEAR_OFFSET) as i32, month: 8, day: 1 }
}

/// The last day of academic year `year`: the last of July of the following
/// civil year.
pub open spec fn window_end(year: int) -> Date {
    Date { year: (year + ACADEMIC_YEAR_OFFSET + 1) as i32, month: 7, day: 31 }
}

/// The last day before academic year `year` begins.
pub open spec fn window_eve(year: int) -> Date {
    Date { year: (year + ACADEMIC_YEAR_OFFSET) as i32, month: 7, day: 31 }
}

/// Whether the calendar holds all of academic year `year`.
pub open spec fn year_in_calendar(year: int) -> bool {
    0 <= year && year + ACADEMIC_YEAR_OFFSET + 1 <= LAST_YEAR
}

/// The window of academic year `year`, or `None` when the calendar does not
/// reach that far.
pub fn academic_year_window(year: u32) -> (r: Option<Window>)
    ensures
        r is Some <==> year_in_calendar(year as int),
        r is Some ==> r->0 == (Window {
            start: window_start(year as int),
            end: window_end(year as int),
            eve: window_eve(year as int),
        }),
        r is Some ==> r->0.start.is_valid() && r->0.end.is_valid() && r->0.eve.is_valid(),
        r is Some ==> r->0.eve.spec_lt(r->0.start) && r->0.start.spec_le(r->0.end),
{
    if year > 260230 {
        return None;
    }
    let civil: i32 = year as i32 + ACADEMIC_YEAR_OFFSET;
    let start = Date::from_ymd(civil, 8, 1);
    let end = Date::from_ymd(civil + 1, 7, 31);
    match (start, end) {
        (Some(start), Some(end)) => {
            match start.pred() {
                Some(eve) => Some(Window { start, end, eve }),
                None => None,
            }
        },
        _ => None,
    }
}

/// The first day of the scholarship year `year`: the first of September of
/// the civil year that lies [`ACADEMIC_YEAR_OFFSET`] after it.
pub open spec fn scholarship_year_start(year: int) -> Date {
    Date { year: (year + ACADEMIC_YEAR_OFFSET) as i32, month: 9, day: 1 }
}

/// The last day of the scholarship year `year`: the last of August of the
/// following civil year.
pub open spec fn scholarship_year_end(year: int) -> Date {
    Date { year: (year + ACADEMIC_YEAR_OFFSET + 1) as i32, month: 8, day: 31 }
}

/// A span of days, both ends included.
#[derive(Clone, Copy, Debug, PartialEq, Eq, Structural)]
pub struct Span {
    pub first: Date,
    pub last: Date,
}

impl Span {
    /// Whether a day lies within the span.
    pub open spec fn spec_contains(&self, date: Date) -> bool {
        self.first.spec_le(date) && date.spec_le(self.last)
    }

    /// Whether a day lies within the span.
    #[verifier::when_used_as_spec(spec_contains)]
    pub fn contains(&self, date: Date) -> (r: bool)
        ensures
            r == self.spec_contains(date),
    {
        self.first.le(&date) && date.le(&self.last)
    }
}

/// The span of scholarship year `year`, or `None` when the calendar does
/// not reach that far.
pub fn scholarship_year_span(year: u32) -> (r: Option<Span>)
    ensures
        r is Some <==> year_in_calendar(year as int),
        r is Some ==> r->0 == (Span {
            first: scholarship_year_start(year as int),
            last: scholarship_year_end(year as int),
        }),
        r is Some ==> r->0.first.is_valid() && r->0.last.is_valid(),
{
    if year > 260230 {
        return None;
    }
    let civil: i32 = year as i32 + ACADEMIC_YEAR_OFFSET;
    match (Date::from_ymd(civil, 9, 1), Date::from_ymd(civil + 1, 8, 31)) {
        (Some(first), Some(last)) => Some(Span { first, last }),
        _ => None,
    }
}

} // verus!
