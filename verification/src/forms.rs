//! What callers send in and get back: plain values, checked here before
//! they reach the rest of the library.

use crate::calendar::{
    academic_year_window, scholarship_year_end, scholarship_year_span, scholarship_year_start,
    year_in_calendar, Span, Window,
};
use crate::cohort::window_of;
use crate::text::same_text;
use vstd::prelude::*;

verus! {

/// A request to sign in.
#[derive(Debug)]
pub struct LoginRequest {
    pub username: String,
    pub password: String,
}

/// A request to create an account.
#[derive(Debug)]
pub struct CreateUserRequest {
    pub username: String,
    pub password: String,
}

/// Asks for the students who first passed in one academic year.
#[derive(Clone, Copy, Debug, PartialEq, Eq, Structural)]
pub struct PassedByYearForm {
    pub academic_year: u32,
}

impl PassedByYearForm {
    /// The span of the academic year asked for; `None` when the calendar
    /// does not reach it.
    pub fn window(&self) -> (r: Option<Window>)
        ensures
            r is Some <==> year_in_calendar(self.academic_year as int),
            r is Some ==> r->0 == window_of(self.academic_year as int),
    {
        academic_year_window(self.academic_year)
    }
}

/// Which days a scholarship query covers.
#[derive(Clone, Copy, Debug, PartialEq, Eq, Structural)]
pub enum Coverage {
    /// Every day.
    Always,
    /// The days of one span.
    Within(Span),
    /// No day: the year asked for lies beyond the calendar.
    Never,
}

/// The days that a query for `year` covers: all of them when no year is
/// given, else the scholarship year of that number.
pub open spec fn coverage_of(year: Option<u32>) -> Coverage {
    match year {
        None => Coverage::Always,
        Some(year) => if year_in_calendar(year as int) {
            Coverage::Within(
                Span {
                    first: scholarship_year_start(year as int),
                    last: scholarship_year_end(year as int),
                },
            )
        } else {
            Coverage::Never
        },
    }
}

fn coverage_for(year: Option<u32>) -> (r: Coverage)
    ensures
        r == coverage_of(year),
{
    match year {
        None => Coverage::Always,
        Some(year) => match scholarship_year_span(year) {
            Some(span) => Coverage::Within(span),
            None => Coverage::Never,
        },
    }
}

/// Which scholarship records a query asks for.
#[derive(Clone, Copy, Debug, PartialEq, Eq, Structural)]
pub struct Selection {
    pub claimed: bool,
    pub unclaimed: bool,
}

/// What a status word selects: `all` both kinds, `claimed` and `unclaimed`
/// one each, any other word nothing.
pub open spec fn selection_of(status: Seq<char>) -> Selection {
    Selection {
        claimed: status == "all"@ || status == "claimed"@,
        unclaimed: status == "all"@ || status == "unclaimed"@,
    }
}

fn selection_for(status: &str) -> (r: Selection)
    ensures
        r == selection_of(status@),
{
    let all = same_text(status, "all");
    Selection {
        claimed: all || same_text(status, "claimed"),
        unclaimed: all || same_text(status, "unclaimed"),
    }
}

/// Asks for the scholarships paid out, of one scholarship year or of all
/// time.
#[derive(Clone, Copy, Debug, PartialEq, Eq, Structural)]
pub struct ClaimedScholarshipForm {
    pub academic_year: Option<u32>,
}

impl ClaimedScholarshipForm {
    /// The days that the query covers.
    pub fn coverage(&self) -> (r: Coverage)
        ensures
            r == coverage_of(self.academic_year),
    {
        coverage_for(self.academic_year)
    }
}

/// Asks for a sheet of scholarships, paid out or still open.
#[derive(Debug)]
pub struct ScholarshipExcelForm {
    pub academic_year: Option<u32>,
    pub status: String,
}

impl ScholarshipExcelForm {
    /// The days that the query covers.
    pub fn coverage(&self) -> (r: Coverage)
        ensures
            r == coverage_of(self.academic_year),
    {
        coverage_for(self.academic_year)
    }

    /// The kinds of scholarship that the query asks for.
    pub fn selection(&self) -> (r: Selection)
        ensures
            r == selection_of(self.status@),
    {
        selection_for(self.status.as_str())
    }
}

/// Asks for a list of scholarships, paid out or still open.
#[derive(Debug)]
pub struct ScholarshipQueryForm {
    pub status: String,
    pub academic_year: Option<u32>,
}

impl ScholarshipQueryForm {
    /// The days that the query covers.
    pub fn coverage(&self) -> (r: Coverage)
        ensures
            r == coverage_of(self.academic_year),
    {
        coverage_for(self.academic_year)
    }

    /// The kinds of scholarship that the query asks for.
    pub fn selection(&self) -> (r: Selection)
        ensures
            r == selection_of(self.status@),
    {
        selection_for(self.status.as_str())
    }
}

} // verus!
