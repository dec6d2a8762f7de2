//! The pass rules: what a student's attendance history adds up to, and
//! which of the two thresholds it meets.

use crate::records::{attendance_views, Attendance, AttendanceView};
use vstd::prelude::*;
use vstd::string::StringExecFns;

verus! {

/// Smallest score in one session that qualifies a student on its own.
pub const SINGLE_SESSION_THRESHOLD: u32 = 2;

/// Smallest sum over all sessions that qualifies a student.
pub const CUMULATIVE_THRESHOLD: u32 = 3;

/// What a row contributes to `student`'s history: its score when the row is
/// theirs and they sat the exam, nothing otherwise.
pub open spec fn counted_for(row: AttendanceView, student: Seq<char>) -> int {
    if row.student == student && !row.is_absent {
        row.score
    } else {
        0
    }
}

/// The sum of `student`'s scores over the sessions they sat.
pub open spec fn total_for(rows: Seq<AttendanceView>, student: Seq<char>) -> int
    decreases rows.len(),
{
    if rows.len() == 0 {
        0
    } else {
        total_for(rows.drop_last(), student) + counted_for(rows.last(), student)
    }
}

/// The best score of `student` over the sessions they sat; zero when there
/// is none.
pub open spec fn max_for(rows: Seq<AttendanceView>, student: Seq<char>) -> int
    decreases rows.len(),
{
    if rows.len() == 0 {
        0
    } else {
        let before = max_for(rows.drop_last(), student);
        let here = counted_for(rows.last(), student);
        if here > before {
            here
        } else {
            before
        }
    }
}

/// The two numbers the pass rules look at.
#[derive(Clone, Copy, Debug, PartialEq, Eq, Structural)]
pub struct Tally {
    /// Sum of the scores. Wide enough that no history can overflow it.
    pub total: u128,
    /// Best single score.
    pub max: u32,
}

/// Which of the two thresholds a history meets.
#[derive(Clone, Copy, Debug, PartialEq, Eq, Structural)]
pub struct Criteria {
    pub single_session: bool,
    pub cumulative: bool,
}

/// The thresholds met by a history with the given sum and best score.
pub open spec fn criteria_of(total: int, max: int) -> Criteria {
    Criteria {
        single_session: max >= SINGLE_SESSION_THRESHOLD as int,
        cumulative: total >= CUMULATIVE_THRESHOLD as int,
    }
}

/// The thresholds met by `student`'s history in `rows`.
pub open spec fn criteria_for(rows: Seq<AttendanceView>, student: Seq<char>) -> Criteria {
    criteria_of(total_for(rows, student), max_for(rows, student))
}

/// The text that names the met thresholds, in the fixed order single
/// session first; `None` when neither is met.
pub open spec fn criteria_label(c: Criteria) -> Option<Seq<char>> {
    if c.single_session && c.cumulative {
        Some("一次兩題"@ + "且"@ + "累計3題"@)
    } else if c.single_session {
        Some("一次兩題"@)
    } else if c.cumulative {
        Some("累計3題"@)
    } else {
        None
    }
}

impl Criteria {
    /// A student passes when at least one threshold is met.
    pub open spec fn spec_is_passed(&self) -> bool {
        self.single_session || self.cumulative
    }

    /// Whether at least one threshold is met.
    #[verifier::when_used_as_spec(spec_is_passed)]
    pub fn is_passed(&self) -> (r: bool)
        ensures
            r == self.spec_is_passed(),
    {
        self.single_session || self.cumulative
    }

    /// The descriptive text stored with a student who passed.
    pub fn label(&self) -> (r: Option<String>)
        ensures
            r is Some <==> self.spec_is_passed(),
            match r {
                Some(text) => criteria_label(*self) == Some(text@),
                None => criteria_label(*self) is None,
            },
    {
        if self.single_session && self.cumulative {
            let mut text = "一次兩題".to_owned();
            text.append("且");
            text.append("累計3題");
            Some(text)
        } else if self.single_session {
            Some("一次兩題".to_owned())
        } else if self.cumulative {
            Some("累計3題".to_owned())
        } else {
            None
        }
    }
}

/// Applies the pass rules to a tally.
pub fn evaluate(tally: &Tally) -> (c: Criteria)
    ensures
        c == criteria_of(tally.total as int, tally.max as int),
{
    Criteria {
        single_session: tally.max >= SINGLE_SESSION_THRESHOLD,
        cumulative: tally.total >= CUMULATIVE_THRESHOLD as u128,
    }
}

/// Adds up `student`'s history in `rows`. Rows of other students and rows
/// marked absent count for nothing, whatever score they carry.
pub fn tally_for(rows: &Vec<Attendance>, student: &str) -> (t: Tally)
    ensures
        t.total == total_for(attendance_views(rows@), student@),
        t.max == max_for(attendance_views(rows@), student@),
{
    let key = student.to_owned();
    let ghost views = attendance_views(rows@);
    let mut total: u128 = 0;
    let mut max: u32 = 0;
    let mut i: usize = 0;
    while i < rows.len()
        invariant
            i <= rows.len(),
            key@ == student@,
            views == attendance_views(rows@),
            total == total_for(views.take(i as int), student@),
            max == max_for(views.take(i as int), student@),
            total <= i * 0x1_0000_0000,
        decreases rows.len() - i,
    {
        proof {
            assert(views.take(i + 1).drop_last() =~= views.take(i as int));
            assert(views.take(i + 1).last() == rows@[i as int]@);
        }
        let row = &rows[i];
        if row.student == key && !row.is_absent {
            total = total + row.score as u128;
            if row.score > max {
                max = row.score;
            }
        }
        i += 1;
    }
    proof {
        assert(views.take(rows.len() as int) =~= views);
    }
    Tally { total, max }
}

/// The thresholds `student` meets on the strength of `rows`.
pub fn assess(rows: &Vec<Attendance>, student: &str) -> (c: Criteria)
    ensures
        c == criteria_for(attendance_views(rows@), student@),
{
    let tally = tally_for(rows, student);
    evaluate(&tally)
}

/// A student who was absent from every session of theirs does not pass, no
/// matter what scores those rows carry.
pub proof fn lemma_absent_everywhere_never_passes(rows: Seq<AttendanceView>, student: Seq<char>)
    requires
        forall|i: int| 0 <= i < rows.len() && rows[i].student == student ==> rows[i].is_absent,
    ensures
        total_for(rows, student) == 0,
        max_for(rows, student) == 0,
        !criteria_for(rows, student).spec_is_passed(),
    decreases rows.len(),
{
    if rows.len() > 0 {
        lemma_absent_everywhere_never_passes(rows.drop_last(), student);
    }
}

} // verus!
