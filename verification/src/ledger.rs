//! The attendance ledger: at most one row per student and session.

use crate::records::{
    attendance_views, row_consistent, Attendance, AttendanceView, SessionKey,
};
use vstd::prelude::*;

verus! {

/// Some row belongs to this session and this student.
pub open spec fn has_row(rows: Seq<AttendanceView>, session: int, student: Seq<char>) -> bool {
    exists|i: int| 0 <= i < rows.len() && rows[i].session == session && rows[i].student == student
}

/// Where the row of this session and this student stands.
pub open spec fn row_index(rows: Seq<AttendanceView>, session: int, student: Seq<char>) -> int {
    choose|i: int| 0 <= i < rows.len() && rows[i].session == session && rows[i].student == student
}

/// No two rows share session and student, and each row is consistent.
pub open spec fn ledger_consistent(rows: Seq<AttendanceView>) -> bool {
    &&& forall|i: int, j: int|
        0 <= i < j < rows.len() ==> !(rows[i].session == rows[j].session && rows[i].student
            == rows[j].student)
    &&& forall|i: int| 0 <= i < rows.len() ==> row_consistent(rows[i])
}

/// The ledger after an attempt to write `row`: the row is added at the end
/// unless its session and student have a row already, in which case nothing
/// changes.
pub open spec fn insert_new(rows: Seq<AttendanceView>, row: AttendanceView) -> Seq<AttendanceView> {
    if has_row(rows, row.session, row.student) {
        rows
    } else {
        rows.push(row)
    }
}

/// The rows that do not belong to `session`.
pub open spec fn outside_session(session: int) -> spec_fn(AttendanceView) -> bool {
    |row: AttendanceView| row.session != session
}

/// The rows that do not belong to `student`.
pub open spec fn of_other_students(student: Seq<char>) -> spec_fn(AttendanceView) -> bool {
    |row: AttendanceView| row.student != student
}

/// The row with its outcome replaced.
pub open spec fn revised(
    row: AttendanceView,
    is_absent: bool,
    is_excused: bool,
    score: int,
    notes: Seq<char>,
) -> AttendanceView {
    AttendanceView { is_absent, is_excused, score, notes, ..row }
}

/// Whether a row and its replacement differ at all.
pub open spec fn outcome_differs(
    row: AttendanceView,
    is_absent: bool,
    is_excused: bool,
    score: int,
    notes: Seq<char>,
) -> bool {
    row.is_absent != is_absent || row.is_excused != is_excused || row.score != score || row.notes
        != notes
}

/// Keeping some rows of a consistent ledger leaves a consistent ledger, and
/// every row kept was there before.
pub proof fn lemma_filter_consistent(rows: Seq<AttendanceView>, keep: spec_fn(AttendanceView) -> bool)
    requires
        ledger_consistent(rows),
    ensures
        ledger_consistent(rows.filter(keep)),
        forall|i: int|
            0 <= i < rows.filter(keep).len() ==> rows.contains(#[trigger] rows.filter(keep)[i])
                && keep(rows.filter(keep)[i]),
        forall|i: int|
            0 <= i < rows.len() && keep(rows[i]) ==> rows.filter(keep).contains(
                #[trigger] rows[i],
            ),
    decreases rows.len(),
{
    reveal(Seq::filter);
    if rows.len() > 0 {
        let init = rows.drop_last();
        let last = rows.last();
        lemma_filter_consistent(init, keep);
        let kept = init.filter(keep);
        let out = rows.filter(keep);
        assert forall|i: int| 0 <= i < out.len() implies rows.contains(#[trigger] out[i]) && keep(
            out[i],
        ) by {
            if i < kept.len() {
                assert(init.contains(kept[i]));
                let j = choose|j: int| 0 <= j < init.len() && init[j] == kept[i];
                assert(rows[j] == out[i]);
            } else {
                assert(rows[rows.len() - 1] == out[i]);
            }
        }
        assert forall|i: int| 0 <= i < rows.len() && keep(rows[i]) implies out.contains(
            #[trigger] rows[i],
        ) by {
            if i < init.len() {
                assert(kept.contains(init[i]));
                let j = choose|j: int| 0 <= j < kept.len() && kept[j] == init[i];
                assert(out[j] == rows[i]);
            } else {
                assert(out[out.len() - 1] == rows[i]);
            }
        }
        assert forall|i: int, j: int| 0 <= i < j < out.len() implies !(out[i].session
            == out[j].session && out[i].student == out[j].student) by {
            if j == kept.len() {
                assert(init.contains(kept[i]));
                let k = choose|k: int| 0 <= k < init.len() && init[k] == kept[i];
                assert(rows[k] == out[i]);
                assert(rows[rows.len() - 1] == out[j]);
            }
        }
        assert forall|i: int| 0 <= i < out.len() implies row_consistent(out[i]) by {
            assert(rows.contains(out[i]));
        }
    }
}

/// Why the ledger refused a row.
#[derive(Clone, Copy, Debug, PartialEq, Eq, Structural)]
pub enum LedgerError {
    /// The row is marked excused without being absent, or is absent and
    /// carries a score.
    Inconsistent,
}

/// The attendance rows, in the order in which they were written.
pub struct Ledger {
    rows: Vec<Attendance>,
}

impl View for Ledger {
    type V = Seq<AttendanceView>;

    closed spec fn view(&self) -> Seq<AttendanceView> {
        attendance_views(self.rows@)
    }
}

impl Ledger {
    /// What every ledger satisfies: see [`ledger_consistent`].
    pub open spec fn wf(&self) -> bool {
        ledger_consistent(self@)
    }

    /// A ledger without rows.
    pub fn new() -> (r: Ledger)
        ensures
            r.wf(),
            r@ == Seq::<AttendanceView>::empty(),
    {
        let r = Ledger { rows: Vec::new() };
        assert(r@ =~= Seq::<AttendanceView>::empty());
        r
    }

    /// The number of rows.
    pub fn len(&self) -> (r: usize)
        ensures
            r == self@.len(),
    {
        self.rows.len()
    }

    /// All rows, in the order in which they were written.
    pub fn rows(&self) -> (r: &Vec<Attendance>)
        ensures
            attendance_views(r@) == self@,
    {
        &self.rows
    }

    /// The row at position `index`.
    pub fn row(&self, index: usize) -> (r: Option<&Attendance>)
        ensures
            r is Some <==> index < self@.len(),
            r is Some ==> r->0@ == self@[index as int],
    {
        if index < self.rows.len() {
            Some(&self.rows[index])
        } else {
            None
        }
    }

    pub(crate) fn position_of(&self, session: SessionKey, student: &String) -> (r: Option<usize>)
        ensures
            r is Some <==> has_row(self@, session as int, student@),
            r is Some ==> r->0 < self@.len() && self@[r->0 as int].session == session
                && self@[r->0 as int].student == student@,
    {
        let mut i: usize = 0;
        while i < self.rows.len()
            invariant
                i <= self.rows.len(),
                forall|j: int|
                    0 <= j < i ==> !(self@[j].session == session && self@[j].student == student@),
            decreases self.rows.len() - i,
        {
            if self.rows[i].session == session && self.rows[i].student == *student {
                assert(self@[i as int].session == session && self@[i as int].student == student@);
                return Some(i);
            }
            i += 1;
        }
        None
    }

    /// Whether this student has a row for this session.
    pub fn contains(&self, session: SessionKey, student: &str) -> (r: bool)
        ensures
            r == has_row(self@, session as int, student@),
    {
        let key = student.to_owned();
        self.position_of(session, &key).is_some()
    }

    /// The row of this student for this session.
    pub fn get(&self, session: SessionKey, student: &str) -> (r: Option<&Attendance>)
        requires
            self.wf(),
        ensures
            r is Some <==> has_row(self@, session as int, student@),
            r is Some ==> r->0@ == self@[row_index(self@, session as int, student@)],
    {
        let key = student.to_owned();
        match self.position_of(session, &key) {
            Some(i) => Some(&self.rows[i]),
            None => None,
        }
    }

    /// Writes `row` unless its student has a row for its session already.
    /// `Ok(true)` says the row was written, `Ok(false)` that it was skipped
    /// as a duplicate.
    pub fn insert(&mut self, row: Attendance) -> (r: Result<bool, LedgerError>)
        requires
            old(self).wf(),
        ensures
            final(self).wf(),
            r is Ok <==> row_consistent(row@),
            r is Ok ==> r->Ok_0 == !has_row(old(self)@, row@.session, row@.student),
            r is Ok ==> final(self)@ == insert_new(old(self)@, row@),
            r is Err ==> final(self)@ == old(self)@,
    {
        if !row.is_consistent() {
            return Err(LedgerError::Inconsistent);
        }
        if self.position_of(row.session, &row.student).is_some() {
            return Ok(false);
        }
        self.rows.push(row);
        assert(self@ =~= old(self)@.push(row@));
        Ok(true)
    }

    fn retain_outside_session(&mut self, session: SessionKey) -> (removed: usize)
        requires
            old(self).wf(),
        ensures
            final(self).wf(),
            final(self)@ == old(self)@.filter(outside_session(session as int)),
            removed == old(self)@.len() - final(self)@.len(),
    {
        let ghost before = self@;
        let ghost keep = outside_session(session as int);
        let mut rows = Vec::new();
        std::mem::swap(&mut rows, &mut self.rows);
        let mut kept: Vec<Attendance> = Vec::new();
        let mut i: usize = 0;
        while i < rows.len()
            invariant
                i <= rows.len(),
                attendance_views(rows@) == before,
                keep == outside_session(session as int),
                attendance_views(kept@) == before.take(i as int).filter(keep),
                kept@.len() <= i,
            decreases rows.len() - i,
        {
            proof {
                reveal(Seq::filter);
                assert(before.take(i + 1).drop_last() =~= before.take(i as int));
                assert(before.take(i + 1).last() == rows@[i as int]@);
            }
            if rows[i].session != session {
                let ghost prior = attendance_views(kept@);
                kept.push(rows[i].clone());
                assert(attendance_views(kept@) =~= prior.push(rows@[i as int]@));
            }
            i += 1;
        }
        proof {
            assert(before.take(rows.len() as int) =~= before);
            lemma_filter_consistent(before, keep);
        }
        let removed = rows.len() - kept.len();
        self.rows = kept;
        removed
    }

    /// Removes every row of `session`. Gives the number of rows removed.
    pub fn remove_session(&mut self, session: SessionKey) -> (removed: usize)
        requires
            old(self).wf(),
        ensures
            final(self).wf(),
            final(self)@ == old(self)@.filter(outside_session(session as int)),
            removed == old(self)@.len() - final(self)@.len(),
    {
        self.retain_outside_session(session)
    }

    /// Removes every row of the student with exactly this identifier. Gives
    /// the number of rows removed.
    pub fn remove_student(&mut self, student: &str) -> (removed: usize)
        requires
            old(self).wf(),
        ensures
            final(self).wf(),
            final(self)@ == old(self)@.filter(of_other_students(student@)),
            removed == old(self)@.len() - final(self)@.len(),
    {
        let key = student.to_owned();
        let ghost before = self@;
        let ghost keep = of_other_students(student@);
        let mut rows = Vec::new();
        std::mem::swap(&mut rows, &mut self.rows);
        let mut kept: Vec<Attendance> = Vec::new();
        let mut i: usize = 0;
        while i < rows.len()
            invariant
                i <= rows.len(),
                key@ == student@,
                attendance_views(rows@) == before,
                keep == of_other_students(student@),
                attendance_views(kept@) == before.take(i as int).filter(keep),
                kept@.len() <= i,
            decreases rows.len() - i,
        {
            proof {
                reveal(Seq::filter);
                assert(before.take(i + 1).drop_last() =~= before.take(i as int));
                assert(before.take(i + 1).last() == rows@[i as int]@);
            }
            if rows[i].student != key {
                let ghost prior = attendance_views(kept@);
                kept.push(rows[i].clone());
                assert(attendance_views(kept@) =~= prior.push(rows@[i as int]@));
            }
            i += 1;
        }
        proof {
            assert(before.take(rows.len() as int) =~= before);
            lemma_filter_consistent(before, keep);
        }
        let removed = rows.len() - kept.len();
        self.rows = kept;
        removed
    }

    /// Removes the row of this student for this session, provided it
    /// carries exactly this score. Says whether a row was removed.
    pub fn remove_row(&mut self, session: SessionKey, student: &str, score: u32) -> (r: bool)
        requires
            old(self).wf(),
        ensures
            final(self).wf(),
            r == (has_row(old(self)@, session as int, student@) && old(self)@[row_index(
                old(self)@,
                session as int,
                student@,
            )].score == score),
            r ==> final(self)@ == old(self)@.remove(
                row_index(old(self)@, session as int, student@),
            ),
            !r ==> final(self)@ == old(self)@,
    {
        let key = student.to_owned();
        match self.position_of(session, &key) {
            Some(i) => {
                if self.rows[i].score == score {
                    self.rows.remove(i);
                    assert(self@ =~= old(self)@.remove(i as int));
                    true
                } else {
                    false
                }
            },
            None => false,
        }
    }

    /// Replaces the outcome of this student's row for this session. Nothing
    /// is written when there is no such row, when the new outcome is
    /// inconsistent, or when it equals what the row holds. Says whether the
    /// row changed.
    pub fn revise(
        &mut self,
        session: SessionKey,
        student: &str,
        is_absent: bool,
        is_excused: bool,
        score: u32,
        notes: String,
    ) -> (r: bool)
        requires
            old(self).wf(),
        ensures
            final(self).wf(),
            r == ({
                let i = row_index(old(self)@, session as int, student@);
                &&& has_row(old(self)@, session as int, student@)
                &&& row_consistent(
                    revised(old(self)@[i], is_absent, is_excused, score as int, notes@),
                )
                &&& outcome_differs(old(self)@[i], is_absent, is_excused, score as int, notes@)
            }),
            r ==> final(self)@ == old(self)@.update(
                row_index(old(self)@, session as int, student@),
                revised(
                    old(self)@[row_index(old(self)@, session as int, student@)],
                    is_absent,
                    is_excused,
                    score as int,
                    notes@,
                ),
            ),
            !r ==> final(self)@ == old(self)@,
    {
        let key = student.to_owned();
        match self.position_of(session, &key) {
            Some(i) => {
                let row = &self.rows[i];
                let consistent = (!is_excused || is_absent) && (!is_absent || score == 0);
                let differs = row.is_absent != is_absent || row.is_excused != is_excused
                    || row.score != score || row.notes != notes;
                if consistent && differs {
                    let mut rows = Vec::new();
                    std::mem::swap(&mut rows, &mut self.rows);
                    let old_row = rows.remove(i);
                    rows.insert(
                        i,
                        Attendance {
                            session: old_row.session,
                            student: old_row.student,
                            is_absent,
                            is_excused,
                            score,
                            notes,
                        },
                    );
                    self.rows = rows;
                    assert(self@ =~= old(self)@.update(
                        i as int,
                        revised(old(self)@[i as int], is_absent, is_excused, score as int, notes@),
                    ));
                    true
                } else {
                    false
                }
            },
            None => false,
        }
    }
}

} // verus!
