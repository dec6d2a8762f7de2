//! The gradebook: registry, roster and ledger kept together, so that every
//! attendance row belongs to a session and a student that exist. Batches of
//! rows are written here, standings are recomputed here, and sessions and
//! students are deleted together with their rows.

use crate::calendar::{year_in_calendar, Date};
use crate::cohort::{
    entry_views, is_cohort, newly_passed, record_views, window_of, CohortEntry, ScoreRecord,
    ScoreRecordView,
};
use crate::eligibility::{criteria_for, evaluate, tally_for, Criteria};
use crate::ledger::{
    has_row, insert_new, ledger_consistent, lemma_filter_consistent, of_other_students,
    outcome_differs, outside_session, revised, row_index, Ledger,
};
use crate::records::{
    attendance_views, row_consistent, Attendance, AttendanceView, EnrollmentStatus, ExamSession,
    ExamSessionView, ExamType, SessionKey, StudentAttribute,
};
use crate::registry::{
    admission_of, amendment_of, has_session_key, largest_key, registry_consistent, session_index,
    Registry, RegistryError,
};
use crate::roster::{
    amended, fresh_student, has_student, roster_consistent, student_index, with_criteria,
    with_standing, AmendError, Amendment, Roster, RosterError, StudentView,
};
use crate::text::{
    holds_text, lemma_upper_idempotent, optional_text, text_views, to_upper, upper_of,
};
use vstd::pervasive::unreached;
use vstd::prelude::*;

verus! {

/// What a gradebook holds: the sessions, the students and the attendance
/// rows, each in the order of entry.
pub struct GradebookView {
    pub sessions: Seq<ExamSessionView>,
    pub students: Seq<StudentView>,
    pub rows: Seq<AttendanceView>,
}

/// Every row belongs to a session and to a student that exist.
pub open spec fn references_hold(g: GradebookView) -> bool {
    forall|i: int|
        0 <= i < g.rows.len() ==> has_session_key(g.sessions, (#[trigger] g.rows[i]).session)
            && has_student(g.students, g.rows[i].student)
}

/// Registry, roster and ledger are each consistent, and every row belongs
/// to a session and a student that exist.
pub open spec fn gradebook_consistent(g: GradebookView) -> bool {
    &&& registry_consistent(g.sessions)
    &&& roster_consistent(g.students)
    &&& ledger_consistent(g.rows)
    &&& references_hold(g)
}

/// Why a batch was turned away as a whole.
#[derive(Clone, Copy, Debug, PartialEq, Eq, Structural)]
pub enum Rejection {
    /// The row names a session that does not exist.
    UnknownSession,
    /// The row names a student that does not exist.
    UnknownStudent,
    /// The row is marked excused without being absent, or is absent and
    /// carries a score.
    Inconsistent,
}

/// A batch that was turned away: the position of the first row that cannot
/// be written, and what is wrong with it.
#[derive(Clone, Copy, Debug, PartialEq, Eq, Structural)]
pub struct BatchRejected {
    pub index: usize,
    pub reason: Rejection,
}

/// What stands in the way of writing `row`, if anything.
pub open spec fn rejection_of(g: GradebookView, row: AttendanceView) -> Option<Rejection> {
    if !has_session_key(g.sessions, row.session) {
        Some(Rejection::UnknownSession)
    } else if !has_student(g.students, row.student) {
        Some(Rejection::UnknownStudent)
    } else if !row_consistent(row) {
        Some(Rejection::Inconsistent)
    } else {
        None
    }
}

/// The ledger after writing a batch row by row, each row skipped when its
/// student already has a row for its session.
pub open spec fn apply_all(rows: Seq<AttendanceView>, batch: Seq<AttendanceView>) -> Seq<
    AttendanceView,
>
    decreases batch.len(),
{
    if batch.len() == 0 {
        rows
    } else {
        insert_new(apply_all(rows, batch.drop_last()), batch.last())
    }
}

/// The students for whom writing a batch adds at least one row, each once,
/// in the order in which their first row is added.
pub open spec fn touched_by(rows: Seq<AttendanceView>, batch: Seq<AttendanceView>) -> Seq<
    Seq<char>,
>
    decreases batch.len(),
{
    if batch.len() == 0 {
        Seq::empty()
    } else {
        let before = touched_by(rows, batch.drop_last());
        let row = batch.last();
        if has_row(apply_all(rows, batch.drop_last()), row.session, row.student)
            || before.contains(row.student) {
            before
        } else {
            before.push(row.student)
        }
    }
}

/// Why a single row was not written.
#[derive(Clone, Copy, Debug, PartialEq, Eq, Structural)]
pub enum RecordError {
    /// The row cannot be written at all.
    Rejected(Rejection),
    /// The student already has a row for the session.
    AlreadyRecorded,
}

/// What the gradebook answers to a single row.
pub open spec fn record_outcome(g: GradebookView, row: AttendanceView) -> Result<(), RecordError> {
    match rejection_of(g, row) {
        Some(reason) => Err(RecordError::Rejected(reason)),
        None => if has_row(g.rows, row.session, row.student) {
            Err(RecordError::AlreadyRecorded)
        } else {
            Ok(())
        },
    }
}

/// The gradebook after a batch was written.
pub open spec fn applied(g: GradebookView, batch: Seq<AttendanceView>) -> GradebookView {
    GradebookView { rows: apply_all(g.rows, batch), ..g }
}

/// The gradebook after the standing of `student` was derived anew from the
/// ledger.
pub open spec fn recomputed(g: GradebookView, student: Seq<char>) -> GradebookView {
    GradebookView {
        students: with_standing(g.students, student, criteria_for(g.rows, student)),
        ..g
    }
}

/// What a batch did to the ledger.
#[derive(Debug)]
pub struct Receipt {
    /// Rows written.
    pub inserted: usize,
    /// Rows skipped because the student already had a row for the session.
    pub skipped: usize,
    /// The students who gained a row, each once.
    pub touched: Vec<String>,
}

/// A receipt as plain values.
pub struct ReceiptView {
    pub inserted: int,
    pub skipped: int,
    pub touched: Seq<Seq<char>>,
}

impl View for Receipt {
    type V = ReceiptView;

    open spec fn view(&self) -> ReceiptView {
        ReceiptView {
            inserted: self.inserted as int,
            skipped: self.skipped as int,
            touched: text_views(self.touched@),
        }
    }
}

/// How the store answered the attempt to write one row.
#[derive(Clone, Copy, Debug, PartialEq, Eq, Structural)]
pub enum WriteOutcome {
    /// The row was written.
    Written,
    /// The student already had a row for the session; nothing was written.
    Duplicate,
}

/// The receipt after one more attempt was noted: a written row counts as
/// inserted and touches its student, a duplicate counts as skipped.
pub open spec fn noted(receipt: ReceiptView, student: Seq<char>, outcome: WriteOutcome) -> ReceiptView {
    match outcome {
        WriteOutcome::Written => ReceiptView {
            inserted: receipt.inserted + 1,
            skipped: receipt.skipped,
            touched: if receipt.touched.contains(student) {
                receipt.touched
            } else {
                receipt.touched.push(student)
            },
        },
        WriteOutcome::Duplicate => ReceiptView { skipped: receipt.skipped + 1, ..receipt },
    }
}

impl Receipt {
    /// The receipt of a batch of which nothing was attempted yet.
    pub fn new() -> (r: Receipt)
        ensures
            r@ == (ReceiptView { inserted: 0, skipped: 0, touched: Seq::empty() }),
    {
        let r = Receipt { inserted: 0, skipped: 0, touched: Vec::new() };
        assert(r@.touched =~= Seq::<Seq<char>>::empty());
        r
    }

    /// Notes how the attempt to write a row of `student` ended.
    pub fn note(&mut self, student: &String, outcome: WriteOutcome)
        requires
            old(self).inserted + old(self).skipped < usize::MAX,
        ensures
            final(self)@ == noted(old(self)@, student@, outcome),
    {
        match outcome {
            WriteOutcome::Written => {
                self.inserted = self.inserted + 1;
                if !holds_text(&self.touched, student) {
                    self.touched.push(student.clone());
                    assert(text_views(self.touched@) =~= old(self)@.touched.push(student@));
                }
            },
            WriteOutcome::Duplicate => {
                self.skipped = self.skipped + 1;
            },
        }
    }
}

/// Writing a row leaves every earlier row in place.
pub proof fn lemma_insert_new_keeps(rows: Seq<AttendanceView>, row: AttendanceView)
    ensures
        rows.len() <= insert_new(rows, row).len() <= rows.len() + 1,
        forall|i: int| 0 <= i < rows.len() ==> insert_new(rows, row)[i] == rows[i],
        has_row(insert_new(rows, row), row.session, row.student),
        forall|session: int, student: Seq<char>|
            has_row(rows, session, student) ==> has_row(insert_new(rows, row), session, student),
{
    let out = insert_new(rows, row);
    if !has_row(rows, row.session, row.student) {
        assert(out[rows.len() as int] == row);
    }
    assert forall|session: int, student: Seq<char>| has_row(rows, session, student) implies has_row(
        out,
        session,
        student,
    ) by {
        let i = row_index(rows, session, student);
        assert(out[i].session == session && out[i].student == student);
    }
}

/// Writing a consistent row whose session and student exist keeps the
/// gradebook consistent.
pub proof fn lemma_insert_new_consistent(g: GradebookView, row: AttendanceView)
    requires
        gradebook_consistent(g),
        rejection_of(g, row) is None,
    ensures
        gradebook_consistent(GradebookView { rows: insert_new(g.rows, row), ..g }),
{
}

/// A batch whose rows all have their session and student in the ledger
/// already changes nothing and touches nobody.
pub proof fn lemma_apply_all_present(rows: Seq<AttendanceView>, batch: Seq<AttendanceView>)
    requires
        forall|j: int| 0 <= j < batch.len() ==> has_row(rows, batch[j].session, batch[j].student),
    ensures
        apply_all(rows, batch) == rows,
        touched_by(rows, batch) == Seq::<Seq<char>>::empty(),
    decreases batch.len(),
{
    if batch.len() > 0 {
        lemma_apply_all_present(rows, batch.drop_last());
    }
}

/// After a batch was written, each of its rows has its session and student
/// in the ledger.
pub proof fn lemma_apply_all_covers(rows: Seq<AttendanceView>, batch: Seq<AttendanceView>)
    ensures
        rows.len() <= apply_all(rows, batch).len() <= rows.len() + batch.len(),
        forall|j: int|
            0 <= j < batch.len() ==> has_row(
                apply_all(rows, batch),
                batch[j].session,
                batch[j].student,
            ),
    decreases batch.len(),
{
    if batch.len() > 0 {
        let init = batch.drop_last();
        lemma_apply_all_covers(rows, init);
        lemma_insert_new_keeps(apply_all(rows, init), batch.last());
        assert forall|j: int| 0 <= j < batch.len() implies has_row(
            apply_all(rows, batch),
            batch[j].session,
            batch[j].student,
        ) by {
            if j < init.len() {
                assert(init[j] == batch[j]);
            }
        }
    }
}

/// Writing the same batch a second time leaves the ledger as the first run
/// left it: every row of the second run is skipped as a duplicate, none is
/// written and no student is touched.
pub proof fn lemma_apply_idempotent(rows: Seq<AttendanceView>, batch: Seq<AttendanceView>)
    ensures
        apply_all(apply_all(rows, batch), batch) == apply_all(rows, batch),
        apply_all(apply_all(rows, batch), batch).len() - apply_all(rows, batch).len() == 0,
        touched_by(apply_all(rows, batch), batch) == Seq::<Seq<char>>::empty(),
{
    lemma_apply_all_covers(rows, batch);
    lemma_apply_all_present(apply_all(rows, batch), batch);
}

/// Writing a batch a second time is turned away exactly when the first
/// time was, and where it goes through it leaves the gradebook as the first
/// run left it.
pub proof fn lemma_second_run_changes_nothing(g: GradebookView, batch: Seq<AttendanceView>)
    ensures
        forall|j: int|
            0 <= j < batch.len() ==> rejection_of(applied(g, batch), #[trigger] batch[j])
                == rejection_of(g, batch[j]),
        applied(applied(g, batch), batch) == applied(g, batch),
        touched_by(applied(g, batch).rows, batch) == Seq::<Seq<char>>::empty(),
{
    lemma_apply_idempotent(g.rows, batch);
}

/// Deriving a student's standing a second time, with no write in between,
/// leaves every student as the first derivation left them.
pub proof fn lemma_recompute_idempotent(g: GradebookView, student: Seq<char>)
    ensures
        recomputed(recomputed(g, student), student) == recomputed(g, student),
{
    let once = recomputed(g, student);
    assert(recomputed(once, student).students =~= once.students);
}

/// A batch is never written in part: afterwards the gradebook is as it was
/// before, or as it is with the whole batch written.
pub open spec fn all_or_nothing(
    before: GradebookView,
    after: GradebookView,
    batch: Seq<AttendanceView>,
) -> bool {
    after == before || after == applied(before, batch)
}

/// The rows that belong to `session`.
pub open spec fn inside_session(session: int) -> spec_fn(AttendanceView) -> bool {
    |row: AttendanceView| row.session == session
}

/// The students of a run of rows, in order.
pub open spec fn students_of(rows: Seq<AttendanceView>) -> Seq<Seq<char>> {
    Seq::new(rows.len(), |i: int| rows[i].student)
}

/// The gradebook without the session `key` and without its rows.
pub open spec fn without_session(g: GradebookView, key: int) -> GradebookView {
    GradebookView {
        sessions: g.sessions.remove(session_index(g.sessions, key)),
        rows: g.rows.filter(outside_session(key)),
        ..g
    }
}

/// The gradebook without the student `id` and without their rows.
pub open spec fn without_student(g: GradebookView, id: Seq<char>) -> GradebookView {
    GradebookView {
        students: g.students.remove(student_index(g.students, id)),
        rows: g.rows.filter(of_other_students(id)),
        ..g
    }
}

/// A row joined with the name of its student and the day and type of its
/// session.
pub open spec fn record_of(g: GradebookView, row: AttendanceView) -> ScoreRecordView {
    ScoreRecordView {
        student: row.student,
        name: g.students[student_index(g.students, row.student)].name,
        session: row.session,
        date: g.sessions[session_index(g.sessions, row.session)].date,
        kind: g.sessions[session_index(g.sessions, row.session)].kind,
        score: row.score,
    }
}

/// The score records of the first `n` rows of the ledger: one for each row
/// that is not marked absent, in ledger order.
pub open spec fn joined(g: GradebookView, n: nat) -> Seq<ScoreRecordView>
    decreases n,
{
    if n == 0 {
        Seq::empty()
    } else {
        let before = joined(g, (n - 1) as nat);
        let row = g.rows[n - 1];
        if row.is_absent {
            before
        } else {
            before.push(record_of(g, row))
        }
    }
}

/// Whether replacing the outcome of the row that `student` has for
/// `session` changes anything: the row exists, the new outcome is
/// consistent, and it differs from what the row holds.
pub open spec fn revision_applies(
    rows: Seq<AttendanceView>,
    session: int,
    student: Seq<char>,
    is_absent: bool,
    is_excused: bool,
    score: int,
    notes: Seq<char>,
) -> bool {
    let i = row_index(rows, session, student);
    &&& has_row(rows, session, student)
    &&& row_consistent(revised(rows[i], is_absent, is_excused, score, notes))
    &&& outcome_differs(rows[i], is_absent, is_excused, score, notes)
}

/// The gradebook after the outcome of the row that `student` has for
/// `session` was replaced and the student's standing derived anew; the
/// gradebook as it was when the replacement changes nothing.
pub open spec fn revision_of(
    g: GradebookView,
    session: int,
    student: Seq<char>,
    is_absent: bool,
    is_excused: bool,
    score: int,
    notes: Seq<char>,
) -> GradebookView {
    if revision_applies(g.rows, session, student, is_absent, is_excused, score, notes) {
        let i = row_index(g.rows, session, student);
        recomputed(
            GradebookView {
                rows: g.rows.update(i, revised(g.rows[i], is_absent, is_excused, score, notes)),
                ..g
            },
            student,
        )
    } else {
        g
    }
}

/// Whether `student` has a row for `session` that carries exactly `score`.
pub open spec fn removal_applies(
    rows: Seq<AttendanceView>,
    session: int,
    student: Seq<char>,
    score: int,
) -> bool {
    has_row(rows, session, student) && rows[row_index(rows, session, student)].score == score
}

/// The gradebook after the row that `student` has for `session` was
/// removed, provided it carries exactly `score`, and the student's standing
/// derived anew; the gradebook as it was when there is no such row.
pub open spec fn removal_of(
    g: GradebookView,
    session: int,
    student: Seq<char>,
    score: int,
) -> GradebookView {
    if removal_applies(g.rows, session, student, score) {
        recomputed(
            GradebookView { rows: g.rows.remove(row_index(g.rows, session, student)), ..g },
            student,
        )
    } else {
        g
    }
}

/// The gradebook after the first `n` of a run of rows were taken in, one
/// after the other: a row is written when nothing stands in its way and
/// its student has no row for its session yet, and is passed over
/// otherwise.
pub open spec fn loaded(g: GradebookView, rows: Seq<AttendanceView>, n: nat) -> GradebookView
    decreases n,
{
    if n == 0 {
        g
    } else {
        let before = loaded(g, rows, (n - 1) as nat);
        if rejection_of(before, rows[n - 1]) is None {
            GradebookView { rows: insert_new(before.rows, rows[n - 1]), ..before }
        } else {
            before
        }
    }
}

/// The gradebook in which every student has the standing that the ledger
/// gives them.
pub open spec fn in_step_all(g: GradebookView) -> GradebookView {
    GradebookView {
        students: Seq::new(
            g.students.len(),
            |i: int| with_criteria(g.students[i], criteria_for(g.rows, g.students[i].id)),
        ),
        ..g
    }
}

/// The sessions, the students and the attendance rows, kept together.
pub struct Gradebook {
    registry: Registry,
    roster: Roster,
    ledger: Ledger,
}

impl View for Gradebook {
    type V = GradebookView;

    closed spec fn view(&self) -> GradebookView {
        GradebookView { sessions: self.registry@, students: self.roster@, rows: self.ledger@ }
    }
}

impl Gradebook {
    /// What every gradebook satisfies: see [`gradebook_consistent`].
    pub open spec fn wf(&self) -> bool {
        gradebook_consistent(self@)
    }

    /// A gradebook without sessions, students or rows.
    pub fn new() -> (r: Gradebook)
        ensures
            r.wf(),
            r@.sessions == Seq::<ExamSessionView>::empty(),
            r@.students == Seq::<StudentView>::empty(),
            r@.rows == Seq::<AttendanceView>::empty(),
    {
        Gradebook { registry: Registry::new(), roster: Roster::new(), ledger: Ledger::new() }
    }

    /// The sessions.
    pub fn registry(&self) -> (r: &Registry)
        ensures
            r@ == self@.sessions,
            self.wf() ==> r.wf(),
    {
        &self.registry
    }

    /// The students.
    pub fn roster(&self) -> (r: &Roster)
        ensures
            r@ == self@.students,
            self.wf() ==> r.wf(),
    {
        &self.roster
    }

    /// The attendance rows.
    pub fn ledger(&self) -> (r: &Ledger)
        ensures
            r@ == self@.rows,
            self.wf() ==> r.wf(),
    {
        &self.ledger
    }

    /// Registers a new exam session.
    pub fn create_session(&mut self, date: Date, kind: ExamType, notes: String) -> (r: Result<
        SessionKey,
        RegistryError,
    >)
        requires
            old(self).wf(),
        ensures
            final(self).wf(),
            final(self)@.students == old(self)@.students,
            final(self)@.rows == old(self)@.rows,
            match r {
                Ok(key) => {
                    &&& key == largest_key(old(self)@.sessions) + 1
                    &&& admission_of(old(self)@.sessions, key as int, date, kind, notes@) is Ok
                    &&& final(self)@.sessions == old(self)@.sessions.push(
                        ExamSessionView { key: key as int, date, kind, notes: notes@ },
                    )
                },
                Err(e) => {
                    &&& admission_of(
                        old(self)@.sessions,
                        largest_key(old(self)@.sessions) + 1,
                        date,
                        kind,
                        notes@,
                    ) == Err::<(), RegistryError>(e)
                    &&& final(self)@.sessions == old(self)@.sessions
                },
            },
    {
        let r = self.registry.create(date, kind, notes);
        proof {
            self.lemma_sessions_grew(*old(self));
        }
        r
    }

    /// Takes in a session that already has a key.
    pub fn restore_session(&mut self, session: ExamSession) -> (r: Result<(), RegistryError>)
        requires
            old(self).wf(),
        ensures
            final(self).wf(),
            final(self)@.students == old(self)@.students,
            final(self)@.rows == old(self)@.rows,
            r == admission_of(
                old(self)@.sessions,
                session@.key,
                session@.date,
                session@.kind,
                session@.notes,
            ),
            r is Ok ==> final(self)@.sessions == old(self)@.sessions.push(session@),
            r is Err ==> final(self)@.sessions == old(self)@.sessions,
    {
        let r = self.registry.restore(session);
        proof {
            self.lemma_sessions_grew(*old(self));
        }
        r
    }

    proof fn lemma_sessions_grew(&self, before: Gradebook)
        requires
            before.wf(),
            self@.students == before@.students,
            self@.rows == before@.rows,
            registry_consistent(self@.sessions),
            self@.sessions == before@.sessions || (exists|s: ExamSessionView|
                self@.sessions == before@.sessions.push(s)),
        ensures
            self.wf(),
    {
        assert forall|i: int| 0 <= i < self@.rows.len() implies has_session_key(
            self@.sessions,
            (#[trigger] self@.rows[i]).session,
        ) by {
            let k = session_index(before@.sessions, self@.rows[i].session);
            assert(has_session_key(before@.sessions, before@.rows[i].session));
            assert(self@.sessions[k].key == self@.rows[i].session);
        }
    }

    /// Changes day, type and notes of the session with key `key`. A part
    /// that is `None` is left as it is. Says whether anything changed. When
    /// the change is turned away, nothing changes.
    pub fn amend_session(
        &mut self,
        key: SessionKey,
        date: Option<Date>,
        kind: Option<ExamType>,
        notes: Option<String>,
    ) -> (r: Result<bool, RegistryError>)
        requires
            old(self).wf(),
        ensures
            final(self).wf(),
            final(self)@.students == old(self)@.students,
            final(self)@.rows == old(self)@.rows,
            match r {
                Ok(changed) => {
                    let target = amendment_of(
                        old(self)@.sessions,
                        key as int,
                        date,
                        kind,
                        optional_text(notes),
                    );
                    &&& target is Ok
                    &&& final(self)@.sessions == old(self)@.sessions.update(
                        session_index(old(self)@.sessions, key as int),
                        target->Ok_0,
                    )
                    &&& changed == (final(self)@.sessions != old(self)@.sessions)
                },
                Err(e) => {
                    &&& amendment_of(
                        old(self)@.sessions,
                        key as int,
                        date,
                        kind,
                        optional_text(notes),
                    ) == Err::<ExamSessionView, RegistryError>(e)
                    &&& final(self)@ == old(self)@
                },
            },
    {
        let r = self.registry.amend(key, date, kind, notes);
        proof {
            assert forall|i: int| 0 <= i < self@.rows.len() implies has_session_key(
                self@.sessions,
                (#[trigger] self@.rows[i]).session,
            ) by {
                let k = session_index(old(self)@.sessions, self@.rows[i].session);
                assert(has_session_key(old(self)@.sessions, old(self)@.rows[i].session));
                assert(self@.sessions[k].key == self@.rows[i].session);
            }
        }
        r
    }

    /// Enrols a student under the upper-case form of `id`.
    pub fn enroll(
        &mut self,
        id: &str,
        name: String,
        enrollment: EnrollmentStatus,
        attribute: StudentAttribute,
        notes: String,
    ) -> (r: Result<(), RosterError>)
        requires
            old(self).wf(),
        ensures
            final(self).wf(),
            final(self)@.sessions == old(self)@.sessions,
            final(self)@.rows == old(self)@.rows,
            r == (if id@.len() == 0 {
                Err::<(), RosterError>(RosterError::EmptyId)
            } else if has_student(old(self)@.students, upper_of(id@)) {
                Err(RosterError::Conflict)
            } else {
                Ok(())
            }),
            r is Ok ==> final(self)@.students == old(self)@.students.push(
                fresh_student(id@, name@, enrollment, attribute, notes@),
            ),
            r is Err ==> final(self)@.students == old(self)@.students,
    {
        let r = self.roster.enroll(id, name, enrollment, attribute, notes);
        proof {
            assert forall|i: int| 0 <= i < self@.rows.len() implies has_student(
                self@.students,
                (#[trigger] self@.rows[i]).student,
            ) by {
                let k = student_index(old(self)@.students, self@.rows[i].student);
                assert(has_student(old(self)@.students, old(self)@.rows[i].student));
                assert(self@.students[k].id == self@.rows[i].student);
            }
        }
        r
    }

    /// Changes name, enrolment status, attribute and notes of the student
    /// `id`, letter case aside, as the amendment asks. Says whether anything
    /// changed. When the amendment is turned away, nothing changes.
    pub fn amend_student(&mut self, id: &str, amendment: &Amendment) -> (r: Result<
        bool,
        AmendError,
    >)
        requires
            old(self).wf(),
        ensures
            final(self).wf(),
            final(self)@.sessions == old(self)@.sessions,
            final(self)@.rows == old(self)@.rows,
            match r {
                Ok(changed) => {
                    let at = student_index(old(self)@.students, upper_of(id@));
                    &&& has_student(old(self)@.students, upper_of(id@))
                    &&& amended(old(self)@.students[at], amendment@) is Ok
                    &&& final(self)@.students == old(self)@.students.update(
                        at,
                        amended(old(self)@.students[at], amendment@)->Ok_0,
                    )
                    &&& changed == (final(self)@.students != old(self)@.students)
                },
                Err(e) => {
                    &&& final(self)@ == old(self)@
                    &&& e == (if !has_student(old(self)@.students, upper_of(id@)) {
                        AmendError::UnknownStudent
                    } else {
                        amended(
                            old(self)@.students[student_index(
                                old(self)@.students,
                                upper_of(id@),
                            )],
                            amendment@,
                        )->Err_0
                    })
                    &&& has_student(old(self)@.students, upper_of(id@)) ==> amended(
                        old(self)@.students[student_index(old(self)@.students, upper_of(id@))],
                        amendment@,
                    ) is Err
                },
            },
    {
        let r = self.roster.amend(id, amendment);
        proof {
            assert forall|i: int| 0 <= i < self@.rows.len() implies has_student(
                self@.students,
                (#[trigger] self@.rows[i]).student,
            ) by {
                let k = student_index(old(self)@.students, self@.rows[i].student);
                assert(has_student(old(self)@.students, old(self)@.rows[i].student));
                assert(self@.students[k].id == self@.rows[i].student);
            }
        }
        r
    }

    /// What stands in the way of writing `row`, if anything.
    pub fn check(&self, row: &Attendance) -> (r: Option<Rejection>)
        ensures
            r == rejection_of(self@, row@),
    {
        if !self.registry.contains_key(row.session) {
            Some(Rejection::UnknownSession)
        } else if self.roster.position_of(&row.student).is_none() {
            Some(Rejection::UnknownStudent)
        } else if !row.is_consistent() {
            Some(Rejection::Inconsistent)
        } else {
            None
        }
    }

    /// Writes a single row and derives the standing of its student anew.
    /// Unlike in a batch, a row for a student who already has one for the
    /// session is an error.
    pub fn record(&mut self, row: Attendance) -> (r: Result<(), RecordError>)
        requires
            old(self).wf(),
        ensures
            final(self).wf(),
            r == record_outcome(old(self)@, row@),
            r is Ok ==> final(self)@ == recomputed(
                GradebookView { rows: old(self)@.rows.push(row@), ..old(self)@ },
                row@.student,
            ),
            r is Err ==> final(self)@ == old(self)@,
    {
        match self.check(&row) {
            Some(reason) => {
                return Err(RecordError::Rejected(reason));
            },
            None => {},
        }
        let student = row.student.clone();
        proof {
            lemma_insert_new_consistent(self@, row@);
            let k = student_index(self@.students, row@.student);
            assert(upper_of(self@.students[k].id) == self@.students[k].id);
        }
        match self.ledger.insert(row) {
            Ok(true) => {
                let _ = self.recompute(student.as_str());
                Ok(())
            },
            _ => Err(RecordError::AlreadyRecorded),
        }
    }

    /// Writes a batch of rows as one unit. Each row whose student already
    /// has a row for its session is skipped and counted; every other row is
    /// added. When a row cannot be written at all, because its session or
    /// student does not exist or the row is inconsistent, nothing of the
    /// batch is written.
    pub fn apply(&mut self, batch: &Vec<Attendance>) -> (r: Result<Receipt, BatchRejected>)
        requires
            old(self).wf(),
        ensures
            final(self).wf(),
            all_or_nothing(old(self)@, final(self)@, attendance_views(batch@)),
            r is Ok <==> (forall|j: int|
                0 <= j < batch@.len() ==> rejection_of(old(self)@, #[trigger] batch@[j]@) is None),
            match r {
                Ok(receipt) => {
                    &&& final(self)@ == applied(old(self)@, attendance_views(batch@))
                    &&& receipt.inserted == final(self)@.rows.len() - old(self)@.rows.len()
                    &&& receipt.inserted + receipt.skipped == batch@.len()
                    &&& text_views(receipt.touched@) == touched_by(
                        old(self)@.rows,
                        attendance_views(batch@),
                    )
                },
                Err(e) => {
                    &&& final(self)@ == old(self)@
                    &&& e.index < batch@.len()
                    &&& rejection_of(old(self)@, batch@[e.index as int]@) == Some(e.reason)
                    &&& forall|j: int|
                        0 <= j < e.index ==> rejection_of(old(self)@, #[trigger] batch@[j]@)
                            is None
                },
            },
    {
        let ghost views = attendance_views(batch@);
        let mut k: usize = 0;
        while k < batch.len()
            invariant
                k <= batch.len(),
                self.wf(),
                self@ == old(self)@,
                forall|j: int| 0 <= j < k ==> rejection_of(self@, #[trigger] batch@[j]@) is None,
            decreases batch.len() - k,
        {
            match self.check(&batch[k]) {
                Some(reason) => {
                    return Err(BatchRejected { index: k, reason });
                },
                None => {},
            }
            k += 1;
        }
        let mut receipt = Receipt::new();
        let mut i: usize = 0;
        assert(receipt@.touched =~= touched_by(self@.rows, views.take(0)));
        while i < batch.len()
            invariant
                i <= batch.len(),
                views == attendance_views(batch@),
                self.wf(),
                self@.sessions == old(self)@.sessions,
                self@.students == old(self)@.students,
                forall|j: int|
                    0 <= j < batch@.len() ==> rejection_of(old(self)@, #[trigger] batch@[j]@)
                        is None,
                self@.rows == apply_all(old(self)@.rows, views.take(i as int)),
                receipt.inserted == self@.rows.len() - old(self)@.rows.len(),
                receipt.inserted + receipt.skipped == i,
                receipt@.touched == touched_by(old(self)@.rows, views.take(i as int)),
            decreases batch.len() - i,
        {
            let ghost before = self@;
            proof {
                assert(views.take(i + 1).drop_last() =~= views.take(i as int));
                assert(views.take(i + 1).last() == batch@[i as int]@);
                assert(rejection_of(old(self)@, batch@[i as int]@) is None);
                lemma_insert_new_consistent(before, batch@[i as int]@);
            }
            let row = batch[i].clone();
            let outcome = match self.ledger.insert(row) {
                Ok(true) => WriteOutcome::Written,
                _ => WriteOutcome::Duplicate,
            };
            receipt.note(&batch[i].student, outcome);
            i += 1;
        }
        proof {
            assert(views.take(batch.len() as int) =~= views);
        }
        Ok(receipt)
    }

    /// Derives the standing of the student `id`, letter case aside, from
    /// every row of theirs that is not marked absent, and writes it over
    /// what the roster held. Gives the criteria met, or `None` when there is
    /// no such student.
    pub fn recompute(&mut self, id: &str) -> (r: Option<Criteria>)
        requires
            old(self).wf(),
        ensures
            final(self).wf(),
            final(self)@ == recomputed(old(self)@, upper_of(id@)),
            r == (if has_student(old(self)@.students, upper_of(id@)) {
                Some(criteria_for(old(self)@.rows, upper_of(id@)))
            } else {
                None
            }),
    {
        let key = to_upper(id);
        let tally = tally_for(self.ledger.rows(), key.as_str());
        let criteria = evaluate(&tally);
        let found = self.roster.record_standing(&key, criteria);
        proof {
            assert forall|i: int| 0 <= i < self@.rows.len() implies has_student(
                self@.students,
                (#[trigger] self@.rows[i]).student,
            ) by {
                let k = student_index(old(self)@.students, self@.rows[i].student);
                assert(has_student(old(self)@.students, old(self)@.rows[i].student));
                assert(self@.students[k].id == self@.rows[i].student);
            }
        }
        if found {
            Some(criteria)
        } else {
            None
        }
    }

    /// Writes a batch and, when it went through, derives the standing of
    /// each student who gained a row.
    pub fn ingest(&mut self, batch: &Vec<Attendance>) -> (r: Result<Receipt, BatchRejected>)
        requires
            old(self).wf(),
        ensures
            final(self).wf(),
            r is Ok <==> (forall|j: int|
                0 <= j < batch@.len() ==> rejection_of(old(self)@, #[trigger] batch@[j]@) is None),
            match r {
                Ok(receipt) => {
                    &&& final(self)@ == recomputed_each(
                        applied(old(self)@, attendance_views(batch@)),
                        text_views(receipt.touched@),
                    )
                    &&& receipt.inserted == final(self)@.rows.len() - old(self)@.rows.len()
                    &&& receipt.inserted + receipt.skipped == batch@.len()
                    &&& text_views(receipt.touched@) == touched_by(
                        old(self)@.rows,
                        attendance_views(batch@),
                    )
                },
                Err(e) => {
                    &&& final(self)@ == old(self)@
                    &&& e.index < batch@.len()
                    &&& rejection_of(old(self)@, batch@[e.index as int]@) == Some(e.reason)
                    &&& forall|j: int|
                        0 <= j < e.index ==> rejection_of(old(self)@, #[trigger] batch@[j]@)
                            is None
                },
            },
    {
        let receipt = match self.apply(batch) {
            Ok(receipt) => receipt,
            Err(e) => {
                return Err(e);
            },
        };
        proof {
            lemma_touched_from_batch(old(self)@.rows, attendance_views(batch@));
            assert forall|j: int| 0 <= j < receipt.touched@.len() implies has_student(
                self@.students,
                #[trigger] text_views(receipt.touched@)[j],
            ) by {
                let name = text_views(receipt.touched@)[j];
                let b = choose|b: int|
                    0 <= b < batch@.len() && attendance_views(batch@)[b].student == name;
                assert(rejection_of(old(self)@, batch@[b]@) is None);
            }
        }
        self.recompute_each(&receipt.touched);
        Ok(receipt)
    }

    /// The score records of the gradebook: every row of a student who sat
    /// the exam, with the student's name and the day of the session.
    pub fn score_records(&self) -> (r: Vec<ScoreRecord>)
        requires
            self.wf(),
        ensures
            record_views(r@) == joined(self@, self@.rows.len()),
    {
        let rows = self.ledger.rows();
        let mut out: Vec<ScoreRecord> = Vec::new();
        let mut i: usize = 0;
        assert(record_views(out@) =~= joined(self@, 0));
        while i < rows.len()
            invariant
                i <= rows.len(),
                self.wf(),
                attendance_views(rows@) == self@.rows,
                record_views(out@) == joined(self@, i as nat),
            decreases rows.len() - i,
        {
            let row = &rows[i];
            assert(self@.rows[i as int] == row@);
            if !row.is_absent {
                let ghost prior = record_views(out@);
                let name = match self.roster.position_of(&row.student) {
                    Some(p) => match self.roster.student(p) {
                        Some(student) => student.name.clone(),
                        None => unreached(),
                    },
                    None => unreached(),
                };
                let (date, kind) = match self.registry.get(row.session) {
                    Some(session) => (session.date, session.kind),
                    None => unreached(),
                };
                out.push(
                    ScoreRecord {
                        student: row.student.clone(),
                        name,
                        session: row.session,
                        date,
                        kind,
                        score: row.score,
                    },
                );
                assert(record_views(out@) =~= prior.push(record_of(self@, row@)));
            }
            i += 1;
        }
        out
    }

    /// The students who first met the pass rules within academic year
    /// `year`, in ascending order of identifier. `None` when the calendar
    /// does not reach that year.
    pub fn newly_passed(&self, year: u32) -> (r: Option<Vec<CohortEntry>>)
        requires
            self.wf(),
        ensures
            r is Some <==> year_in_calendar(year as int),
            r is Some ==> is_cohort(
                entry_views(r->0@),
                joined(self@, self@.rows.len()),
                window_of(year as int),
            ),
    {
        let records = self.score_records();
        newly_passed(&records, year)
    }

    /// Takes in a run of rows one by one, as when the ledger is filled
    /// from what was stored earlier: a row that cannot be written, and a
    /// row whose student has one for its session already, is passed over
    /// and the next one tried. No standing is derived. Gives the number of
    /// rows written.
    pub fn load_rows(&mut self, rows: &Vec<Attendance>) -> (written: usize)
        requires
            old(self).wf(),
        ensures
            final(self).wf(),
            final(self)@ == loaded(old(self)@, attendance_views(rows@), rows@.len()),
            written == final(self)@.rows.len() - old(self)@.rows.len(),
    {
        let ghost views = attendance_views(rows@);
        let mut written: usize = 0;
        let mut i: usize = 0;
        while i < rows.len()
            invariant
                i <= rows.len(),
                self.wf(),
                views == attendance_views(rows@),
                self@ == loaded(old(self)@, views, i as nat),
                written == self@.rows.len() - old(self)@.rows.len(),
                written <= i,
            decreases rows.len() - i,
        {
            assert(views[i as int] == rows@[i as int]@);
            if self.check(&rows[i]).is_none() {
                proof {
                    lemma_insert_new_consistent(self@, rows@[i as int]@);
                }
                match self.ledger.insert(rows[i].clone()) {
                    Ok(true) => {
                        written += 1;
                    },
                    _ => {},
                }
            }
            i += 1;
        }
        written
    }

    /// Derives the standing of every student anew.
    pub fn recompute_all(&mut self)
        requires
            old(self).wf(),
        ensures
            final(self).wf(),
            final(self)@ == in_step_all(old(self)@),
    {
        let mut names: Vec<String> = Vec::new();
        let mut i: usize = 0;
        while i < self.roster.len()
            invariant
                i <= self@.students.len(),
                self@ == old(self)@,
                names@.len() == i,
                forall|j: int| 0 <= j < i ==> (#[trigger] names@[j])@ == self@.students[j].id,
            decreases self@.students.len() - i,
        {
            match self.roster.student(i) {
                Some(student) => {
                    names.push(student.id.clone());
                },
                None => unreached(),
            }
            i += 1;
        }
        proof {
            let texts = text_views(names@);
            assert forall|j: int| 0 <= j < names@.len() implies has_student(
                self@.students,
                #[trigger] texts[j],
            ) by {
                assert(self@.students[j].id == texts[j]);
            }
            lemma_recomputed_each_in_step(self@, texts);
            lemma_recomputed_each_keeps(self@, texts);
            assert forall|k: int| 0 <= k < self@.students.len() implies texts.contains(
                #[trigger] self@.students[k].id,
            ) by {
                assert(texts[k] == self@.students[k].id);
            }
            assert(in_step(self@, texts) =~= in_step_all(self@).students);
        }
        self.recompute_each(&names);
    }

    /// Derives the standing of each of `names` in turn.
    fn recompute_each(&mut self, names: &Vec<String>)
        requires
            old(self).wf(),
            forall|j: int|
                0 <= j < names@.len() ==> has_student(
                    old(self)@.students,
                    #[trigger] text_views(names@)[j],
                ),
        ensures
            final(self).wf(),
            final(self)@ == recomputed_each(old(self)@, text_views(names@)),
            final(self)@.sessions == old(self)@.sessions,
            final(self)@.rows == old(self)@.rows,
    {
        let ghost texts = text_views(names@);
        let mut i: usize = 0;
        while i < names.len()
            invariant
                i <= names.len(),
                self.wf(),
                texts == text_views(names@),
                self@ == recomputed_each(old(self)@, texts.take(i as int)),
                forall|j: int|
                    0 <= j < texts.len() ==> has_student(self@.students, #[trigger] texts[j]),
            decreases names.len() - i,
        {
            let ghost prev = self@;
            proof {
                assert(texts.take(i + 1).drop_last() =~= texts.take(i as int));
                assert(texts.take(i + 1).last() == names@[i as int]@);
                assert(has_student(prev.students, texts[i as int]));
                let k = student_index(prev.students, texts[i as int]);
                assert(upper_of(prev.students[k].id) == prev.students[k].id);
            }
            let _ = self.recompute(names[i].as_str());
            proof {
                assert forall|j: int| 0 <= j < texts.len() implies has_student(
                    self@.students,
                    #[trigger] texts[j],
                ) by {
                    assert(has_student(prev.students, texts[j]));
                    let k = student_index(prev.students, texts[j]);
                    assert(self@.students[k].id == texts[j]);
                }
            }
            i += 1;
        }
        proof {
            assert(texts.take(names.len() as int) =~= texts);
            lemma_recomputed_each_keeps(old(self)@, texts);
        }
    }

    /// The students who have a row for `session`, in ledger order.
    pub fn students_in(&self, session: SessionKey) -> (names: Vec<String>)
        ensures
            text_views(names@) == students_of(
                self@.rows.filter(inside_session(session as int)),
            ),
    {
        let rows = self.ledger.rows();
        let ghost views = self@.rows;
        let ghost keep = inside_session(session as int);
        let mut names: Vec<String> = Vec::new();
        let mut i: usize = 0;
        assert(text_views(names@) =~= students_of(views.take(0).filter(keep))) by {
            reveal(Seq::filter);
        }
        while i < rows.len()
            invariant
                i <= rows.len(),
                views == attendance_views(rows@),
                keep == inside_session(session as int),
                text_views(names@) == students_of(views.take(i as int).filter(keep)),
            decreases rows.len() - i,
        {
            proof {
                reveal(Seq::filter);
                assert(views.take(i + 1).drop_last() =~= views.take(i as int));
                assert(views.take(i + 1).last() == rows@[i as int]@);
            }
            if rows[i].session == session {
                let ghost prior = text_views(names@);
                names.push(rows[i].student.clone());
                assert(text_views(names@) =~= prior.push(rows@[i as int]@.student));
                assert(students_of(views.take(i + 1).filter(keep)) =~= prior.push(
                    rows@[i as int]@.student,
                ));
            }
            i += 1;
        }
        proof {
            assert(views.take(rows.len() as int) =~= views);
        }
        names
    }

    /// Deletes a session together with its rows: first every row of the
    /// session, then the session itself. The standing of each student who
    /// had a row in it is derived anew. Gives the number of rows removed, or
    /// `None`, with nothing changed, when there is no such session.
    pub fn delete_session(&mut self, key: SessionKey) -> (r: Option<usize>)
        requires
            old(self).wf(),
        ensures
            final(self).wf(),
            r is Some <==> has_session_key(old(self)@.sessions, key as int),
            match r {
                Some(removed) => {
                    &&& final(self)@ == recomputed_each(
                        without_session(old(self)@, key as int),
                        students_of(old(self)@.rows.filter(inside_session(key as int))),
                    )
                    &&& removed == old(self)@.rows.len() - final(self)@.rows.len()
                },
                None => final(self)@ == old(self)@,
            },
    {
        if !self.registry.contains_key(key) {
            return None;
        }
        let affected = self.students_in(key);
        let removed = self.ledger.remove_session(key);
        self.registry.remove(key);
        proof {
            let g = self@;
            let keep = outside_session(key as int);
            lemma_filter_consistent(old(self)@.rows, keep);
            lemma_filter_consistent(old(self)@.rows, inside_session(key as int));
            let p = session_index(old(self)@.sessions, key as int);
            assert forall|i: int| 0 <= i < g.rows.len() implies has_session_key(
                g.sessions,
                (#[trigger] g.rows[i]).session,
            ) && has_student(g.students, g.rows[i].student) by {
                let row = g.rows[i];
                assert(old(self)@.rows.contains(row));
                let o = choose|o: int| 0 <= o < old(self)@.rows.len() && old(self)@.rows[o] == row;
                assert(has_session_key(old(self)@.sessions, old(self)@.rows[o].session));
                let q = session_index(old(self)@.sessions, row.session);
                if q < p {
                    assert(g.sessions[q].key == row.session);
                } else {
                    assert(g.sessions[q - 1].key == row.session);
                }
            }
            assert(g == without_session(old(self)@, key as int));
            assert forall|j: int| 0 <= j < affected@.len() implies has_student(
                g.students,
                #[trigger] text_views(affected@)[j],
            ) by {
                let inside = old(self)@.rows.filter(inside_session(key as int));
                assert(text_views(affected@).len() == students_of(inside).len());
                assert(text_views(affected@)[j] == students_of(inside)[j]);
                assert(old(self)@.rows.contains(inside[j]));
                let o = choose|o: int|
                    0 <= o < old(self)@.rows.len() && old(self)@.rows[o] == inside[j];
                assert(has_student(old(self)@.students, old(self)@.rows[o].student));
            }
        }
        self.recompute_each(&affected);
        Some(removed)
    }

    /// Deletes a student, letter case of `id` aside, together with their
    /// rows: first every row of the student, then the student. Gives the
    /// number of rows removed, or `None`, with nothing changed, when there
    /// is no such student.
    pub fn delete_student(&mut self, id: &str) -> (r: Option<usize>)
        requires
            old(self).wf(),
        ensures
            final(self).wf(),
            r is Some <==> has_student(old(self)@.students, upper_of(id@)),
            match r {
                Some(removed) => {
                    &&& final(self)@ == without_student(old(self)@, upper_of(id@))
                    &&& removed == old(self)@.rows.len() - final(self)@.rows.len()
                },
                None => final(self)@ == old(self)@,
            },
    {
        let key = to_upper(id);
        if self.roster.position_of(&key).is_none() {
            return None;
        }
        proof {
            lemma_upper_idempotent(id@);
        }
        let removed = self.ledger.remove_student(key.as_str());
        self.roster.remove(key.as_str());
        proof {
            let g = self@;
            lemma_filter_consistent(old(self)@.rows, of_other_students(key@));
            let p = student_index(old(self)@.students, key@);
            assert forall|i: int| 0 <= i < g.rows.len() implies has_session_key(
                g.sessions,
                (#[trigger] g.rows[i]).session,
            ) && has_student(g.students, g.rows[i].student) by {
                let row = g.rows[i];
                assert(old(self)@.rows.contains(row));
                let o = choose|o: int| 0 <= o < old(self)@.rows.len() && old(self)@.rows[o] == row;
                assert(has_student(old(self)@.students, old(self)@.rows[o].student));
                let q = student_index(old(self)@.students, row.student);
                if q < p {
                    assert(g.students[q].id == row.student);
                } else {
                    assert(g.students[q - 1].id == row.student);
                }
            }
        }
        Some(removed)
    }

    /// Replaces the outcome of the row that `student` has for `session`,
    /// and derives the student's standing anew when the row changed.
    /// Nothing is written when there is no such row, when the new outcome
    /// is inconsistent, or when it equals what the row holds. Says whether
    /// the row changed.
    pub fn revise(
        &mut self,
        session: SessionKey,
        student: &str,
        is_absent: bool,
        is_excused: bool,
        score: u32,
        notes: String,
    ) -> (r: bool)
        requires
            old(self).wf(),
        ensures
            final(self).wf(),
            r == revision_applies(
                old(self)@.rows,
                session as int,
                student@,
                is_absent,
                is_excused,
                score as int,
                notes@,
            ),
            final(self)@ == revision_of(
                old(self)@,
                session as int,
                student@,
                is_absent,
                is_excused,
                score as int,
                notes@,
            ),
    {
        let changed = self.ledger.revise(session, student, is_absent, is_excused, score, notes);
        if changed {
            proof {
                let i = row_index(old(self)@.rows, session as int, student@);
                assert(has_student(old(self)@.students, old(self)@.rows[i].student));
                let k = student_index(old(self)@.students, student@);
                assert(upper_of(old(self)@.students[k].id) == old(self)@.students[k].id);
                assert forall|j: int| 0 <= j < self@.rows.len() implies has_session_key(
                    self@.sessions,
                    (#[trigger] self@.rows[j]).session,
                ) && has_student(self@.students, self@.rows[j].student) by {
                    assert(has_session_key(old(self)@.sessions, old(self)@.rows[j].session));
                }
            }
            let _ = self.recompute(student);
        }
        changed
    }

    /// Removes the row that `student` has for `session`, provided it
    /// carries exactly this score, and derives the student's standing anew
    /// when a row was removed. Says whether a row was removed.
    pub fn remove_attendance(&mut self, session: SessionKey, student: &str, score: u32) -> (r:
        bool)
        requires
            old(self).wf(),
        ensures
            final(self).wf(),
            r == removal_applies(old(self)@.rows, session as int, student@, score as int),
            final(self)@ == removal_of(old(self)@, session as int, student@, score as int),
    {
        let removed = self.ledger.remove_row(session, student, score);
        if removed {
            proof {
                let i = row_index(old(self)@.rows, session as int, student@);
                assert(has_student(old(self)@.students, old(self)@.rows[i].student));
                let k = student_index(old(self)@.students, student@);
                assert(upper_of(old(self)@.students[k].id) == old(self)@.students[k].id);
                assert forall|j: int| 0 <= j < self@.rows.len() implies has_session_key(
                    self@.sessions,
                    (#[trigger] self@.rows[j]).session,
                ) && has_student(self@.students, self@.rows[j].student) by {
                    if j < i {
                        assert(has_session_key(old(self)@.sessions, old(self)@.rows[j].session));
                    } else {
                        assert(has_session_key(
                            old(self)@.sessions,
                            old(self)@.rows[j + 1].session,
                        ));
                    }
                }
            }
            let _ = self.recompute(student);
        }
        removed
    }
}

/// Every student touched by a batch is the student of one of its rows.
pub proof fn lemma_touched_from_batch(rows: Seq<AttendanceView>, batch: Seq<AttendanceView>)
    ensures
        forall|k: int|
            0 <= k < touched_by(rows, batch).len() ==> exists|j: int|
                0 <= j < batch.len() && batch[j].student == #[trigger] touched_by(rows, batch)[k],
    decreases batch.len(),
{
    if batch.len() > 0 {
        let init = batch.drop_last();
        lemma_touched_from_batch(rows, init);
        let out = touched_by(rows, batch);
        assert forall|k: int| 0 <= k < out.len() implies exists|j: int|
            0 <= j < batch.len() && batch[j].student == #[trigger] out[k] by {
            if k < touched_by(rows, init).len() {
                let j = choose|j: int|
                    0 <= j < init.len() && init[j].student == touched_by(rows, init)[k];
                assert(batch[j].student == out[k]);
            } else {
                assert(batch[batch.len() - 1].student == out[k]);
            }
        }
    }
}

/// Deriving standings leaves sessions and rows alone.
pub proof fn lemma_recomputed_each_keeps(g: GradebookView, students: Seq<Seq<char>>)
    ensures
        recomputed_each(g, students).sessions == g.sessions,
        recomputed_each(g, students).rows == g.rows,
    decreases students.len(),
{
    if students.len() > 0 {
        lemma_recomputed_each_keeps(g, students.drop_last());
    }
}

/// The students after the standing of each of `named` was derived anew:
/// each student named has the standing that the ledger gives them, and
/// every other student is as before.
pub open spec fn in_step(g: GradebookView, named: Seq<Seq<char>>) -> Seq<StudentView> {
    Seq::new(
        g.students.len(),
        |i: int|
            if named.contains(g.students[i].id) {
                with_criteria(g.students[i], criteria_for(g.rows, g.students[i].id))
            } else {
                g.students[i]
            },
    )
}

/// Deriving the standings of some students anew, one after the other and
/// some of them perhaps more than once, brings exactly those students in
/// step with the ledger.
pub proof fn lemma_recomputed_each_in_step(g: GradebookView, named: Seq<Seq<char>>)
    ensures
        recomputed_each(g, named).students == in_step(g, named),
    decreases named.len(),
{
    if named.len() == 0 {
        assert(recomputed_each(g, named).students =~= in_step(g, named));
    } else {
        let init = named.drop_last();
        let last = named.last();
        lemma_recomputed_each_in_step(g, init);
        lemma_recomputed_each_keeps(g, init);
        let before = recomputed_each(g, init);
        let after = recomputed_each(g, named);
        assert forall|i: int| 0 <= i < g.students.len() implies after.students[i] == in_step(
            g,
            named,
        )[i] by {
            let id = g.students[i].id;
            assert(before.students[i].id == id);
            if named.contains(id) {
                let k = choose|k: int| 0 <= k < named.len() && named[k] == id;
                if k < init.len() {
                    assert(init[k] == id);
                    assert(init.contains(id));
                }
            }
            if init.contains(id) {
                let k = choose|k: int| 0 <= k < init.len() && init[k] == id;
                assert(named[k] == id);
            }
            if id == last {
                assert(named[named.len() - 1] == id);
            }
        }
        assert(after.students =~= in_step(g, named));
    }
}

/// The gradebook after the standing of each of `students` was derived anew,
/// one after the other.
pub open spec fn recomputed_each(g: GradebookView, students: Seq<Seq<char>>) -> GradebookView
    decreases students.len(),
{
    if students.len() == 0 {
        g
    } else {
        recomputed(recomputed_each(g, students.drop_last()), students.last())
    }
}

} // verus!
