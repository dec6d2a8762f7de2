//! Corrections to rows already written: what a correction asks for, and
//! how a run of corrections is applied to one session.

use crate::calendar::{iso_date_of, Date};
use crate::gradebook::{revision_applies, revision_of, Gradebook, GradebookView};
use crate::ledger::Ledger;
use crate::records::{
    attendance_views, AttendanceView, ExamSession, ExamSessionView, ExamType, SessionKey,
};
use crate::registry::{has_session_key, session_index};
use crate::sheet::{
    cell_at, exam_type_of, grid_view, mark_of, row_view, status_word, text_in, Cell, CellView,
    Mark, Vocabulary, VocabularyView,
};
use crate::text::{
    comma_pair_of, has_prefix, split_comma_pair, starts_with, strip_prefixes, trim_of, trimmed,
    without_prefixes,
};
use vstd::prelude::*;

verus! {

/// A correction to one student's row: the status word, the score, and the
/// notes as entered.
#[derive(Debug)]
pub struct ScoreChange {
    pub student: String,
    pub status: String,
    pub score: u32,
    pub notes: String,
}

/// A correction as plain values.
pub struct ScoreChangeView {
    pub student: Seq<char>,
    pub status: Seq<char>,
    pub score: int,
    pub notes: Seq<char>,
}

impl View for ScoreChange {
    type V = ScoreChangeView;

    open spec fn view(&self) -> ScoreChangeView {
        ScoreChangeView {
            student: self.student@,
            status: self.status@,
            score: self.score as int,
            notes: self.notes@,
        }
    }
}

/// The views of a run of corrections, in order.
pub open spec fn change_views(changes: Seq<ScoreChange>) -> Seq<ScoreChangeView> {
    Seq::new(changes.len(), |i: int| changes[i]@)
}

/// Whether a correction marks the student absent.
pub open spec fn change_is_absent(vocabulary: VocabularyView, change: ScoreChangeView) -> bool {
    mark_of(vocabulary, change.status) is Some
}

/// Whether a correction marks the student excused.
pub open spec fn change_is_excused(vocabulary: VocabularyView, change: ScoreChangeView) -> bool {
    mark_of(vocabulary, change.status) == Some(Mark::Excused)
}

/// The score a correction asks for: none for an absence, whatever was
/// entered otherwise.
pub open spec fn change_score(vocabulary: VocabularyView, change: ScoreChangeView) -> int {
    if change_is_absent(vocabulary, change) {
        0
    } else {
        change.score
    }
}

/// The gradebook after one correction to `session`.
pub open spec fn corrected(
    g: GradebookView,
    session: int,
    vocabulary: VocabularyView,
    change: ScoreChangeView,
) -> GradebookView {
    revision_of(
        g,
        session,
        change.student,
        change_is_absent(vocabulary, change),
        change_is_excused(vocabulary, change),
        change_score(vocabulary, change),
        trim_of(change.notes),
    )
}

/// The gradebook after a run of corrections to `session`, applied in order.
pub open spec fn corrected_all(
    g: GradebookView,
    session: int,
    vocabulary: VocabularyView,
    changes: Seq<ScoreChangeView>,
) -> GradebookView
    decreases changes.len(),
{
    if changes.len() == 0 {
        g
    } else {
        corrected(
            corrected_all(g, session, vocabulary, changes.drop_last()),
            session,
            vocabulary,
            changes.last(),
        )
    }
}

/// How many corrections of a run changed a row.
pub open spec fn corrections_made(
    g: GradebookView,
    session: int,
    vocabulary: VocabularyView,
    changes: Seq<ScoreChangeView>,
) -> int
    decreases changes.len(),
{
    if changes.len() == 0 {
        0
    } else {
        let before = corrected_all(g, session, vocabulary, changes.drop_last());
        let change = changes.last();
        corrections_made(g, session, vocabulary, changes.drop_last()) + if revision_applies(
            before.rows,
            session,
            change.student,
            change_is_absent(vocabulary, change),
            change_is_excused(vocabulary, change),
            change_score(vocabulary, change),
            trim_of(change.notes),
        ) {
            1int
        } else {
            0int
        }
    }
}

/// Applies one correction to `session`. Says whether the row changed.
pub fn correct(
    gradebook: &mut Gradebook,
    session: SessionKey,
    vocabulary: &Vocabulary,
    change: &ScoreChange,
) -> (r: bool)
    requires
        old(gradebook).wf(),
    ensures
        final(gradebook).wf(),
        final(gradebook)@ == corrected(old(gradebook)@, session as int, vocabulary@, change@),
        r == revision_applies(
            old(gradebook)@.rows,
            session as int,
            change@.student,
            change_is_absent(vocabulary@, change@),
            change_is_excused(vocabulary@, change@),
            change_score(vocabulary@, change@),
            trim_of(change@.notes),
        ),
{
    let mark = vocabulary.mark(change.status.as_str());
    let is_absent = mark.is_some();
    let is_excused = match mark {
        Some(Mark::Excused) => true,
        _ => false,
    };
    let score = if is_absent {
        0
    } else {
        change.score
    };
    let notes = trimmed(change.notes.as_str()).to_owned();
    gradebook.revise(session, change.student.as_str(), is_absent, is_excused, score, notes)
}

/// Applies a run of corrections to `session`, in order. A correction that
/// names no row of the session, or that changes nothing, is passed over.
/// Gives the number of rows changed.
pub fn correct_all(
    gradebook: &mut Gradebook,
    session: SessionKey,
    vocabulary: &Vocabulary,
    changes: &Vec<ScoreChange>,
) -> (made: usize)
    requires
        old(gradebook).wf(),
    ensures
        final(gradebook).wf(),
        final(gradebook)@ == corrected_all(
            old(gradebook)@,
            session as int,
            vocabulary@,
            change_views(changes@),
        ),
        made == corrections_made(
            old(gradebook)@,
            session as int,
            vocabulary@,
            change_views(changes@),
        ),
{
    let ghost views = change_views(changes@);
    let mut made: usize = 0;
    let mut i: usize = 0;
    while i < changes.len()
        invariant
            i <= changes.len(),
            gradebook.wf(),
            views == change_views(changes@),
            gradebook@ == corrected_all(
                old(gradebook)@,
                session as int,
                vocabulary@,
                views.take(i as int),
            ),
            made == corrections_made(
                old(gradebook)@,
                session as int,
                vocabulary@,
                views.take(i as int),
            ),
            made <= i,
        decreases changes.len() - i,
    {
        proof {
            assert(views.take(i + 1).drop_last() =~= views.take(i as int));
            assert(views.take(i + 1).last() == changes@[i as int]@);
        }
        if correct(gradebook, session, vocabulary, &changes[i]) {
            made += 1;
        }
        i += 1;
    }
    proof {
        assert(views.take(changes.len() as int) =~= views);
    }
    made
}

/// Why a session named by a caller is not the session they hold the key
/// of.
#[derive(Clone, Copy, Debug, PartialEq, Eq, Structural)]
pub enum ClaimError {
    /// The text is not of the form `date,type`.
    Format,
    /// The part before the comma is no date.
    BadDate,
    /// No session has this key.
    UnknownSession,
    /// The session with this key is held on another day.
    DateMismatch,
    /// The session with this key is of another type.
    TypeMismatch,
}

/// Whether the session `session` is held on `date` and is of type `kind`.
pub open spec fn claim_outcome(
    date: Option<Date>,
    kind: Option<ExamType>,
    session: Option<ExamSessionView>,
) -> Result<(), ClaimError> {
    match date {
        None => Err(ClaimError::BadDate),
        Some(date) => match session {
            None => Err(ClaimError::UnknownSession),
            Some(session) => if session.date != date {
                Err(ClaimError::DateMismatch)
            } else if kind != Some(session.kind) {
                Err(ClaimError::TypeMismatch)
            } else {
                Ok(())
            },
        },
    }
}

/// The session with this key, if there is one.
pub open spec fn session_of_key(sessions: Seq<ExamSessionView>, key: int) -> Option<
    ExamSessionView,
> {
    if has_session_key(sessions, key) {
        Some(sessions[session_index(sessions, key)])
    } else {
        None
    }
}

/// Whether `text`, of the form `date,type` with white space allowed around
/// either part, names the session with key `key`.
pub open spec fn claim_of(
    text: Seq<char>,
    vocabulary: VocabularyView,
    sessions: Seq<ExamSessionView>,
    key: int,
) -> Result<(), ClaimError> {
    match comma_pair_of(text) {
        None => Err(ClaimError::Format),
        Some((date, label)) => claim_outcome(
            iso_date_of(trim_of(date)),
            exam_type_of(vocabulary, trim_of(label)),
            session_of_key(sessions, key),
        ),
    }
}

/// Compares what was read from a caller's text with the session they hold
/// the key of.
pub fn check_claim(date: Option<Date>, kind: Option<ExamType>, session: Option<&ExamSession>) -> (r:
    Result<(), ClaimError>)
    ensures
        r == claim_outcome(
            date,
            kind,
            match session {
                Some(session) => Some(session@),
                None => None,
            },
        ),
{
    match date {
        None => Err(ClaimError::BadDate),
        Some(date) => match session {
            None => Err(ClaimError::UnknownSession),
            Some(session) => {
                if session.date != date {
                    Err(ClaimError::DateMismatch)
                } else {
                    match kind {
                        Some(kind) => if kind == session.kind {
                            Ok(())
                        } else {
                            Err(ClaimError::TypeMismatch)
                        },
                        None => Err(ClaimError::TypeMismatch),
                    }
                }
            },
        },
    }
}

/// Checks that `text` names the session with key `key`.
pub fn verify_claim(gradebook: &Gradebook, text: &str, vocabulary: &Vocabulary, key: SessionKey) -> (r:
    Result<(), ClaimError>)
    requires
        gradebook.wf(),
    ensures
        r == claim_of(text@, vocabulary@, gradebook@.sessions, key as int),
{
    match split_comma_pair(text) {
        None => Err(ClaimError::Format),
        Some((date, label)) => check_claim(
            Date::parse(trimmed(date)),
            vocabulary.exam_type(trimmed(label)),
            gradebook.registry().get(key),
        ),
    }
}

/// Applies a run of corrections to the session with key `key`, after
/// checking that `text` names that session. Gives the number of rows
/// changed; when the check fails nothing changes.
pub fn correct_session(
    gradebook: &mut Gradebook,
    text: &str,
    key: SessionKey,
    vocabulary: &Vocabulary,
    changes: &Vec<ScoreChange>,
) -> (r: Result<usize, ClaimError>)
    requires
        old(gradebook).wf(),
    ensures
        final(gradebook).wf(),
        match r {
            Ok(made) => {
                &&& claim_of(text@, vocabulary@, old(gradebook)@.sessions, key as int) is Ok
                &&& final(gradebook)@ == corrected_all(
                    old(gradebook)@,
                    key as int,
                    vocabulary@,
                    change_views(changes@),
                )
                &&& made == corrections_made(
                    old(gradebook)@,
                    key as int,
                    vocabulary@,
                    change_views(changes@),
                )
            },
            Err(e) => {
                &&& claim_of(text@, vocabulary@, old(gradebook)@.sessions, key as int) == Err::<
                    (),
                    ClaimError,
                >(e)
                &&& final(gradebook)@ == old(gradebook)@
            },
        },
{
    match verify_claim(gradebook, text, vocabulary, key) {
        Ok(()) => Ok(correct_all(gradebook, key, vocabulary, changes)),
        Err(e) => Err(e),
    }
}

/// The lines of one session: for each row of the first `n` rows of the
/// ledger that belongs to `session`, the student, the word for the outcome,
/// the score and the notes.
pub open spec fn session_lines(
    rows: Seq<AttendanceView>,
    session: int,
    vocabulary: VocabularyView,
    present: Seq<char>,
    n: nat,
) -> Seq<ScoreChangeView>
    decreases n,
{
    if n == 0 {
        Seq::empty()
    } else {
        let before = session_lines(rows, session, vocabulary, present, (n - 1) as nat);
        let row = rows[n - 1];
        if row.session == session {
            before.push(
                ScoreChangeView {
                    student: row.student,
                    status: status_word(vocabulary, row.is_absent, row.is_excused, present),
                    score: row.score,
                    notes: row.notes,
                },
            )
        } else {
            before
        }
    }
}

/// Lists the rows of one session in ledger order, each outcome put into
/// words; `present` is the word for a student who sat the exam.
pub fn list_session(ledger: &Ledger, session: SessionKey, vocabulary: &Vocabulary, present: &str) -> (r:
    Vec<ScoreChange>)
    ensures
        change_views(r@) == session_lines(
            ledger@,
            session as int,
            vocabulary@,
            present@,
            ledger@.len(),
        ),
{
    let rows = ledger.rows();
    let mut out: Vec<ScoreChange> = Vec::new();
    let mut i: usize = 0;
    assert(change_views(out@) =~= Seq::<ScoreChangeView>::empty());
    while i < rows.len()
        invariant
            i <= rows.len(),
            attendance_views(rows@) == ledger@,
            change_views(out@) == session_lines(
                ledger@,
                session as int,
                vocabulary@,
                present@,
                i as nat,
            ),
        decreases rows.len() - i,
    {
        let row = &rows[i];
        assert(ledger@[i as int] == row@);
        if row.session == session {
            let ghost prior = change_views(out@);
            let line = ScoreChange {
                student: row.student.clone(),
                status: vocabulary.status(row.is_absent, row.is_excused, present),
                score: row.score,
                notes: row.notes.clone(),
            };
            out.push(line);
            assert(change_views(out@) =~= prior.push(line@));
        }
        i += 1;
    }
    out
}

/// The words that stand before the date in the first cell of a sheet of
/// corrections.
pub open spec fn date_caption() -> Seq<char> {
    "考試日期: "@
}

/// The day a sheet of corrections is about: what `chrono` reads from its
/// first cell once the caption and the white space around the rest are
/// removed. `None` when the sheet has no such cell.
pub open spec fn sheet_date_of(grid: Seq<Seq<CellView>>) -> Option<Date> {
    if grid.len() == 0 {
        None
    } else {
        match cell_at(grid[0], 0) {
            CellView::Text(text) => if starts_with(text, date_caption()) {
                iso_date_of(trim_of(without_prefixes(text, date_caption())))
            } else {
                None
            },
            _ => None,
        }
    }
}

/// The score in a cell of a sheet of corrections: the whole part of a
/// number, zero for a cell that holds no number, and `None` for a number
/// below zero or above `u32::MAX`.
pub open spec fn count_in(cell: CellView) -> Option<int> {
    match cell {
        CellView::Number { whole, exact } => if 0 <= whole <= u32::MAX {
            Some(whole)
        } else {
            None
        },
        _ => Some(0),
    }
}

/// The correction that a row of the sheet asks for: student, status, score
/// and notes from its first four cells. `None` for a row with fewer than
/// four cells, without a text in its first cell, or with a number that is
/// no score.
pub open spec fn correction_in(row: Seq<CellView>) -> Option<ScoreChangeView> {
    if row.len() < 4 {
        None
    } else {
        match row[0] {
            CellView::Text(id) => match count_in(row[2]) {
                Some(score) => Some(
                    ScoreChangeView {
                        student: trim_of(id),
                        status: trim_of(text_in(row[1])),
                        score,
                        notes: text_in(row[3]),
                    },
                ),
                None => None,
            },
            _ => None,
        }
    }
}

/// The corrections asked for by the rows `2` to `n - 1` of the sheet.
pub open spec fn corrections_in(grid: Seq<Seq<CellView>>, n: nat) -> Seq<ScoreChangeView>
    decreases n,
{
    if n <= 2 {
        Seq::empty()
    } else {
        let before = corrections_in(grid, (n - 1) as nat);
        match correction_in(grid[n - 1]) {
            Some(change) => before.push(change),
            None => before,
        }
    }
}

fn text_of(cell: &Cell) -> (r: &str)
    ensures
        r@ == text_in(cell@),
{
    proof {
        reveal_strlit("");
        assert(""@ =~= Seq::<char>::empty());
    }
    match cell {
        Cell::Text(text) => text.as_str(),
        _ => "",
    }
}

/// Reads the correction that one row of the sheet asks for.
pub fn read_correction(row: &Vec<Cell>) -> (r: Option<ScoreChange>)
    ensures
        match r {
            Some(change) => correction_in(row_view(row@)) == Some(change@),
            None => correction_in(row_view(row@)) is None,
        },
{
    if row.len() < 4 {
        return None;
    }
    let id = match &row[0] {
        Cell::Text(id) => id,
        _ => {
            return None;
        },
    };
    let score: u32 = match &row[2] {
        Cell::Number { whole, exact } => {
            if 0 <= *whole && *whole <= u32::MAX as i64 {
                *whole as u32
            } else {
                return None;
            }
        },
        _ => 0,
    };
    Some(
        ScoreChange {
            student: trimmed(id.as_str()).to_owned(),
            status: trimmed(text_of(&row[1])).to_owned(),
            score,
            notes: text_of(&row[3]).to_owned(),
        },
    )
}

/// Reads the corrections that a sheet asks for, from its third row on.
pub fn read_corrections(grid: &Vec<Vec<Cell>>) -> (r: Vec<ScoreChange>)
    ensures
        change_views(r@) == corrections_in(grid_view(grid@), grid@.len()),
{
    let mut out: Vec<ScoreChange> = Vec::new();
    assert(change_views(out@) =~= Seq::<ScoreChangeView>::empty());
    if grid.len() <= 2 {
        return out;
    }
    let mut n: usize = 2;
    while n < grid.len()
        invariant
            2 <= n <= grid.len(),
            change_views(out@) == corrections_in(grid_view(grid@), n as nat),
        decreases grid.len() - n,
    {
        let ghost prior = change_views(out@);
        assert(grid_view(grid@)[n as int] == row_view(grid@[n as int]@));
        match read_correction(&grid[n]) {
            Some(change) => {
                out.push(change);
                assert(change_views(out@) =~= prior.push(change@));
            },
            None => {},
        }
        n += 1;
    }
    out
}

/// Reads the day that a sheet of corrections is about.
pub fn read_sheet_date(grid: &Vec<Vec<Cell>>) -> (r: Option<Date>)
    ensures
        r == sheet_date_of(grid_view(grid@)),
{
    if grid.len() == 0 {
        return None;
    }
    assert(grid_view(grid@)[0] == row_view(grid@[0]@));
    if grid[0].len() == 0 {
        return None;
    }
    match &grid[0][0] {
        Cell::Text(text) => {
            if has_prefix(text.as_str(), "考試日期: ") {
                Date::parse(trimmed(strip_prefixes(text.as_str(), "考試日期: ")))
            } else {
                None
            }
        },
        _ => None,
    }
}

/// Whether the session `session` is held on `date`.
pub open spec fn day_claim_outcome(date: Option<Date>, session: Option<ExamSessionView>) -> Result<
    (),
    ClaimError,
> {
    match date {
        None => Err(ClaimError::BadDate),
        Some(date) => match session {
            None => Err(ClaimError::UnknownSession),
            Some(session) => if session.date != date {
                Err(ClaimError::DateMismatch)
            } else {
                Ok(())
            },
        },
    }
}

/// What a sheet of corrections does to the session with key `key`: the
/// sheet must be about the day on which that session is held.
pub open spec fn sheet_claim_of(
    grid: Seq<Seq<CellView>>,
    sessions: Seq<ExamSessionView>,
    key: int,
) -> Result<(), ClaimError> {
    day_claim_outcome(sheet_date_of(grid), session_of_key(sessions, key))
}

/// Compares the day that a sheet is about with the session whose rows it
/// is to correct.
pub fn check_day_claim(date: Option<Date>, session: Option<&ExamSession>) -> (r: Result<
    (),
    ClaimError,
>)
    ensures
        r == day_claim_outcome(
            date,
            match session {
                Some(session) => Some(session@),
                None => None,
            },
        ),
{
    match date {
        None => Err(ClaimError::BadDate),
        Some(date) => match session {
            None => Err(ClaimError::UnknownSession),
            Some(session) => {
                if session.date != date {
                    Err(ClaimError::DateMismatch)
                } else {
                    Ok(())
                }
            },
        },
    }
}

/// Applies the corrections of a sheet to the session with key `key`,
/// provided the sheet is about the day of that session. Gives the number of
/// rows changed; when the sheet is about another day, or about none,
/// nothing changes.
pub fn correct_from_sheet(
    gradebook: &mut Gradebook,
    grid: &Vec<Vec<Cell>>,
    key: SessionKey,
    vocabulary: &Vocabulary,
) -> (r: Result<usize, ClaimError>)
    requires
        old(gradebook).wf(),
    ensures
        final(gradebook).wf(),
        match r {
            Ok(made) => {
                &&& sheet_claim_of(grid_view(grid@), old(gradebook)@.sessions, key as int) is Ok
                &&& final(gradebook)@ == corrected_all(
                    old(gradebook)@,
                    key as int,
                    vocabulary@,
                    corrections_in(grid_view(grid@), grid@.len()),
                )
                &&& made == corrections_made(
                    old(gradebook)@,
                    key as int,
                    vocabulary@,
                    corrections_in(grid_view(grid@), grid@.len()),
                )
            },
            Err(e) => {
                &&& sheet_claim_of(grid_view(grid@), old(gradebook)@.sessions, key as int)
                    == Err::<(), ClaimError>(e)
                &&& final(gradebook)@ == old(gradebook)@
            },
        },
{
    match check_day_claim(read_sheet_date(grid), gradebook.registry().get(key)) {
        Ok(()) => {},
        Err(e) => {
            return Err(e);
        },
    }
    let changes = read_corrections(grid);
    Ok(correct_all(gradebook, key, vocabulary, &changes))
}

} // verus!
