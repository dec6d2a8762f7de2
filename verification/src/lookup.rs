//! Sheets that list students, and what is looked up or done for each
//! student listed: the pass summary, the latest absence, deletion.

use crate::calendar::Date;
use crate::eligibility::{criteria_of, evaluate, max_for, tally_for, total_for};
use crate::gradebook::{removal_of, without_student, Gradebook, GradebookView};
use crate::ledger::{has_row, row_index};
use crate::records::{
    attendance_views, row_consistent, AttendanceView, ExamType, SessionKey,
};
use crate::registry::session_index;
use crate::roster::{has_student, student_index};
use crate::sheet::{
    cell_at, grid_view, row_view, status_word, Cell, CellView, Vocabulary, VocabularyView,
};
use crate::text::{same_text, text_views, to_upper, trim_of, trimmed, upper_of};
use vstd::pervasive::unreached;
use vstd::prelude::*;

verus! {

/// The title of the column that lists student identifiers.
pub open spec fn id_title() -> Seq<char> {
    "學號"@
}

/// Whether a cell holds the title of the identifier column.
pub open spec fn is_id_title(cell: CellView) -> bool {
    cell == CellView::Text(id_title())
}

/// The first of the first `n` columns of the header that holds the title
/// of the identifier column.
pub open spec fn id_column_of(header: Seq<CellView>, n: nat) -> Option<int>
    decreases n,
{
    if n == 0 {
        None
    } else {
        match id_column_of(header, (n - 1) as nat) {
            Some(column) => Some(column),
            None => if is_id_title(header[n - 1]) {
                Some(n - 1)
            } else {
                None
            },
        }
    }
}

/// The identifier in a cell: its text, folded to upper case when `fold` is
/// set. `None` for a cell without text.
pub open spec fn id_in(cell: CellView, fold: bool) -> Option<Seq<char>> {
    match cell {
        CellView::Text(text) => Some(
            if fold {
                upper_of(text)
            } else {
                text
            },
        ),
        _ => None,
    }
}

/// The identifiers that rows `1` to `n` of the grid hold in `column`, from
/// top to bottom.
pub open spec fn ids_of(grid: Seq<Seq<CellView>>, column: int, fold: bool, n: nat) -> Seq<
    Seq<char>,
>
    decreases n,
{
    if n == 0 {
        Seq::empty()
    } else {
        let before = ids_of(grid, column, fold, (n - 1) as nat);
        match id_in(cell_at(grid[n as int], column), fold) {
            Some(id) => before.push(id),
            None => before,
        }
    }
}

/// Why a sheet lists no students.
#[derive(Clone, Copy, Debug, PartialEq, Eq, Structural)]
pub enum ListError {
    /// The sheet has no header row.
    EmptySheet,
    /// No column of the header is titled as the identifier column.
    NoIdColumn,
    /// The identifier column holds no text below the header.
    NoIds,
}

/// The students a sheet lists.
pub open spec fn listed_of(grid: Seq<Seq<CellView>>, fold: bool) -> Result<
    Seq<Seq<char>>,
    ListError,
> {
    if grid.len() == 0 {
        Err(ListError::EmptySheet)
    } else {
        match id_column_of(grid[0], grid[0].len()) {
            None => Err(ListError::NoIdColumn),
            Some(column) => {
                let ids = ids_of(grid, column, fold, (grid.len() - 1) as nat);
                if ids.len() == 0 {
                    Err(ListError::NoIds)
                } else {
                    Ok(ids)
                }
            },
        }
    }
}

/// Once the identifier column was found, looking at further columns does
/// not change it.
pub proof fn lemma_id_column_stays(header: Seq<CellView>, k: nat, n: nat)
    requires
        k <= n,
        id_column_of(header, k) is Some,
    ensures
        id_column_of(header, n) == id_column_of(header, k),
    decreases n,
{
    if k < n {
        lemma_id_column_stays(header, k, (n - 1) as nat);
    }
}

/// Finds the identifier column of a header.
pub fn find_id_column(header: &Vec<Cell>) -> (r: Option<usize>)
    ensures
        match r {
            Some(column) => id_column_of(row_view(header@), header@.len()) == Some(column as int)
                && column < header@.len(),
            None => id_column_of(row_view(header@), header@.len()) is None,
        },
{
    let ghost cells = row_view(header@);
    let mut i: usize = 0;
    while i < header.len()
        invariant
            i <= header.len(),
            cells == row_view(header@),
            id_column_of(cells, i as nat) is None,
        decreases header.len() - i,
    {
        let found = match &header[i] {
            Cell::Text(text) => same_text(text.as_str(), "學號"),
            _ => false,
        };
        if found {
            proof {
                assert(is_id_title(cells[i as int]));
                lemma_id_column_stays(cells, (i + 1) as nat, header@.len());
            }
            return Some(i);
        }
        assert(!is_id_title(cells[i as int]));
        i += 1;
    }
    None
}

/// Reads the students a sheet lists, in sheet order. Identifiers are folded
/// to upper case when `fold` is set.
pub fn read_listed(grid: &Vec<Vec<Cell>>, fold: bool) -> (r: Result<Vec<String>, ListError>)
    ensures
        match r {
            Ok(ids) => listed_of(grid_view(grid@), fold) == Ok::<Seq<Seq<char>>, ListError>(
                text_views(ids@),
            ),
            Err(e) => listed_of(grid_view(grid@), fold) == Err::<Seq<Seq<char>>, ListError>(e),
        },
{
    if grid.len() == 0 {
        return Err(ListError::EmptySheet);
    }
    let ghost cells = grid_view(grid@);
    assert(cells[0] == row_view(grid@[0]@));
    let column = match find_id_column(&grid[0]) {
        Some(column) => column,
        None => {
            return Err(ListError::NoIdColumn);
        },
    };
    let mut ids: Vec<String> = Vec::new();
    let mut n: usize = 0;
    assert(text_views(ids@) =~= Seq::<Seq<char>>::empty());
    while n < grid.len() - 1
        invariant
            n <= grid.len() - 1,
            cells == grid_view(grid@),
            text_views(ids@) == ids_of(cells, column as int, fold, n as nat),
        decreases grid.len() - 1 - n,
    {
        let row = &grid[n + 1];
        assert(cells[n + 1] == row_view(row@));
        let ghost prior = text_views(ids@);
        if column < row.len() {
            match &row[column] {
                Cell::Text(text) => {
                    let id = if fold {
                        to_upper(text.as_str())
                    } else {
                        text.clone()
                    };
                    ids.push(id);
                    assert(text_views(ids@) =~= prior.push(id@));
                },
                _ => {},
            }
        }
        n += 1;
    }
    if ids.len() == 0 {
        Err(ListError::NoIds)
    } else {
        Ok(ids)
    }
}

/// What the records say about one student's exams.
#[derive(Debug)]
pub struct PassLine {
    pub student: String,
    pub name: String,
    pub total: u128,
    pub max: u32,
    pub passed: bool,
}

/// A line as plain values.
pub struct PassLineView {
    pub student: Seq<char>,
    pub name: Seq<char>,
    pub total: int,
    pub max: int,
    pub passed: bool,
}

impl View for PassLine {
    type V = PassLineView;

    open spec fn view(&self) -> PassLineView {
        PassLineView {
            student: self.student@,
            name: self.name@,
            total: self.total as int,
            max: self.max as int,
            passed: self.passed,
        }
    }
}

/// The views of a run of lines, in order.
pub open spec fn pass_line_views(lines: Seq<PassLine>) -> Seq<PassLineView> {
    Seq::new(lines.len(), |i: int| lines[i]@)
}

/// The line of the student with identifier `id`.
pub open spec fn pass_line_of(g: GradebookView, id: Seq<char>) -> PassLineView {
    let total = total_for(g.rows, id);
    let max = max_for(g.rows, id);
    PassLineView {
        student: id,
        name: g.students[student_index(g.students, id)].name,
        total,
        max,
        passed: criteria_of(total, max).spec_is_passed(),
    }
}

/// One line for each of `ids` that names a student, letter case aside, in
/// the order of `ids`.
pub open spec fn pass_lines_of(g: GradebookView, ids: Seq<Seq<char>>) -> Seq<PassLineView>
    decreases ids.len(),
{
    if ids.len() == 0 {
        Seq::empty()
    } else {
        let before = pass_lines_of(g, ids.drop_last());
        let id = upper_of(ids.last());
        if has_student(g.students, id) {
            before.push(pass_line_of(g, id))
        } else {
            before
        }
    }
}

/// Sums up the exams of each listed student: sum of scores, best score, and
/// whether the pass rules are met. Identifiers that name no student are
/// passed over.
pub fn pass_summary(gradebook: &Gradebook, ids: &Vec<String>) -> (r: Vec<PassLine>)
    requires
        gradebook.wf(),
    ensures
        pass_line_views(r@) == pass_lines_of(gradebook@, text_views(ids@)),
{
    let ghost names = text_views(ids@);
    let mut out: Vec<PassLine> = Vec::new();
    let mut i: usize = 0;
    assert(pass_line_views(out@) =~= Seq::<PassLineView>::empty());
    while i < ids.len()
        invariant
            i <= ids.len(),
            gradebook.wf(),
            names == text_views(ids@),
            pass_line_views(out@) == pass_lines_of(gradebook@, names.take(i as int)),
        decreases ids.len() - i,
    {
        proof {
            assert(names.take(i + 1).drop_last() =~= names.take(i as int));
            assert(names.take(i + 1).last() == ids@[i as int]@);
        }
        let ghost prior = pass_line_views(out@);
        match gradebook.roster().get(ids[i].as_str()) {
            Some(student) => {
                let tally = tally_for(gradebook.ledger().rows(), student.id.as_str());
                let line = PassLine {
                    student: student.id.clone(),
                    name: student.name.clone(),
                    total: tally.total,
                    max: tally.max,
                    passed: evaluate(&tally).is_passed(),
                };
                out.push(line);
                assert(pass_line_views(out@) =~= prior.push(line@));
            },
            None => {},
        }
        i += 1;
    }
    proof {
        assert(names.take(ids.len() as int) =~= names);
    }
    out
}

/// The day on which the session of `row` is held.
pub open spec fn row_date(g: GradebookView, row: AttendanceView) -> Date {
    g.sessions[session_index(g.sessions, row.session)].date
}

/// Among the first `n` rows of the ledger, the position of the latest
/// absence of `student`: the absent row of theirs with the latest day, and
/// of several on that day the one written first.
pub open spec fn latest_absence_index(g: GradebookView, student: Seq<char>, n: nat) -> Option<int>
    decreases n,
{
    if n == 0 {
        None
    } else {
        let before = latest_absence_index(g, student, (n - 1) as nat);
        let row = g.rows[n - 1];
        if row.student == student && row.is_absent {
            match before {
                Some(b) => if row_date(g, g.rows[b]).spec_lt(row_date(g, row)) {
                    Some(n - 1)
                } else {
                    before
                },
                None => Some(n - 1),
            }
        } else {
            before
        }
    }
}

/// A student's latest absence.
#[derive(Debug)]
pub struct AbsenceLine {
    pub student: String,
    /// The word for the kind of absence.
    pub status: String,
    pub date: Date,
    pub kind: ExamType,
    pub notes: String,
}

/// A line as plain values.
pub struct AbsenceLineView {
    pub student: Seq<char>,
    pub status: Seq<char>,
    pub date: Date,
    pub kind: ExamType,
    pub notes: Seq<char>,
}

impl View for AbsenceLine {
    type V = AbsenceLineView;

    open spec fn view(&self) -> AbsenceLineView {
        AbsenceLineView {
            student: self.student@,
            status: self.status@,
            date: self.date,
            kind: self.kind,
            notes: self.notes@,
        }
    }
}

/// The line for the absence that row `i` of the ledger records.
pub open spec fn absence_line_of(g: GradebookView, vocabulary: VocabularyView, i: int) -> AbsenceLineView {
    let row = g.rows[i];
    let session = g.sessions[session_index(g.sessions, row.session)];
    AbsenceLineView {
        student: row.student,
        status: status_word(vocabulary, true, row.is_excused, Seq::empty()),
        date: session.date,
        kind: session.kind,
        notes: row.notes,
    }
}

/// The latest absence of the student with exactly this identifier.
pub fn latest_absence(gradebook: &Gradebook, student: &str, vocabulary: &Vocabulary) -> (r: Option<
    AbsenceLine,
>)
    requires
        gradebook.wf(),
    ensures
        match r {
            Some(line) => {
                let at = latest_absence_index(gradebook@, student@, gradebook@.rows.len());
                at is Some && line@ == absence_line_of(gradebook@, vocabulary@, at->0)
            },
            None => latest_absence_index(gradebook@, student@, gradebook@.rows.len()) is None,
        },
{
    let key = student.to_owned();
    let rows = gradebook.ledger().rows();
    let registry = gradebook.registry();
    let mut best: Option<(usize, Date)> = None;
    let mut i: usize = 0;
    while i < rows.len()
        invariant
            i <= rows.len(),
            gradebook.wf(),
            registry@ == gradebook@.sessions,
            registry.wf(),
            key@ == student@,
            attendance_views(rows@) == gradebook@.rows,
            match best {
                Some((at, date)) => latest_absence_index(gradebook@, student@, i as nat) == Some(
                    at as int,
                ) && at < i && date == row_date(gradebook@, gradebook@.rows[at as int]),
                None => latest_absence_index(gradebook@, student@, i as nat) is None,
            },
        decreases rows.len() - i,
    {
        let row = &rows[i];
        assert(gradebook@.rows[i as int] == row@);
        if row.student == key && row.is_absent {
            let date = match registry.date_of(row.session) {
                Some(date) => date,
                None => unreached(),
            };
            let later = match best {
                Some((_, seen)) => seen.lt(&date),
                None => true,
            };
            if later {
                best = Some((i, date));
            }
        }
        i += 1;
    }
    match best {
        Some((at, date)) => {
            let row = &rows[at];
            assert(gradebook@.rows[at as int] == row@);
            let kind = match registry.get(row.session) {
                Some(session) => session.kind,
                None => unreached(),
            };
            proof {
                reveal_strlit("");
            }
            Some(
                AbsenceLine {
                    student: row.student.clone(),
                    status: vocabulary.status(true, row.is_excused, ""),
                    date,
                    kind,
                    notes: row.notes.clone(),
                },
            )
        },
        None => None,
    }
}

/// The gradebook after each of `ids` that names a student, letter case
/// aside, was deleted together with their rows, in the order of `ids`.
pub open spec fn without_students(g: GradebookView, ids: Seq<Seq<char>>) -> GradebookView
    decreases ids.len(),
{
    if ids.len() == 0 {
        g
    } else {
        let before = without_students(g, ids.drop_last());
        let id = upper_of(ids.last());
        if has_student(before.students, id) {
            without_student(before, id)
        } else {
            before
        }
    }
}

/// How many students deleting `ids` takes off the roster.
pub open spec fn students_deleted(g: GradebookView, ids: Seq<Seq<char>>) -> int {
    g.students.len() - without_students(g, ids).students.len()
}

/// Deletes each listed student together with their rows. Identifiers that
/// name no student are passed over. Gives the number of students deleted.
pub fn delete_students(gradebook: &mut Gradebook, ids: &Vec<String>) -> (deleted: usize)
    requires
        old(gradebook).wf(),
    ensures
        final(gradebook).wf(),
        final(gradebook)@ == without_students(old(gradebook)@, text_views(ids@)),
        deleted == students_deleted(old(gradebook)@, text_views(ids@)),
{
    let ghost names = text_views(ids@);
    let mut deleted: usize = 0;
    let mut i: usize = 0;
    while i < ids.len()
        invariant
            i <= ids.len(),
            gradebook.wf(),
            names == text_views(ids@),
            gradebook@ == without_students(old(gradebook)@, names.take(i as int)),
            deleted == old(gradebook)@.students.len() - gradebook@.students.len(),
            deleted <= i,
        decreases ids.len() - i,
    {
        proof {
            assert(names.take(i + 1).drop_last() =~= names.take(i as int));
            assert(names.take(i + 1).last() == ids@[i as int]@);
        }
        match gradebook.delete_student(ids[i].as_str()) {
            Some(_) => {
                deleted += 1;
            },
            None => {},
        }
        i += 1;
    }
    proof {
        assert(names.take(ids.len() as int) =~= names);
    }
    deleted
}

/// The absences of the first `n` rows of the ledger that fall on `day`, in
/// ledger order.
pub open spec fn absences_on_day(
    g: GradebookView,
    vocabulary: VocabularyView,
    day: Date,
    n: nat,
) -> Seq<AbsenceLineView>
    decreases n,
{
    if n == 0 {
        Seq::empty()
    } else {
        let before = absences_on_day(g, vocabulary, day, (n - 1) as nat);
        let row = g.rows[n - 1];
        if row.is_absent && row_date(g, row) == day {
            before.push(absence_line_of(g, vocabulary, n - 1))
        } else {
            before
        }
    }
}

/// The views of a run of absences, in order.
pub open spec fn absence_views(lines: Seq<AbsenceLine>) -> Seq<AbsenceLineView> {
    Seq::new(lines.len(), |i: int| lines[i]@)
}

/// Lists who was absent from the sessions held on `day`.
pub fn absences_on(gradebook: &Gradebook, day: &Date, vocabulary: &Vocabulary) -> (r: Vec<
    AbsenceLine,
>)
    requires
        gradebook.wf(),
    ensures
        absence_views(r@) == absences_on_day(
            gradebook@,
            vocabulary@,
            *day,
            gradebook@.rows.len(),
        ),
{
    let rows = gradebook.ledger().rows();
    let registry = gradebook.registry();
    let mut out: Vec<AbsenceLine> = Vec::new();
    let mut i: usize = 0;
    assert(absence_views(out@) =~= Seq::<AbsenceLineView>::empty());
    proof {
        reveal_strlit("");
        assert(""@ =~= Seq::<char>::empty());
    }
    while i < rows.len()
        invariant
            i <= rows.len(),
            gradebook.wf(),
            registry@ == gradebook@.sessions,
            registry.wf(),
            attendance_views(rows@) == gradebook@.rows,
            ""@ == Seq::<char>::empty(),
            absence_views(out@) == absences_on_day(gradebook@, vocabulary@, *day, i as nat),
        decreases rows.len() - i,
    {
        let row = &rows[i];
        assert(gradebook@.rows[i as int] == row@);
        if row.is_absent {
            let held = match registry.get(row.session) {
                Some(held) => held,
                None => unreached(),
            };
            if held.date == *day {
                let ghost prior = absence_views(out@);
                let line = AbsenceLine {
                    student: row.student.clone(),
                    status: vocabulary.status(true, row.is_excused, ""),
                    date: held.date,
                    kind: held.kind,
                    notes: row.notes.clone(),
                };
                out.push(line);
                assert(absence_views(out@) =~= prior.push(line@));
            }
        }
        i += 1;
    }
    out
}

/// One exam of a student, with what is known of the session.
#[derive(Debug)]
pub struct HistoryLine {
    pub date: Date,
    pub kind: ExamType,
    pub session_notes: String,
    pub is_absent: bool,
    pub is_excused: bool,
    pub score: u32,
    pub notes: String,
}

/// A line as plain values.
pub struct HistoryLineView {
    pub date: Date,
    pub kind: ExamType,
    pub session_notes: Seq<char>,
    pub is_absent: bool,
    pub is_excused: bool,
    pub score: int,
    pub notes: Seq<char>,
}

impl View for HistoryLine {
    type V = HistoryLineView;

    open spec fn view(&self) -> HistoryLineView {
        HistoryLineView {
            date: self.date,
            kind: self.kind,
            session_notes: self.session_notes@,
            is_absent: self.is_absent,
            is_excused: self.is_excused,
            score: self.score as int,
            notes: self.notes@,
        }
    }
}

/// The views of a run of lines, in order.
pub open spec fn history_line_views(lines: Seq<HistoryLine>) -> Seq<HistoryLineView> {
    Seq::new(lines.len(), |i: int| lines[i]@)
}

/// The line for row `i` of the ledger.
pub open spec fn history_line_of(g: GradebookView, i: int) -> HistoryLineView {
    let row = g.rows[i];
    let session = g.sessions[session_index(g.sessions, row.session)];
    HistoryLineView {
        date: session.date,
        kind: session.kind,
        session_notes: session.notes,
        is_absent: row.is_absent,
        is_excused: row.is_excused,
        score: row.score,
        notes: row.notes,
    }
}

/// The lines for the rows of `student` among the first `n` rows of the
/// ledger, in ledger order.
pub open spec fn history_lines(g: GradebookView, student: Seq<char>, n: nat) -> Seq<
    HistoryLineView,
>
    decreases n,
{
    if n == 0 {
        Seq::empty()
    } else {
        let before = history_lines(g, student, (n - 1) as nat);
        if g.rows[n - 1].student == student {
            before.push(history_line_of(g, n - 1))
        } else {
            before
        }
    }
}

/// Lists the exams of the student `id`, letter case aside.
pub fn student_history(gradebook: &Gradebook, id: &str) -> (r: Vec<HistoryLine>)
    requires
        gradebook.wf(),
    ensures
        history_line_views(r@) == history_lines(
            gradebook@,
            upper_of(id@),
            gradebook@.rows.len(),
        ),
{
    let key = to_upper(id);
    let rows = gradebook.ledger().rows();
    let registry = gradebook.registry();
    let mut out: Vec<HistoryLine> = Vec::new();
    let mut i: usize = 0;
    assert(history_line_views(out@) =~= Seq::<HistoryLineView>::empty());
    while i < rows.len()
        invariant
            i <= rows.len(),
            gradebook.wf(),
            registry@ == gradebook@.sessions,
            registry.wf(),
            key@ == upper_of(id@),
            attendance_views(rows@) == gradebook@.rows,
            history_line_views(out@) == history_lines(gradebook@, key@, i as nat),
        decreases rows.len() - i,
    {
        let row = &rows[i];
        assert(gradebook@.rows[i as int] == row@);
        if row.student == key {
            let held = match registry.get(row.session) {
                Some(held) => held,
                None => unreached(),
            };
            let ghost prior = history_line_views(out@);
            let line = HistoryLine {
                date: held.date,
                kind: held.kind,
                session_notes: held.notes.clone(),
                is_absent: row.is_absent,
                is_excused: row.is_excused,
                score: row.score,
                notes: row.notes.clone(),
            };
            out.push(line);
            assert(history_line_views(out@) =~= prior.push(line@));
        }
        i += 1;
    }
    out
}

/// Why a student was not deleted.
#[derive(Clone, Copy, Debug, PartialEq, Eq, Structural)]
pub enum RemoveError {
    /// The identifier holds nothing but white space.
    EmptyId,
    /// No student has this identifier.
    UnknownStudent,
}

/// The identifier that a caller means: what they wrote without the white
/// space around it, in upper case.
pub open spec fn meant_id(id: Seq<char>) -> Seq<char> {
    upper_of(trim_of(id))
}

/// What comes of deleting the student that `id` means.
pub open spec fn student_removal(g: GradebookView, id: Seq<char>) -> Result<
    GradebookView,
    RemoveError,
> {
    if trim_of(id).len() == 0 {
        Err(RemoveError::EmptyId)
    } else if !has_student(g.students, meant_id(id)) {
        Err(RemoveError::UnknownStudent)
    } else {
        Ok(without_student(g, meant_id(id)))
    }
}

/// Deletes the student that `id` means, as a caller wrote it, together
/// with their rows. Gives the number of rows removed. When no student is
/// deleted, nothing changes.
pub fn remove_student(gradebook: &mut Gradebook, id: &str) -> (r: Result<usize, RemoveError>)
    requires
        old(gradebook).wf(),
    ensures
        final(gradebook).wf(),
        match r {
            Ok(removed) => {
                &&& student_removal(old(gradebook)@, id@) == Ok::<GradebookView, RemoveError>(
                    final(gradebook)@,
                )
                &&& removed == old(gradebook)@.rows.len() - final(gradebook)@.rows.len()
            },
            Err(e) => {
                &&& student_removal(old(gradebook)@, id@) == Err::<GradebookView, RemoveError>(e)
                &&& final(gradebook)@ == old(gradebook)@
            },
        },
{
    let inner = trimmed(id);
    if inner.unicode_len() == 0 {
        return Err(RemoveError::EmptyId);
    }
    match gradebook.delete_student(inner) {
        Some(removed) => Ok(removed),
        None => Err(RemoveError::UnknownStudent),
    }
}

/// The views of a run of students with scores, in order.
pub open spec fn score_views(entries: Seq<(String, i32)>) -> Seq<(Seq<char>, int)> {
    Seq::new(entries.len(), |i: int| (entries[i].0@, entries[i].1 as int))
}

/// The gradebook after the first `n` of the listed rows of `session` were
/// removed, one after the other: each is the row of the student named,
/// provided it carries exactly the score given with the name.
pub open spec fn without_scores(
    g: GradebookView,
    session: int,
    entries: Seq<(Seq<char>, int)>,
    n: nat,
) -> GradebookView
    decreases n,
{
    if n == 0 {
        g
    } else {
        removal_of(
            without_scores(g, session, entries, (n - 1) as nat),
            session,
            entries[n - 1].0,
            entries[n - 1].1,
        )
    }
}

/// Removes the listed rows of `session`, each provided it carries exactly
/// the score listed with the student, and derives the standing of each
/// student who lost a row anew. An entry that fits no row, and an entry
/// with a score below zero, is passed over. Gives the number of rows
/// removed.
pub fn remove_scores(gradebook: &mut Gradebook, session: SessionKey, entries: &Vec<(String, i32)>) -> (removed:
    usize)
    requires
        old(gradebook).wf(),
    ensures
        final(gradebook).wf(),
        final(gradebook)@ == without_scores(
            old(gradebook)@,
            session as int,
            score_views(entries@),
            entries@.len(),
        ),
        removed == old(gradebook)@.rows.len() - final(gradebook)@.rows.len(),
{
    let ghost views = score_views(entries@);
    let mut removed: usize = 0;
    let mut i: usize = 0;
    while i < entries.len()
        invariant
            i <= entries.len(),
            gradebook.wf(),
            views == score_views(entries@),
            gradebook@ == without_scores(old(gradebook)@, session as int, views, i as nat),
            removed == old(gradebook)@.rows.len() - gradebook@.rows.len(),
            removed <= i,
        decreases entries.len() - i,
    {
        assert(views[i as int] == (entries@[i as int].0@, entries@[i as int].1 as int));
        let score = entries[i].1;
        if score >= 0 {
            if gradebook.remove_attendance(session, entries[i].0.as_str(), score as u32) {
                removed += 1;
            }
        } else {
            proof {
                let rows = gradebook@.rows;
                let name = entries@[i as int].0@;
                if has_row(rows, session as int, name) {
                    assert(row_consistent(rows[row_index(rows, session as int, name)]));
                }
            }
        }
        i += 1;
    }
    removed
}

} // verus!
