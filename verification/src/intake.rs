//! Reading a score sheet into rows to be written.
//!
//! The first row of the sheet is its header. Column 0 holds the student
//! identifiers. From column 1 on, columns come in pairs: an odd column holds
//! the scores of one session, named in the header as `date,type`, and the
//! column after it holds free-text notes to those scores. Rows and columns
//! are counted from zero, in errors too.

use crate::calendar::{iso_date_of, Date};
use crate::gradebook::{
    record_outcome, recomputed, rejection_of, Gradebook, GradebookView, RecordError,
};
use crate::records::{
    attendance_views, row_consistent, Attendance, AttendanceView, ExamSessionView, ExamType,
    SessionKey,
};
use crate::registry::{has_session_key, resolve_of, Registry};
use crate::roster::{has_student, Roster, StudentView};
use crate::sheet::{
    cell_at, exam_type_of, grid_view, mark_of, row_view, text_in, Cell, CellView, Mark,
    Vocabulary, VocabularyView,
};
use crate::text::{
    comma_pair_of, count_of, holds_text, parse_count, split_comma_pair, text_views, to_upper,
    trim_of, trimmed, upper_of,
};
use vstd::prelude::*;

verus! {

/// What is wrong with the header of a session column.
#[derive(Clone, Copy, Debug, PartialEq, Eq, Structural)]
pub enum HeaderError {
    /// The cell holds no text.
    NotText,
    /// The text is not of the form `date,type`.
    Format,
    /// The part before the comma is no date.
    BadDate,
    /// The part after the comma names no exam type.
    UnknownType,
    /// No session is registered for this date and type.
    UnknownSession,
}

/// What is wrong with a score cell.
#[derive(Clone, Copy, Debug, PartialEq, Eq, Structural)]
pub enum CellError {
    /// The cell holds a text that marks no absence, a number that is no
    /// score, or something that is neither text nor number.
    Malformed,
    /// The cell holds a number with a fractional part.
    Fractional,
}

/// Why a sheet was turned away. Any of these turns the whole sheet away.
#[derive(Debug)]
#[allow(inconsistent_fields)]
pub enum BatchError {
    /// The sheet has no header row.
    EmptySheet,
    /// The header of a session column cannot be used.
    Header { column: usize, reason: HeaderError },
    /// The sheet names students that are not on the roster: all of them,
    /// each once, in the order in which the sheet first names them.
    UnknownStudents(Vec<String>),
    /// A row has no student identifier.
    MissingStudentId { row: usize },
    /// A score cell cannot be used.
    Cell { row: usize, column: usize, reason: CellError },
}

/// The reason as plain values.
#[allow(inconsistent_fields)]
pub enum BatchErrorView {
    EmptySheet,
    Header { column: int, reason: HeaderError },
    UnknownStudents(Seq<Seq<char>>),
    MissingStudentId { row: int },
    Cell { row: int, column: int, reason: CellError },
}

impl View for BatchError {
    type V = BatchErrorView;

    open spec fn view(&self) -> BatchErrorView {
        match self {
            BatchError::EmptySheet => BatchErrorView::EmptySheet,
            BatchError::Header { column, reason } => BatchErrorView::Header {
                column: *column as int,
                reason: *reason,
            },
            BatchError::UnknownStudents(ids) => BatchErrorView::UnknownStudents(text_views(ids@)),
            BatchError::MissingStudentId { row } => BatchErrorView::MissingStudentId {
                row: *row as int,
            },
            BatchError::Cell { row, column, reason } => BatchErrorView::Cell {
                row: *row as int,
                column: *column as int,
                reason: *reason,
            },
        }
    }
}

/// The column that holds the scores of the session with ordinal `k`.
pub open spec fn score_column(k: int) -> int {
    2 * k + 1
}

/// The number of session columns in a header of the given width.
pub open spec fn session_count(width: int) -> int {
    width / 2
}

/// The session that a header names, given the date and the exam type read
/// from it.
pub open spec fn header_resolution(
    date: Option<Date>,
    kind: Option<ExamType>,
    sessions: Seq<ExamSessionView>,
) -> Result<int, HeaderError> {
    match date {
        None => Err(HeaderError::BadDate),
        Some(date) => match kind {
            None => Err(HeaderError::UnknownType),
            Some(kind) => match resolve_of(sessions, date, kind) {
                None => Err(HeaderError::UnknownSession),
                Some(key) => Ok(key),
            },
        },
    }
}

/// The session that a header cell names.
pub open spec fn header_cell_of(
    cell: CellView,
    vocabulary: VocabularyView,
    sessions: Seq<ExamSessionView>,
) -> Result<int, HeaderError> {
    match cell {
        CellView::Text(text) => match comma_pair_of(text) {
            None => Err(HeaderError::Format),
            Some((date, label)) => header_resolution(
                iso_date_of(date),
                exam_type_of(vocabulary, label),
                sessions,
            ),
        },
        _ => Err(HeaderError::NotText),
    }
}

/// The sessions named by the first `n` session columns of a header, or the
/// first of them that cannot be used.
pub open spec fn header_keys(
    header: Seq<CellView>,
    vocabulary: VocabularyView,
    sessions: Seq<ExamSessionView>,
    n: nat,
) -> Result<Seq<int>, BatchErrorView>
    decreases n,
{
    if n == 0 {
        Ok(Seq::empty())
    } else {
        match header_keys(header, vocabulary, sessions, (n - 1) as nat) {
            Err(e) => Err(e),
            Ok(keys) => match header_cell_of(
                cell_at(header, score_column(n - 1)),
                vocabulary,
                sessions,
            ) {
                Ok(key) => Ok(keys.push(key)),
                Err(reason) => Err(
                    BatchErrorView::Header { column: score_column(n - 1), reason },
                ),
            },
        }
    }
}

/// The student a row is about: the upper-case form of the text in its first
/// cell. `None` when that cell is missing, holds no text, or holds an empty
/// one.
pub open spec fn student_of(row: Seq<CellView>) -> Option<Seq<char>> {
    match cell_at(row, 0) {
        CellView::Text(text) => if text.len() > 0 {
            Some(upper_of(text))
        } else {
            None
        },
        _ => None,
    }
}

/// The students named in rows `1` to `n` of the grid who are not on the
/// roster, each once, in the order in which the grid first names them.
pub open spec fn unknown_students(
    grid: Seq<Seq<CellView>>,
    students: Seq<StudentView>,
    n: nat,
) -> Seq<Seq<char>>
    decreases n,
{
    if n == 0 {
        Seq::empty()
    } else {
        let before = unknown_students(grid, students, (n - 1) as nat);
        match student_of(grid[n as int]) {
            Some(id) => if !has_student(students, id) && !before.contains(id) {
                before.push(id)
            } else {
                before
            },
            None => before,
        }
    }
}

/// The row a student gets for sitting a session with `score`.
pub open spec fn present_row(session: int, student: Seq<char>, score: int, notes: Seq<char>) -> AttendanceView {
    AttendanceView { session, student, is_absent: false, is_excused: false, score, notes }
}

/// The row a student gets for missing a session.
pub open spec fn absent_row(session: int, student: Seq<char>, mark: Mark, notes: Seq<char>) -> AttendanceView {
    AttendanceView {
        session,
        student,
        is_absent: true,
        is_excused: mark == Mark::Excused,
        score: 0,
        notes,
    }
}

/// What a score cell asks for: no row for a blank cell, an absence for a
/// text that marks one once the white space around it is removed, a score
/// for a number without fractional part from zero to `u32::MAX`, and an
/// error for anything else.
pub open spec fn reading_of(
    cell: CellView,
    notes: Seq<char>,
    vocabulary: VocabularyView,
    session: int,
    student: Seq<char>,
) -> Result<Option<AttendanceView>, CellError> {
    match cell {
        CellView::Blank => Ok(None),
        CellView::Text(text) => match mark_of(vocabulary, trim_of(text)) {
            Some(mark) => Ok(Some(absent_row(session, student, mark, notes))),
            None => Err(CellError::Malformed),
        },
        CellView::Number { whole, exact } => if !exact {
            Err(CellError::Fractional)
        } else if 0 <= whole <= u32::MAX {
            Ok(Some(present_row(session, student, whole, notes)))
        } else {
            Err(CellError::Malformed)
        },
        _ => Err(CellError::Malformed),
    }
}

/// The rows asked for by the first `n` session columns of the sheet row
/// `number`, from left to right, or the first cell among them that cannot be
/// used.
pub open spec fn row_commands(
    row: Seq<CellView>,
    number: int,
    keys: Seq<int>,
    vocabulary: VocabularyView,
    student: Seq<char>,
    n: nat,
) -> Result<Seq<AttendanceView>, BatchErrorView>
    decreases n,
{
    if n == 0 {
        Ok(Seq::empty())
    } else {
        match row_commands(row, number, keys, vocabulary, student, (n - 1) as nat) {
            Err(e) => Err(e),
            Ok(commands) => {
                let column = score_column(n - 1);
                match reading_of(
                    cell_at(row, column),
                    text_in(cell_at(row, column + 1)),
                    vocabulary,
                    keys[n - 1],
                    student,
                ) {
                    Ok(Some(command)) => Ok(commands.push(command)),
                    Ok(None) => Ok(commands),
                    Err(reason) => Err(BatchErrorView::Cell { row: number, column, reason }),
                }
            },
        }
    }
}

/// The rows asked for by rows `1` to `n` of the grid, from top to bottom,
/// or the first thing among them that cannot be used.
pub open spec fn body_commands(
    grid: Seq<Seq<CellView>>,
    keys: Seq<int>,
    vocabulary: VocabularyView,
    n: nat,
) -> Result<Seq<AttendanceView>, BatchErrorView>
    decreases n,
{
    if n == 0 {
        Ok(Seq::empty())
    } else {
        match body_commands(grid, keys, vocabulary, (n - 1) as nat) {
            Err(e) => Err(e),
            Ok(commands) => match student_of(grid[n as int]) {
                None => Err(BatchErrorView::MissingStudentId { row: n as int }),
                Some(student) => match row_commands(
                    grid[n as int],
                    n as int,
                    keys,
                    vocabulary,
                    student,
                    keys.len(),
                ) {
                    Err(e) => Err(e),
                    Ok(more) => Ok(commands + more),
                },
            },
        }
    }
}

/// What a sheet asks for. The header is read first; then every student the
/// sheet names must be on the roster; then the rows are read from top to
/// bottom. A row without a student identifier turns the sheet away like any
/// other fault. The first thing that fails decides the error, and then no
/// row at all is asked for.
pub open spec fn parse_of(
    grid: Seq<Seq<CellView>>,
    vocabulary: VocabularyView,
    sessions: Seq<ExamSessionView>,
    students: Seq<StudentView>,
) -> Result<Seq<AttendanceView>, BatchErrorView> {
    if grid.len() == 0 {
        Err(BatchErrorView::EmptySheet)
    } else {
        match header_keys(
            grid[0],
            vocabulary,
            sessions,
            session_count(grid[0].len() as int) as nat,
        ) {
            Err(e) => Err(e),
            Ok(keys) => {
                let unknown = unknown_students(grid, students, (grid.len() - 1) as nat);
                if unknown.len() > 0 {
                    Err(BatchErrorView::UnknownStudents(unknown))
                } else {
                    body_commands(grid, keys, vocabulary, (grid.len() - 1) as nat)
                }
            },
        }
    }
}

/// The keys as plain numbers.
pub open spec fn key_views(keys: Seq<SessionKey>) -> Seq<int> {
    Seq::new(keys.len(), |i: int| keys[i] as int)
}

/// Looks up the session that a header names, given what was read from it.
pub fn resolve_header(date: Option<Date>, kind: Option<ExamType>, registry: &Registry) -> (r:
    Result<SessionKey, HeaderError>)
    requires
        registry.wf(),
    ensures
        match r {
            Ok(key) => header_resolution(date, kind, registry@) == Ok::<int, HeaderError>(
                key as int,
            ),
            Err(e) => header_resolution(date, kind, registry@) == Err::<int, HeaderError>(e),
        },
{
    match date {
        None => Err(HeaderError::BadDate),
        Some(date) => match kind {
            None => Err(HeaderError::UnknownType),
            Some(kind) => match registry.resolve(&date, kind) {
                None => Err(HeaderError::UnknownSession),
                Some(key) => Ok(key),
            },
        },
    }
}

/// Reads the header of one session column.
pub fn read_header_cell(cell: &Cell, vocabulary: &Vocabulary, registry: &Registry) -> (r: Result<
    SessionKey,
    HeaderError,
>)
    requires
        registry.wf(),
    ensures
        match r {
            Ok(key) => header_cell_of(cell@, vocabulary@, registry@) == Ok::<int, HeaderError>(
                key as int,
            ),
            Err(e) => header_cell_of(cell@, vocabulary@, registry@) == Err::<int, HeaderError>(e),
        },
{
    match cell {
        Cell::Text(text) => match split_comma_pair(text.as_str()) {
            None => Err(HeaderError::Format),
            Some((date, label)) => resolve_header(
                Date::parse(date),
                vocabulary.exam_type(label),
                registry,
            ),
        },
        _ => Err(HeaderError::NotText),
    }
}

/// Reads the header row: the key of each session column, from left to
/// right.
pub fn read_header(header: &Vec<Cell>, vocabulary: &Vocabulary, registry: &Registry) -> (r:
    Result<Vec<SessionKey>, BatchError>)
    requires
        registry.wf(),
    ensures
        r is Ok ==> r->Ok_0@.len() == session_count(header@.len() as int),
        match r {
            Ok(keys) => header_keys(
                row_view(header@),
                vocabulary@,
                registry@,
                session_count(header@.len() as int) as nat,
            ) == Ok::<Seq<int>, BatchErrorView>(key_views(keys@)),
            Err(e) => header_keys(
                row_view(header@),
                vocabulary@,
                registry@,
                session_count(header@.len() as int) as nat,
            ) == Err::<Seq<int>, BatchErrorView>(e@),
        },
{
    let n = header.len() / 2;
    let mut keys: Vec<SessionKey> = Vec::new();
    let mut k: usize = 0;
    assert(key_views(keys@) =~= Seq::<int>::empty());
    while k < n
        invariant
            k <= n,
            n == session_count(header@.len() as int),
            header@.len() <= usize::MAX,
            keys@.len() == k,
            registry.wf(),
            header_keys(row_view(header@), vocabulary@, registry@, k as nat) == Ok::<
                Seq<int>,
                BatchErrorView,
            >(key_views(keys@)),
        decreases n - k,
    {
        let column = 2 * k + 1;
        let ghost prior = key_views(keys@);
        match read_header_cell(&header[column], vocabulary, registry) {
            Ok(key) => {
                keys.push(key);
                assert(key_views(keys@) =~= prior.push(key as int));
            },
            Err(reason) => {
                proof {
                    lemma_header_error_stays(
                        row_view(header@),
                        vocabulary@,
                        registry@,
                        (k + 1) as nat,
                        n as nat,
                    );
                }
                return Err(BatchError::Header { column, reason });
            },
        }
        k += 1;
    }
    Ok(keys)
}

/// Once a session column cannot be used, reading further columns does not
/// change the error.
pub proof fn lemma_header_error_stays(
    header: Seq<CellView>,
    vocabulary: VocabularyView,
    sessions: Seq<ExamSessionView>,
    k: nat,
    n: nat,
)
    requires
        k <= n,
        header_keys(header, vocabulary, sessions, k) is Err,
    ensures
        header_keys(header, vocabulary, sessions, n) == header_keys(header, vocabulary, sessions, k),
    decreases n,
{
    if k < n {
        lemma_header_error_stays(header, vocabulary, sessions, k, (n - 1) as nat);
    }
}

/// The cell at `column`, or `None` when the row ends before it.
fn cell_in(row: &Vec<Cell>, column: usize) -> (r: Option<&Cell>)
    ensures
        match r {
            Some(cell) => cell@ == cell_at(row_view(row@), column as int),
            None => cell_at(row_view(row@), column as int) == CellView::Blank,
        },
{
    if column < row.len() {
        Some(&row[column])
    } else {
        None
    }
}

/// The student a row is about.
pub fn student_in(row: &Vec<Cell>) -> (r: Option<String>)
    ensures
        match r {
            Some(id) => student_of(row_view(row@)) == Some(id@),
            None => student_of(row_view(row@)) is None,
        },
{
    match cell_in(row, 0) {
        Some(Cell::Text(text)) => {
            if text.as_str().unicode_len() > 0 {
                Some(to_upper(text.as_str()))
            } else {
                None
            }
        },
        _ => None,
    }
}

/// The students a sheet names who are not on the roster.
pub fn unknown_students_in(grid: &Vec<Vec<Cell>>, roster: &Roster) -> (r: Vec<String>)
    ensures
        text_views(r@) == unknown_students(
            grid_view(grid@),
            roster@,
            if grid@.len() == 0 {
                0
            } else {
                (grid@.len() - 1) as nat
            },
        ),
{
    let mut unknown: Vec<String> = Vec::new();
    assert(text_views(unknown@) =~= Seq::<Seq<char>>::empty());
    if grid.len() == 0 {
        return unknown;
    }
    let mut n: usize = 0;
    while n < grid.len() - 1
        invariant
            n <= grid.len() - 1,
            text_views(unknown@) == unknown_students(grid_view(grid@), roster@, n as nat),
        decreases grid.len() - 1 - n,
    {
        let ghost prior = text_views(unknown@);
        match student_in(&grid[n + 1]) {
            Some(id) => {
                if roster.position_of(&id).is_none() && !holds_text(&unknown, &id) {
                    unknown.push(id);
                    assert(text_views(unknown@) =~= prior.push(id@));
                }
            },
            None => {},
        }
        n += 1;
    }
    unknown
}

/// Reads one score cell, together with the note cell beside it, for the
/// given session and student.
pub fn read_cell(
    cell: Option<&Cell>,
    note: Option<&Cell>,
    vocabulary: &Vocabulary,
    session: SessionKey,
    student: &String,
) -> (r: Result<Option<Attendance>, CellError>)
    ensures
        match r {
            Ok(Some(row)) => reading_of(
                blank_or(cell),
                text_in(blank_or(note)),
                vocabulary@,
                session as int,
                student@,
            ) == Ok::<Option<AttendanceView>, CellError>(Some(row@)),
            Ok(None) => reading_of(
                blank_or(cell),
                text_in(blank_or(note)),
                vocabulary@,
                session as int,
                student@,
            ) == Ok::<Option<AttendanceView>, CellError>(None),
            Err(e) => reading_of(
                blank_or(cell),
                text_in(blank_or(note)),
                vocabulary@,
                session as int,
                student@,
            ) == Err::<Option<AttendanceView>, CellError>(e),
        },
{
    let notes = match note {
        Some(Cell::Text(text)) => text.clone(),
        _ => String::new(),
    };
    match cell {
        None => Ok(None),
        Some(Cell::Blank) => Ok(None),
        Some(Cell::Text(text)) => match vocabulary.mark(trimmed(text.as_str())) {
            Some(mark) => Ok(
                Some(
                    Attendance {
                        session,
                        student: student.clone(),
                        is_absent: true,
                        is_excused: mark == Mark::Excused,
                        score: 0,
                        notes,
                    },
                ),
            ),
            None => Err(CellError::Malformed),
        },
        Some(Cell::Number { whole, exact }) => {
            if !*exact {
                Err(CellError::Fractional)
            } else if 0 <= *whole && *whole <= u32::MAX as i64 {
                Ok(
                    Some(
                        Attendance {
                            session,
                            student: student.clone(),
                            is_absent: false,
                            is_excused: false,
                            score: *whole as u32,
                            notes,
                        },
                    ),
                )
            } else {
                Err(CellError::Malformed)
            }
        },
        Some(_) => Err(CellError::Malformed),
    }
}

/// The view of a cell that may be missing; a missing cell counts as blank.
pub open spec fn blank_or(cell: Option<&Cell>) -> CellView {
    match cell {
        Some(cell) => cell@,
        None => CellView::Blank,
    }
}

/// Once a cell of a row cannot be used, reading further cells of the row
/// does not change the error.
pub proof fn lemma_row_error_stays(
    row: Seq<CellView>,
    number: int,
    keys: Seq<int>,
    vocabulary: VocabularyView,
    student: Seq<char>,
    k: nat,
    n: nat,
)
    requires
        k <= n,
        row_commands(row, number, keys, vocabulary, student, k) is Err,
    ensures
        row_commands(row, number, keys, vocabulary, student, n) == row_commands(
            row,
            number,
            keys,
            vocabulary,
            student,
            k,
        ),
    decreases n,
{
    if k < n {
        lemma_row_error_stays(row, number, keys, vocabulary, student, k, (n - 1) as nat);
    }
}

/// Once a row cannot be used, reading further rows does not change the
/// error.
pub proof fn lemma_body_error_stays(
    grid: Seq<Seq<CellView>>,
    keys: Seq<int>,
    vocabulary: VocabularyView,
    k: nat,
    n: nat,
)
    requires
        k <= n,
        body_commands(grid, keys, vocabulary, k) is Err,
    ensures
        body_commands(grid, keys, vocabulary, n) == body_commands(grid, keys, vocabulary, k),
    decreases n,
{
    if k < n {
        lemma_body_error_stays(grid, keys, vocabulary, k, (n - 1) as nat);
    }
}

/// Reads the score cells of one row of the sheet and adds what they ask for
/// to `commands`.
fn read_row(
    row: &Vec<Cell>,
    number: usize,
    keys: &Vec<SessionKey>,
    vocabulary: &Vocabulary,
    student: &String,
    commands: &mut Vec<Attendance>,
) -> (r: Result<(), BatchError>)
    requires
        2 * keys@.len() <= usize::MAX,
    ensures
        match r {
            Ok(()) => exists|more: Seq<AttendanceView>|
                {
                    &&& row_commands(
                        row_view(row@),
                        number as int,
                        key_views(keys@),
                        vocabulary@,
                        student@,
                        keys@.len(),
                    ) == Ok::<Seq<AttendanceView>, BatchErrorView>(more)
                    &&& attendance_views(final(commands)@) == attendance_views(old(commands)@)
                        + more
                },
            Err(e) => row_commands(
                row_view(row@),
                number as int,
                key_views(keys@),
                vocabulary@,
                student@,
                keys@.len(),
            ) == Err::<Seq<AttendanceView>, BatchErrorView>(e@),
        },
{
    let ghost cells = row_view(row@);
    let ghost ks = key_views(keys@);
    let ghost start = attendance_views(commands@);
    let ghost mut more: Seq<AttendanceView> = Seq::empty();
    let mut k: usize = 0;
    assert(start + more =~= start);
    while k < keys.len()
        invariant
            k <= keys.len(),
            2 * keys@.len() <= usize::MAX,
            cells == row_view(row@),
            ks == key_views(keys@),
            row_commands(cells, number as int, ks, vocabulary@, student@, k as nat) == Ok::<
                Seq<AttendanceView>,
                BatchErrorView,
            >(more),
            attendance_views(commands@) == start + more,
        decreases keys.len() - k,
    {
        let column = 2 * k + 1;
        let cell = cell_in(row, column);
        let note = cell_in(row, column + 1);
        let ghost prior = attendance_views(commands@);
        match read_cell(cell, note, vocabulary, keys[k], student) {
            Ok(Some(command)) => {
                proof {
                    more = more.push(command@);
                }
                commands.push(command);
                assert(attendance_views(commands@) =~= prior.push(command@));
                assert(prior.push(command@) =~= start + more);
            },
            Ok(None) => {},
            Err(reason) => {
                proof {
                    lemma_row_error_stays(
                        cells,
                        number as int,
                        ks,
                        vocabulary@,
                        student@,
                        (k + 1) as nat,
                        keys@.len(),
                    );
                }
                return Err(BatchError::Cell { row: number, column, reason });
            },
        }
        k += 1;
    }
    Ok(())
}

/// Reads a score sheet. Gives the rows to be written, in sheet order, or
/// the reason why the sheet as a whole is turned away.
pub fn parse_batch(
    grid: &Vec<Vec<Cell>>,
    vocabulary: &Vocabulary,
    registry: &Registry,
    roster: &Roster,
) -> (r: Result<Vec<Attendance>, BatchError>)
    requires
        registry.wf(),
    ensures
        match r {
            Ok(commands) => parse_of(grid_view(grid@), vocabulary@, registry@, roster@) == Ok::<
                Seq<AttendanceView>,
                BatchErrorView,
            >(attendance_views(commands@)),
            Err(e) => parse_of(grid_view(grid@), vocabulary@, registry@, roster@) == Err::<
                Seq<AttendanceView>,
                BatchErrorView,
            >(e@),
        },
{
    if grid.len() == 0 {
        return Err(BatchError::EmptySheet);
    }
    let ghost cells = grid_view(grid@);
    let keys = match read_header(&grid[0], vocabulary, registry) {
        Ok(keys) => keys,
        Err(e) => {
            return Err(e);
        },
    };
    let unknown = unknown_students_in(grid, roster);
    proof {
        assert(cells[0] == row_view(grid@[0]@));
        assert(cells[0].len() == grid@[0]@.len());
    }
    if unknown.len() > 0 {
        assert(BatchError::UnknownStudents(unknown)@ == BatchErrorView::UnknownStudents(
            text_views(unknown@),
        ));
        return Err(BatchError::UnknownStudents(unknown));
    }
    let mut commands: Vec<Attendance> = Vec::new();
    let mut n: usize = 0;
    let width = grid[0].len();
    assert(2 * keys@.len() <= width);
    assert(attendance_views(commands@) =~= Seq::<AttendanceView>::empty());
    assert(parse_of(cells, vocabulary@, registry@, roster@) == body_commands(
        cells,
        key_views(keys@),
        vocabulary@,
        (grid.len() - 1) as nat,
    ));
    while n < grid.len() - 1
        invariant
            n <= grid.len() - 1,
            cells == grid_view(grid@),
            2 * keys@.len() <= usize::MAX,
            parse_of(cells, vocabulary@, registry@, roster@) == body_commands(
                cells,
                key_views(keys@),
                vocabulary@,
                (grid.len() - 1) as nat,
            ),
            body_commands(cells, key_views(keys@), vocabulary@, n as nat) == Ok::<
                Seq<AttendanceView>,
                BatchErrorView,
            >(attendance_views(commands@)),
        decreases grid.len() - 1 - n,
    {
        let number = n + 1;
        let row = &grid[number];
        assert(cells[number as int] == row_view(row@));
        let student = match student_in(row) {
            Some(student) => student,
            None => {
                proof {
                    lemma_body_error_stays(
                        cells,
                        key_views(keys@),
                        vocabulary@,
                        (n + 1) as nat,
                        (grid.len() - 1) as nat,
                    );
                }
                return Err(BatchError::MissingStudentId { row: number });
            },
        };
        match read_row(row, number, &keys, vocabulary, &student, &mut commands) {
            Ok(()) => {},
            Err(e) => {
                proof {
                    lemma_body_error_stays(
                        cells,
                        key_views(keys@),
                        vocabulary@,
                        (n + 1) as nat,
                        (grid.len() - 1) as nat,
                    );
                }
                return Err(e);
            },
        }
        n += 1;
    }
    Ok(commands)
}

/// Every session that a header names is registered.
pub proof fn lemma_header_keys_registered(
    header: Seq<CellView>,
    vocabulary: VocabularyView,
    sessions: Seq<ExamSessionView>,
    n: nat,
)
    ensures
        match header_keys(header, vocabulary, sessions, n) {
            Ok(keys) => keys.len() == n && forall|k: int|
                0 <= k < n ==> has_session_key(sessions, #[trigger] keys[k]),
            Err(_) => true,
        },
    decreases n,
{
    if n > 0 {
        lemma_header_keys_registered(header, vocabulary, sessions, (n - 1) as nat);
        match header_keys(header, vocabulary, sessions, (n - 1) as nat) {
            Ok(before) => {
                match header_cell_of(cell_at(header, score_column(n - 1)), vocabulary, sessions) {
                    Ok(key) => {
                        let keys = before.push(key);
                        assert forall|k: int| 0 <= k < n implies has_session_key(
                            sessions,
                            #[trigger] keys[k],
                        ) by {
                            if k < n - 1 {
                                assert(keys[k] == before[k]);
                            } else {
                                let i = choose|i: int|
                                    0 <= i < sessions.len() && sessions[i].key == key;
                                assert(sessions[i].key == keys[k]);
                            }
                        }
                    },
                    Err(_) => {},
                }
            },
            Err(_) => {},
        }
    }
}

/// When a sheet names no unknown student, every student it names is on the
/// roster.
pub proof fn lemma_named_students_known(
    grid: Seq<Seq<CellView>>,
    students: Seq<StudentView>,
    n: nat,
)
    requires
        unknown_students(grid, students, n).len() == 0,
    ensures
        forall|i: int|
            1 <= i <= n && student_of(#[trigger] grid[i]) is Some ==> has_student(
                students,
                student_of(grid[i])->0,
            ),
    decreases n,
{
    if n > 0 {
        lemma_named_students_known(grid, students, (n - 1) as nat);
    }
}

/// What a row of the sheet asks for is consistent, is about the row's
/// student, and belongs to a session of the header.
pub proof fn lemma_row_commands_shape(
    row: Seq<CellView>,
    number: int,
    keys: Seq<int>,
    vocabulary: VocabularyView,
    student: Seq<char>,
    n: nat,
)
    requires
        n <= keys.len(),
    ensures
        match row_commands(row, number, keys, vocabulary, student, n) {
            Ok(commands) => forall|j: int|
                0 <= j < commands.len() ==> {
                    &&& (#[trigger] commands[j]).student == student
                    &&& row_consistent(commands[j])
                    &&& exists|k: int| 0 <= k < keys.len() && commands[j].session == keys[k]
                },
            Err(_) => true,
        },
    decreases n,
{
    if n > 0 {
        lemma_row_commands_shape(row, number, keys, vocabulary, student, (n - 1) as nat);
        match row_commands(row, number, keys, vocabulary, student, (n - 1) as nat) {
            Ok(before) => {
                let column = score_column(n - 1);
                match reading_of(
                    cell_at(row, column),
                    text_in(cell_at(row, column + 1)),
                    vocabulary,
                    keys[n - 1],
                    student,
                ) {
                    Ok(Some(command)) => {
                        let commands = before.push(command);
                        assert forall|j: int| 0 <= j < commands.len() implies {
                            &&& (#[trigger] commands[j]).student == student
                            &&& row_consistent(commands[j])
                            &&& exists|k: int|
                                0 <= k < keys.len() && commands[j].session == keys[k]
                        } by {
                            if j < before.len() {
                                assert(commands[j] == before[j]);
                            } else {
                                assert(commands[j].session == keys[n - 1]);
                            }
                        }
                    },
                    _ => {},
                }
            },
            Err(_) => {},
        }
    }
}

/// What the rows of a sheet ask for is consistent, is about students the
/// sheet names, and belongs to sessions of the header.
pub proof fn lemma_body_commands_shape(
    grid: Seq<Seq<CellView>>,
    keys: Seq<int>,
    vocabulary: VocabularyView,
    n: nat,
)
    ensures
        match body_commands(grid, keys, vocabulary, n) {
            Ok(commands) => forall|j: int|
                0 <= j < commands.len() ==> {
                    &&& row_consistent(#[trigger] commands[j])
                    &&& exists|k: int| 0 <= k < keys.len() && commands[j].session == keys[k]
                    &&& exists|i: int|
                        1 <= i <= n && student_of(grid[i]) == Some(commands[j].student)
                },
            Err(_) => true,
        },
    decreases n,
{
    if n > 0 {
        lemma_body_commands_shape(grid, keys, vocabulary, (n - 1) as nat);
        match body_commands(grid, keys, vocabulary, (n - 1) as nat) {
            Ok(before) => {
                match student_of(grid[n as int]) {
                    Some(student) => {
                        lemma_row_commands_shape(
                            grid[n as int],
                            n as int,
                            keys,
                            vocabulary,
                            student,
                            keys.len(),
                        );
                        match row_commands(
                            grid[n as int],
                            n as int,
                            keys,
                            vocabulary,
                            student,
                            keys.len(),
                        ) {
                            Ok(more) => {
                                let commands = before + more;
                                assert forall|j: int| 0 <= j < commands.len() implies {
                                    &&& row_consistent(#[trigger] commands[j])
                                    &&& exists|k: int|
                                        0 <= k < keys.len() && commands[j].session == keys[k]
                                    &&& exists|i: int|
                                        1 <= i <= n && student_of(grid[i]) == Some(
                                            commands[j].student,
                                        )
                                } by {
                                    if j < before.len() {
                                        assert(commands[j] == before[j]);
                                        let i = choose|i: int|
                                            1 <= i <= n - 1 && student_of(grid[i]) == Some(
                                                before[j].student,
                                            );
                                        assert(1 <= i <= n && student_of(grid[i]) == Some(
                                            commands[j].student,
                                        ));
                                    } else {
                                        assert(commands[j] == more[j - before.len()]);
                                        assert(student_of(grid[n as int]) == Some(
                                            commands[j].student,
                                        ));
                                    }
                                }
                            },
                            Err(_) => {},
                        }
                    },
                    None => {},
                }
            },
            Err(_) => {},
        }
    }
}

/// A sheet that is read against the sessions and students of a gradebook
/// gives a batch that the gradebook does not turn away: every row of it
/// belongs to a registered session and an enrolled student and is
/// consistent. Such a batch is written whole, duplicates skipped.
pub proof fn lemma_parsed_batch_accepted(
    grid: Seq<Seq<CellView>>,
    vocabulary: VocabularyView,
    g: GradebookView,
    batch: Seq<AttendanceView>,
)
    requires
        parse_of(grid, vocabulary, g.sessions, g.students) == Ok::<
            Seq<AttendanceView>,
            BatchErrorView,
        >(batch),
    ensures
        forall|j: int| 0 <= j < batch.len() ==> rejection_of(g, #[trigger] batch[j]) is None,
{
    assert(grid.len() > 0);
    let n = (grid.len() - 1) as nat;
    let width = session_count(grid[0].len() as int) as nat;
    lemma_header_keys_registered(grid[0], vocabulary, g.sessions, width);
    assert(header_keys(grid[0], vocabulary, g.sessions, width) is Ok);
    let keys = header_keys(grid[0], vocabulary, g.sessions, width)->Ok_0;
    assert(unknown_students(grid, g.students, n).len() == 0);
    assert(body_commands(grid, keys, vocabulary, n) == Ok::<Seq<AttendanceView>, BatchErrorView>(
        batch,
    ));
    lemma_named_students_known(grid, g.students, n);
    lemma_body_commands_shape(grid, keys, vocabulary, n);
    assert forall|j: int| 0 <= j < batch.len() implies rejection_of(g, #[trigger] batch[j])
        is None by {
        let commands = body_commands(grid, keys, vocabulary, n)->Ok_0;
        assert(commands == batch);
        assert(row_consistent(commands[j]));
        assert(exists|k: int| 0 <= k < keys.len() && commands[j].session == keys[k]);
        assert(exists|i: int| 1 <= i <= n && student_of(grid[i]) == Some(commands[j].student));
        let k = choose|k: int| 0 <= k < keys.len() && batch[j].session == keys[k];
        assert(has_session_key(g.sessions, keys[k]));
        let i = choose|i: int| 1 <= i <= n && student_of(grid[i]) == Some(batch[j].student);
        assert(student_of(grid[i]) is Some);
    }
}

/// Why a single entry was not written.
#[derive(Clone, Copy, Debug, PartialEq, Eq, Structural)]
pub enum EntryError {
    /// The session is not named as a header names one.
    Session(HeaderError),
    /// The entry marks no absence and writes no count.
    NotACount,
    /// The gradebook did not take the row.
    Record(RecordError),
}

/// The row that a single entry asks for: an absence for an entry that
/// marks one, a score for an entry that writes a count.
pub open spec fn entry_row_of(
    session: int,
    student: Seq<char>,
    entry: Seq<char>,
    notes: Seq<char>,
    vocabulary: VocabularyView,
) -> Option<AttendanceView> {
    match mark_of(vocabulary, entry) {
        Some(mark) => Some(absent_row(session, upper_of(student), mark, notes)),
        None => match count_of(entry) {
            Some(score) => Some(present_row(session, upper_of(student), score, notes)),
            None => None,
        },
    }
}

/// Reads a single entry into the row it asks for.
pub fn read_entry(
    session: SessionKey,
    student: &str,
    entry: &str,
    notes: &str,
    vocabulary: &Vocabulary,
) -> (r: Option<Attendance>)
    ensures
        match r {
            Some(row) => entry_row_of(session as int, student@, entry@, notes@, vocabulary@)
                == Some(row@),
            None => entry_row_of(session as int, student@, entry@, notes@, vocabulary@) is None,
        },
{
    match vocabulary.mark(entry) {
        Some(mark) => Some(
            Attendance {
                session,
                student: to_upper(student),
                is_absent: true,
                is_excused: mark == Mark::Excused,
                score: 0,
                notes: notes.to_owned(),
            },
        ),
        None => match parse_count(entry) {
            Some(score) => Some(
                Attendance {
                    session,
                    student: to_upper(student),
                    is_absent: false,
                    is_excused: false,
                    score,
                    notes: notes.to_owned(),
                },
            ),
            None => None,
        },
    }
}

/// What writing a single entry comes to: the session is named as in a
/// header, the student by identifier, letter case aside, and the entry is
/// an absence mark or a count.
pub open spec fn entry_outcome(
    g: GradebookView,
    session: Seq<char>,
    student: Seq<char>,
    entry: Seq<char>,
    notes: Seq<char>,
    vocabulary: VocabularyView,
) -> Result<AttendanceView, EntryError> {
    match header_cell_of(CellView::Text(session), vocabulary, g.sessions) {
        Err(e) => Err(EntryError::Session(e)),
        Ok(key) => match entry_row_of(key, student, entry, notes, vocabulary) {
            None => Err(EntryError::NotACount),
            Some(row) => match record_outcome(g, row) {
                Err(e) => Err(EntryError::Record(e)),
                Ok(()) => Ok(row),
            },
        },
    }
}

/// Writes a single entry and derives the standing of the student anew.
pub fn add_entry(
    gradebook: &mut Gradebook,
    session: &str,
    student: &str,
    entry: &str,
    notes: &str,
    vocabulary: &Vocabulary,
) -> (r: Result<(), EntryError>)
    requires
        old(gradebook).wf(),
    ensures
        final(gradebook).wf(),
        match r {
            Ok(()) => {
                let row = entry_outcome(
                    old(gradebook)@,
                    session@,
                    student@,
                    entry@,
                    notes@,
                    vocabulary@,
                );
                &&& row is Ok
                &&& final(gradebook)@ == recomputed(
                    GradebookView {
                        rows: old(gradebook)@.rows.push(row->Ok_0),
                        ..old(gradebook)@
                    },
                    row->Ok_0.student,
                )
            },
            Err(e) => {
                &&& entry_outcome(old(gradebook)@, session@, student@, entry@, notes@, vocabulary@)
                    == Err::<AttendanceView, EntryError>(e)
                &&& final(gradebook)@ == old(gradebook)@
            },
        },
{
    let cell = Cell::Text(session.to_owned());
    let key = match read_header_cell(&cell, vocabulary, gradebook.registry()) {
        Ok(key) => key,
        Err(e) => {
            return Err(EntryError::Session(e));
        },
    };
    let row = match read_entry(key, student, entry, notes, vocabulary) {
        Some(row) => row,
        None => {
            return Err(EntryError::NotACount);
        },
    };
    match gradebook.record(row) {
        Ok(()) => Ok(()),
        Err(e) => Err(EntryError::Record(e)),
    }
}

} // verus!
