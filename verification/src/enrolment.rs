//! Taking students onto the roster from a sheet.
//!
//! The header of the sheet must carry the five titles in their order; each
//! row below it then gives identifier, name, enrolment status, attribute
//! and notes of one student. A sheet is taken whole or not at all.

use crate::gradebook::Gradebook;
use crate::records::{attribute_of, enrollment_of, EnrollmentStatus, StudentAttribute};
use crate::roster::{fresh_student, has_student, StudentView};
use crate::sheet::{grid_view, row_view, text_in, Cell, CellView};
use crate::text::{same_text, to_upper, upper_of};
use vstd::pervasive::unreached;
use vstd::prelude::*;

verus! {

/// The titles that the header of a student sheet must carry.
pub open spec fn student_titles() -> Seq<Seq<char>> {
    seq![
        "學號"@,
        "姓名"@,
        "註冊狀況(只能填在學、休學、退學)"@,
        "學生屬性(只能填本系、外系、外校)"@,
        "備註"@,
    ]
}

/// The texts of a row of cells; empty for a cell that holds no text.
pub open spec fn titles_of(header: Seq<CellView>) -> Seq<Seq<char>> {
    Seq::new(header.len(), |i: int| text_in(header[i]))
}

/// A student as a sheet describes them.
#[derive(Debug)]
pub struct NewStudent {
    pub id: String,
    pub name: String,
    pub enrollment: EnrollmentStatus,
    pub attribute: StudentAttribute,
    pub notes: String,
}

/// A described student as plain values.
pub struct NewStudentView {
    pub id: Seq<char>,
    pub name: Seq<char>,
    pub enrollment: EnrollmentStatus,
    pub attribute: StudentAttribute,
    pub notes: Seq<char>,
}

impl View for NewStudent {
    type V = NewStudentView;

    open spec fn view(&self) -> NewStudentView {
        NewStudentView {
            id: self.id@,
            name: self.name@,
            enrollment: self.enrollment,
            attribute: self.attribute,
            notes: self.notes@,
        }
    }
}

/// What is wrong with a row of a student sheet.
#[derive(Clone, Copy, Debug, PartialEq, Eq, Structural)]
pub enum StudentRowError {
    /// The row ends before this column.
    MissingCell { column: usize },
    /// The cell in this column holds no text.
    NotText { column: usize },
    /// The identifier is empty.
    EmptyId,
    /// The text names no enrolment status.
    UnknownStatus,
    /// The text names no attribute.
    UnknownAttribute,
    /// A student with this identifier is on the roster already, or is named
    /// by an earlier row of the sheet.
    Conflict,
}

/// Why a student sheet was turned away.
#[derive(Clone, Copy, Debug, PartialEq, Eq, Structural)]
pub enum ImportError {
    /// The sheet has no header row.
    EmptySheet,
    /// The header does not carry the five titles.
    HeaderMismatch,
    /// A row cannot be used.
    Row { row: usize, reason: StudentRowError },
}

/// The text in column `column` of a row, which must be there and be text.
pub open spec fn required_text(row: Seq<CellView>, column: int) -> Result<
    Seq<char>,
    StudentRowError,
> {
    if column >= row.len() {
        Err(StudentRowError::MissingCell { column: column as usize })
    } else {
        match row[column] {
            CellView::Text(text) => Ok(text),
            _ => Err(StudentRowError::NotText { column: column as usize }),
        }
    }
}

/// The student that a row describes.
pub open spec fn student_row_of(row: Seq<CellView>) -> Result<NewStudentView, StudentRowError> {
    match required_text(row, 0) {
        Err(e) => Err(e),
        Ok(id) => match required_text(row, 1) {
            Err(e) => Err(e),
            Ok(name) => match required_text(row, 2) {
                Err(e) => Err(e),
                Ok(status) => match enrollment_of(status) {
                    None => Err(StudentRowError::UnknownStatus),
                    Some(enrollment) => match required_text(row, 3) {
                        Err(e) => Err(e),
                        Ok(label) => match attribute_of(label) {
                            None => Err(StudentRowError::UnknownAttribute),
                            Some(attribute) => if row.len() <= 4 {
                                Err(StudentRowError::MissingCell { column: 4 })
                            } else if id.len() == 0 {
                                Err(StudentRowError::EmptyId)
                            } else {
                                Ok(
                                    NewStudentView {
                                        id,
                                        name,
                                        enrollment,
                                        attribute,
                                        notes: text_in(row[4]),
                                    },
                                )
                            },
                        },
                    },
                },
            },
        },
    }
}

/// The student as first enrolled.
pub open spec fn enrolled(student: NewStudentView) -> StudentView {
    fresh_student(student.id, student.name, student.enrollment, student.attribute, student.notes)
}

/// The roster after rows `1` to `n` of the sheet were taken, or the first
/// row among them that cannot be.
pub open spec fn import_plan(students: Seq<StudentView>, grid: Seq<Seq<CellView>>, n: nat) -> Result<
    Seq<StudentView>,
    ImportError,
>
    decreases n,
{
    if n == 0 {
        Ok(students)
    } else {
        match import_plan(students, grid, (n - 1) as nat) {
            Err(e) => Err(e),
            Ok(before) => match student_row_of(grid[n as int]) {
                Err(reason) => Err(ImportError::Row { row: n as usize, reason }),
                Ok(student) => if has_student(before, upper_of(student.id)) {
                    Err(ImportError::Row { row: n as usize, reason: StudentRowError::Conflict })
                } else {
                    Ok(before.push(enrolled(student)))
                },
            },
        }
    }
}

/// What a student sheet does to the roster.
pub open spec fn import_of(students: Seq<StudentView>, grid: Seq<Seq<CellView>>) -> Result<
    Seq<StudentView>,
    ImportError,
> {
    if grid.len() == 0 {
        Err(ImportError::EmptySheet)
    } else if titles_of(grid[0]) != student_titles() {
        Err(ImportError::HeaderMismatch)
    } else {
        import_plan(students, grid, (grid.len() - 1) as nat)
    }
}

/// Once a row cannot be taken, looking at further rows does not change
/// the error.
pub proof fn lemma_import_error_stays(
    students: Seq<StudentView>,
    grid: Seq<Seq<CellView>>,
    k: nat,
    n: nat,
)
    requires
        k <= n,
        import_plan(students, grid, k) is Err,
    ensures
        import_plan(students, grid, n) == import_plan(students, grid, k),
    decreases n,
{
    if k < n {
        lemma_import_error_stays(students, grid, k, (n - 1) as nat);
    }
}

fn title_is(cell: &Cell, title: &str) -> (r: bool)
    ensures
        r == (text_in(cell@) == title@),
{
    proof {
        reveal_strlit("");
        assert(""@ =~= Seq::<char>::empty());
    }
    match cell {
        Cell::Text(text) => same_text(text.as_str(), title),
        _ => same_text("", title),
    }
}

/// Whether a header carries the five titles, in their order and nothing
/// else.
pub fn check_student_header(header: &Vec<Cell>) -> (r: bool)
    ensures
        r == (titles_of(row_view(header@)) == student_titles()),
{
    let ghost titles = titles_of(row_view(header@));
    if header.len() != 5 {
        assert(titles.len() != student_titles().len());
        return false;
    }
    let ok = title_is(&header[0], "學號") && title_is(&header[1], "姓名") && title_is(
        &header[2],
        "註冊狀況(只能填在學、休學、退學)",
    ) && title_is(&header[3], "學生屬性(只能填本系、外系、外校)") && title_is(&header[4], "備註");
    proof {
        if ok {
            assert(titles =~= student_titles());
        } else {
            assert(titles[0] == text_in(header@[0]@));
            assert(titles[1] == text_in(header@[1]@));
            assert(titles[2] == text_in(header@[2]@));
            assert(titles[3] == text_in(header@[3]@));
            assert(titles[4] == text_in(header@[4]@));
        }
    }
    ok
}

fn text_at(row: &Vec<Cell>, column: usize) -> (r: Result<&String, StudentRowError>)
    ensures
        match r {
            Ok(text) => required_text(row_view(row@), column as int) == Ok::<
                Seq<char>,
                StudentRowError,
            >(text@),
            Err(e) => required_text(row_view(row@), column as int) == Err::<
                Seq<char>,
                StudentRowError,
            >(e),
        },
{
    if column >= row.len() {
        return Err(StudentRowError::MissingCell { column });
    }
    match &row[column] {
        Cell::Text(text) => Ok(text),
        _ => Err(StudentRowError::NotText { column }),
    }
}

/// Reads the student that a row describes.
pub fn read_student_row(row: &Vec<Cell>) -> (r: Result<NewStudent, StudentRowError>)
    ensures
        match r {
            Ok(student) => student_row_of(row_view(row@)) == Ok::<
                NewStudentView,
                StudentRowError,
            >(student@),
            Err(e) => student_row_of(row_view(row@)) == Err::<NewStudentView, StudentRowError>(e),
        },
{
    let id = match text_at(row, 0) {
        Ok(text) => text,
        Err(e) => {
            return Err(e);
        },
    };
    let name = match text_at(row, 1) {
        Ok(text) => text,
        Err(e) => {
            return Err(e);
        },
    };
    let status = match text_at(row, 2) {
        Ok(text) => text,
        Err(e) => {
            return Err(e);
        },
    };
    let enrollment = match EnrollmentStatus::from_label(status.as_str()) {
        Some(enrollment) => enrollment,
        None => {
            return Err(StudentRowError::UnknownStatus);
        },
    };
    let label = match text_at(row, 3) {
        Ok(text) => text,
        Err(e) => {
            return Err(e);
        },
    };
    let attribute = match StudentAttribute::from_label(label.as_str()) {
        Some(attribute) => attribute,
        None => {
            return Err(StudentRowError::UnknownAttribute);
        },
    };
    if row.len() <= 4 {
        return Err(StudentRowError::MissingCell { column: 4 });
    }
    if id.as_str().unicode_len() == 0 {
        return Err(StudentRowError::EmptyId);
    }
    let notes = match &row[4] {
        Cell::Text(text) => text.clone(),
        _ => String::new(),
    };
    Ok(NewStudent { id: id.clone(), name: name.clone(), enrollment, attribute, notes })
}

/// The students of a run of rows as first enrolled, in order.
pub open spec fn enrolled_all(students: Seq<NewStudent>) -> Seq<StudentView> {
    Seq::new(students.len(), |i: int| enrolled(students[i]@))
}

fn names_student(pending: &Vec<NewStudent>, id: &String) -> (r: bool)
    ensures
        r == has_student(enrolled_all(pending@), id@),
{
    let mut i: usize = 0;
    while i < pending.len()
        invariant
            i <= pending.len(),
            forall|j: int| 0 <= j < i ==> enrolled_all(pending@)[j].id != id@,
        decreases pending.len() - i,
    {
        let other = to_upper(pending[i].id.as_str());
        if other == *id {
            assert(enrolled_all(pending@)[i as int].id == id@);
            return true;
        }
        i += 1;
    }
    false
}

/// Takes the students of a sheet onto the roster. Gives their number. When
/// the sheet is turned away, nobody is enrolled.
pub fn import_students(gradebook: &mut Gradebook, grid: &Vec<Vec<Cell>>) -> (r: Result<
    usize,
    ImportError,
>)
    requires
        old(gradebook).wf(),
    ensures
        final(gradebook).wf(),
        final(gradebook)@.sessions == old(gradebook)@.sessions,
        final(gradebook)@.rows == old(gradebook)@.rows,
        match r {
            Ok(count) => {
                &&& import_of(old(gradebook)@.students, grid_view(grid@)) == Ok::<
                    Seq<StudentView>,
                    ImportError,
                >(final(gradebook)@.students)
                &&& count == final(gradebook)@.students.len() - old(gradebook)@.students.len()
            },
            Err(e) => {
                &&& import_of(old(gradebook)@.students, grid_view(grid@)) == Err::<
                    Seq<StudentView>,
                    ImportError,
                >(e)
                &&& final(gradebook)@ == old(gradebook)@
            },
        },
{
    if grid.len() == 0 {
        return Err(ImportError::EmptySheet);
    }
    let ghost cells = grid_view(grid@);
    let ghost start = gradebook@.students;
    assert(cells[0] == row_view(grid@[0]@));
    if !check_student_header(&grid[0]) {
        return Err(ImportError::HeaderMismatch);
    }
    let mut pending: Vec<NewStudent> = Vec::new();
    let mut n: usize = 0;
    assert(start + enrolled_all(pending@) =~= start);
    while n < grid.len() - 1
        invariant
            n <= grid.len() - 1,
            gradebook.wf(),
            gradebook@ == old(gradebook)@,
            start == gradebook@.students,
            cells == grid_view(grid@),
            import_of(start, cells) == import_plan(start, cells, (grid.len() - 1) as nat),
            import_plan(start, cells, n as nat) == Ok::<Seq<StudentView>, ImportError>(
                start + enrolled_all(pending@),
            ),
            pending@.len() == n,
            forall|i: int|
                0 <= i < pending@.len() ==> (#[trigger] pending@[i])@.id.len() > 0 && !has_student(
                    start + enrolled_all(pending@.take(i)),
                    upper_of(pending@[i]@.id),
                ),
        decreases grid.len() - 1 - n,
    {
        let number = n + 1;
        assert(cells[number as int] == row_view(grid@[number as int]@));
        let student = match read_student_row(&grid[number]) {
            Ok(student) => student,
            Err(reason) => {
                proof {
                    lemma_import_error_stays(
                        start,
                        cells,
                        number as nat,
                        (grid.len() - 1) as nat,
                    );
                }
                return Err(ImportError::Row { row: number, reason });
            },
        };
        let id = to_upper(student.id.as_str());
        let known = gradebook.roster().position_of(&id).is_some();
        let named = names_student(&pending, &id);
        proof {
            let planned = start + enrolled_all(pending@);
            if has_student(planned, id@) {
                let k = choose|k: int| 0 <= k < planned.len() && planned[k].id == id@;
                if k < start.len() {
                    assert(start[k].id == id@);
                } else {
                    assert(enrolled_all(pending@)[k - start.len()].id == id@);
                }
            }
            if known {
                let k = choose|k: int| 0 <= k < start.len() && start[k].id == id@;
                assert(planned[k].id == id@);
            }
            if named {
                let k = choose|k: int|
                    0 <= k < pending@.len() && enrolled_all(pending@)[k].id == id@;
                assert(planned[start.len() + k].id == id@);
            }
        }
        if known || named {
            proof {
                lemma_import_error_stays(start, cells, number as nat, (grid.len() - 1) as nat);
            }
            return Err(ImportError::Row { row: number, reason: StudentRowError::Conflict });
        }
        let ghost prior = pending@;
        pending.push(student);
        proof {
            assert(pending@.take(n as int) =~= prior);
            assert(start + enrolled_all(pending@) =~= (start + enrolled_all(prior)).push(
                enrolled(student@),
            ));
            assert forall|i: int| 0 <= i < pending@.len() implies (#[trigger] pending@[i])@.id.len()
                > 0 && !has_student(
                start + enrolled_all(pending@.take(i)),
                upper_of(pending@[i]@.id),
            ) by {
                if i < n {
                    assert(pending@[i] == prior[i]);
                    assert(pending@.take(i) =~= prior.take(i));
                }
            }
        }
        n += 1;
    }
    let mut i: usize = 0;
    assert(start + enrolled_all(pending@.take(0)) =~= start);
    while i < pending.len()
        invariant
            i <= pending.len(),
            gradebook.wf(),
            gradebook@.sessions == old(gradebook)@.sessions,
            gradebook@.rows == old(gradebook)@.rows,
            start == old(gradebook)@.students,
            gradebook@.students == start + enrolled_all(pending@.take(i as int)),
            forall|i: int|
                0 <= i < pending@.len() ==> (#[trigger] pending@[i])@.id.len() > 0 && !has_student(
                    start + enrolled_all(pending@.take(i)),
                    upper_of(pending@[i]@.id),
                ),
        decreases pending.len() - i,
    {
        let student = &pending[i];
        assert(pending@[i as int] == *student);
        let ghost before = gradebook@.students;
        match gradebook.enroll(
            student.id.as_str(),
            student.name.clone(),
            student.enrollment,
            student.attribute,
            student.notes.clone(),
        ) {
            Ok(()) => {},
            Err(_) => unreached(),
        }
        proof {
            assert(pending@.take(i + 1) =~= pending@.take(i as int).push(pending@[i as int]));
            assert(start + enrolled_all(pending@.take(i + 1)) =~= before.push(enrolled(student@)));
        }
        i += 1;
    }
    proof {
        assert(pending@.take(pending.len() as int) =~= pending@);
    }
    Ok(pending.len())
}

} // verus!
