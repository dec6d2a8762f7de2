use exam_ledger::enrolment::{
    check_student_header, import_students, read_student_row, ImportError, StudentRowError,
};
use exam_ledger::gradebook::Gradebook;
use exam_ledger::records::{EnrollmentStatus, StudentAttribute};
use exam_ledger::sheet::Cell;

fn c(s: &str) -> Cell {
    Cell::Text(s.to_string())
}

fn titles() -> Vec<Cell> {
    vec![
        c("學號"),
        c("姓名"),
        c("註冊狀況(只能填在學、休學、退學)"),
        c("學生屬性(只能填本系、外系、外校)"),
        c("備註"),
    ]
}

fn line(id: &str, name: &str, status: &str, attribute: &str, notes: &str) -> Vec<Cell> {
    vec![c(id), c(name), c(status), c(attribute), c(notes)]
}

#[test]
fn the_header_must_carry_the_five_titles() {
    assert!(check_student_header(&titles()));
    let mut short = titles();
    short.pop();
    assert!(!check_student_header(&short));
    let mut long = titles();
    long.push(Cell::Blank);
    assert!(!check_student_header(&long));
    let mut other = titles();
    other[1] = c("名字");
    assert!(!check_student_header(&other));
    let mut blank = titles();
    blank[4] = Cell::Blank;
    assert!(!check_student_header(&blank));
    assert!(!check_student_header(&Vec::new()));
}

#[test]
fn a_row_describes_one_student() {
    let student = read_student_row(&line("s1", "Lin", "休學", "外校", "transfer")).unwrap();
    assert_eq!(student.id, "s1");
    assert_eq!(student.name, "Lin");
    assert_eq!(student.enrollment, EnrollmentStatus::OnALeaveOfAbsence);
    assert_eq!(student.attribute, StudentAttribute::ExternalStudents);
    assert_eq!(student.notes, "transfer");
    let mut numeric_note = line("s1", "Lin", "在學", "本系", "");
    numeric_note[4] = Cell::Number { whole: 1, exact: true };
    assert_eq!(read_student_row(&numeric_note).unwrap().notes, "");
}

#[test]
fn each_fault_of_a_row_is_named() {
    let fault = |row: Vec<Cell>| read_student_row(&row).unwrap_err();
    assert_eq!(fault(Vec::new()), StudentRowError::MissingCell { column: 0 });
    assert_eq!(fault(vec![Cell::Blank]), StudentRowError::NotText { column: 0 });
    assert_eq!(fault(vec![c("S1")]), StudentRowError::MissingCell { column: 1 });
    assert_eq!(fault(vec![c("S1"), Cell::Other]), StudentRowError::NotText { column: 1 });
    assert_eq!(fault(vec![c("S1"), c("Lin"), Cell::Blank]), StudentRowError::NotText { column: 2 });
    assert_eq!(fault(vec![c("S1"), c("Lin"), c("畢業")]), StudentRowError::UnknownStatus);
    assert_eq!(fault(vec![c("S1"), c("Lin"), c("在學")]), StudentRowError::MissingCell { column: 3 });
    assert_eq!(
        fault(vec![c("S1"), c("Lin"), c("在學"), c("在學")]),
        StudentRowError::UnknownAttribute
    );
    assert_eq!(
        fault(vec![c("S1"), c("Lin"), c("在學"), c("本系")]),
        StudentRowError::MissingCell { column: 4 }
    );
    assert_eq!(fault(line("", "Lin", "在學", "本系", "")), StudentRowError::EmptyId);
}

#[test]
fn a_good_sheet_enrols_every_student_in_upper_case() {
    let mut book = Gradebook::new();
    let grid = vec![
        titles(),
        line("s1", "Lin", "在學", "本系", ""),
        line("S2", "Chen", "休學", "外系", "note"),
        line("s3", "Wang", "退學", "外校", ""),
    ];
    assert_eq!(import_students(&mut book, &grid), Ok(3));
    assert_eq!(book.roster().len(), 3);
    let first = book.roster().student(0).unwrap();
    assert_eq!((first.id.as_str(), first.name.as_str()), ("S1", "Lin"));
    let second = book.roster().get("s2").unwrap();
    assert_eq!(second.enrollment, EnrollmentStatus::OnALeaveOfAbsence);
    assert_eq!(second.attribute, StudentAttribute::Interdepartmental);
    assert_eq!(second.notes, "note");
    assert!(!second.is_passed);
    assert_eq!(import_students(&mut book, &vec![titles()]), Ok(0));
}

#[test]
fn a_sheet_with_a_fault_enrols_nobody() {
    let mut book = Gradebook::new();
    book.enroll(
        "S2",
        "Chen".to_string(),
        EnrollmentStatus::CurrentlyEnrolled,
        StudentAttribute::Departmental,
        String::new(),
    )
    .unwrap();
    assert_eq!(import_students(&mut book, &Vec::new()), Err(ImportError::EmptySheet));
    let mut bad_header = vec![titles(), line("S1", "Lin", "在學", "本系", "")];
    bad_header[0][0] = c("ID");
    assert_eq!(import_students(&mut book, &bad_header), Err(ImportError::HeaderMismatch));
    let known = vec![titles(), line("S1", "Lin", "在學", "本系", ""), line("s2", "Chen", "在學", "本系", "")];
    assert_eq!(
        import_students(&mut book, &known),
        Err(ImportError::Row { row: 2, reason: StudentRowError::Conflict })
    );
    let twice = vec![titles(), line("S1", "Lin", "在學", "本系", ""), line("s1", "Lin", "在學", "本系", "")];
    assert_eq!(
        import_students(&mut book, &twice),
        Err(ImportError::Row { row: 2, reason: StudentRowError::Conflict })
    );
    let faulty = vec![titles(), line("S1", "Lin", "在學", "本系", ""), line("S3", "Wang", "?", "本系", "")];
    assert_eq!(
        import_students(&mut book, &faulty),
        Err(ImportError::Row { row: 2, reason: StudentRowError::UnknownStatus })
    );
    assert_eq!(book.roster().len(), 1);
    assert!(!book.roster().contains("S1"));
}
