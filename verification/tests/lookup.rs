use exam_ledger::calendar::Date;
use exam_ledger::gradebook::Gradebook;
use exam_ledger::lookup::{
    absences_on, delete_students, find_id_column, latest_absence, pass_summary, read_listed,
    remove_scores, remove_student, student_history, ListError, RemoveError,
};
use exam_ledger::records::{Attendance, EnrollmentStatus, ExamType, StudentAttribute};
use exam_ledger::sheet::{Cell, Vocabulary};

fn t(s: &str) -> Cell {
    Cell::Text(s.to_string())
}

fn filled() -> Gradebook {
    let mut book = Gradebook::new();
    book.create_session(Date { year: 2025, month: 1, day: 6 }, ExamType::School, String::new())
        .unwrap();
    book.create_session(Date { year: 2025, month: 2, day: 6 }, ExamType::Official, String::new())
        .unwrap();
    book.create_session(Date { year: 2025, month: 2, day: 6 }, ExamType::School, String::new())
        .unwrap();
    for (id, name) in [("S1", "Lin"), ("S2", "Chen"), ("S3", "Wang")] {
        book.enroll(
            id,
            name.to_string(),
            EnrollmentStatus::CurrentlyEnrolled,
            StudentAttribute::Departmental,
            String::new(),
        )
        .unwrap();
    }
    let row = |session: i32, student: &str, absent: bool, excused: bool, score: u32, notes: &str| Attendance {
        session,
        student: student.to_string(),
        is_absent: absent,
        is_excused: excused,
        score,
        notes: notes.to_string(),
    };
    book.ingest(&vec![
        row(1, "S1", false, false, 1, ""),
        row(2, "S1", false, false, 2, ""),
        row(3, "S2", true, true, 0, "later, same day"),
        row(2, "S2", true, false, 0, "first of the day"),
        row(1, "S2", true, true, 0, "earlier"),
        row(1, "S3", false, false, 1, ""),
    ])
    .unwrap();
    book
}

#[test]
fn the_identifier_column_is_the_first_with_the_title() {
    assert_eq!(find_id_column(&vec![t("姓名"), t("學號"), t("學號")]), Some(1));
    assert_eq!(find_id_column(&vec![t("學號")]), Some(0));
    assert_eq!(find_id_column(&vec![t("姓名"), t(" 學號")]), None);
    assert_eq!(find_id_column(&vec![Cell::Blank, Cell::Other]), None);
    assert_eq!(find_id_column(&Vec::new()), None);
}

#[test]
fn listed_students_are_the_texts_of_the_identifier_column() {
    let grid = vec![
        vec![t("姓名"), t("學號")],
        vec![t("Lin"), t("s1")],
        vec![t("Chen")],
        vec![t("Wang"), Cell::Number { whole: 3, exact: true }],
        vec![t("Wu"), t("S4")],
    ];
    assert_eq!(read_listed(&grid, true), Ok(vec!["S1".to_string(), "S4".to_string()]));
    assert_eq!(read_listed(&grid, false), Ok(vec!["s1".to_string(), "S4".to_string()]));
}

#[test]
fn sheets_that_list_nobody_are_told_apart() {
    assert_eq!(read_listed(&Vec::new(), true), Err(ListError::EmptySheet));
    assert_eq!(read_listed(&vec![vec![t("姓名")]], true), Err(ListError::NoIdColumn));
    assert_eq!(read_listed(&vec![vec![t("學號")]], true), Err(ListError::NoIds));
    assert_eq!(
        read_listed(&vec![vec![t("學號")], vec![Cell::Blank], Vec::new()], true),
        Err(ListError::NoIds)
    );
}

#[test]
fn pass_summary_gives_totals_and_the_verdict() {
    let book = filled();
    let ids = vec!["s1".to_string(), "S9".to_string(), "S3".to_string(), "S2".to_string()];
    let lines: Vec<(String, String, u128, u32, bool)> = pass_summary(&book, &ids)
        .into_iter()
        .map(|l| (l.student, l.name, l.total, l.max, l.passed))
        .collect();
    assert_eq!(
        lines,
        vec![
            ("S1".to_string(), "Lin".to_string(), 3, 2, true),
            ("S3".to_string(), "Wang".to_string(), 1, 1, false),
            ("S2".to_string(), "Chen".to_string(), 0, 0, false),
        ]
    );
    assert!(pass_summary(&book, &Vec::new()).is_empty());
}

#[test]
fn latest_absence_is_the_one_with_the_latest_day() {
    let book = filled();
    let words = Vocabulary::standard();
    let line = latest_absence(&book, "S2", &words).unwrap();
    assert_eq!(line.student, "S2");
    assert_eq!(line.date, Date { year: 2025, month: 2, day: 6 });
    assert_eq!(line.kind, ExamType::School);
    assert_eq!(line.status, "請假");
    assert_eq!(line.notes, "later, same day");
    assert!(latest_absence(&book, "S1", &words).is_none());
    assert!(latest_absence(&book, "S9", &words).is_none());
}

#[test]
fn delete_students_removes_each_listed_student_with_their_rows() {
    let mut book = filled();
    let ids = vec!["S2".to_string(), "S9".to_string(), "s1".to_string(), "S2".to_string()];
    assert_eq!(delete_students(&mut book, &ids), 2);
    assert_eq!(book.roster().len(), 1);
    assert_eq!(book.roster().student(0).unwrap().id, "S3");
    assert_eq!(book.ledger().len(), 1);
    assert_eq!(book.ledger().row(0).unwrap().student, "S3");
    assert_eq!(delete_students(&mut book, &ids), 0);
}

#[test]
fn absences_on_a_day_are_listed_in_ledger_order() {
    let book = filled();
    let words = Vocabulary::standard();
    let lines = absences_on(&book, &Date { year: 2025, month: 2, day: 6 }, &words);
    let shown: Vec<(&str, &str, ExamType, &str)> = lines
        .iter()
        .map(|l| (l.student.as_str(), l.status.as_str(), l.kind, l.notes.as_str()))
        .collect();
    assert_eq!(
        shown,
        vec![
            ("S2", "請假", ExamType::School, "later, same day"),
            ("S2", "缺考", ExamType::Official, "first of the day"),
        ]
    );
    assert!(absences_on(&book, &Date { year: 2025, month: 3, day: 6 }, &words).is_empty());
}

#[test]
fn a_students_history_lists_their_exams() {
    let book = filled();
    let lines = student_history(&book, "s1");
    let shown: Vec<(Date, ExamType, bool, u32)> =
        lines.iter().map(|l| (l.date, l.kind, l.is_absent, l.score)).collect();
    assert_eq!(
        shown,
        vec![
            (Date { year: 2025, month: 1, day: 6 }, ExamType::School, false, 1),
            (Date { year: 2025, month: 2, day: 6 }, ExamType::Official, false, 2),
        ]
    );
    assert!(student_history(&book, "S9").is_empty());
}

#[test]
fn remove_student_takes_the_identifier_as_it_was_written() {
    let mut book = filled();
    assert_eq!(remove_student(&mut book, "   "), Err(RemoveError::EmptyId));
    assert_eq!(remove_student(&mut book, ""), Err(RemoveError::EmptyId));
    assert_eq!(remove_student(&mut book, " s9 "), Err(RemoveError::UnknownStudent));
    assert_eq!(book.roster().len(), 3);
    assert_eq!(book.ledger().len(), 6);
    assert_eq!(remove_student(&mut book, "  s2\t"), Ok(3));
    assert!(!book.roster().contains("S2"));
    assert_eq!(book.ledger().len(), 3);
    assert_eq!(remove_student(&mut book, "S2"), Err(RemoveError::UnknownStudent));
}

#[test]
fn remove_scores_takes_the_rows_whose_score_fits() {
    let mut book = filled();
    assert!(book.roster().get("S1").unwrap().is_passed);
    let listed = vec![
        ("S3".to_string(), 2),
        ("S1".to_string(), 1),
        ("S2".to_string(), -1),
        ("S9".to_string(), 0),
        ("S1".to_string(), 1),
        ("S2".to_string(), 0),
    ];
    assert_eq!(remove_scores(&mut book, 1, &listed), 2);
    assert!(!book.ledger().contains(1, "S1"));
    assert!(!book.ledger().contains(1, "S2"));
    assert!(book.ledger().contains(1, "S3"));
    assert_eq!(book.ledger().len(), 4);
    assert!(book.roster().get("S1").unwrap().is_passed);
    assert_eq!(remove_scores(&mut book, 2, &vec![("S1".to_string(), 2)]), 1);
    assert!(!book.roster().get("S1").unwrap().is_passed);
    assert_eq!(remove_scores(&mut book, 2, &Vec::new()), 0);
}
