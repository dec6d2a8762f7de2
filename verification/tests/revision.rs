use exam_ledger::calendar::Date;
use exam_ledger::gradebook::Gradebook;
use exam_ledger::records::{Attendance, EnrollmentStatus, ExamType, StudentAttribute};
use exam_ledger::revision::{
    check_claim, check_day_claim, correct, correct_all, correct_from_sheet, correct_session,
    list_session, read_correction, read_corrections, read_sheet_date, verify_claim, ClaimError,
    ScoreChange,
};
use exam_ledger::sheet::{Cell, Vocabulary};

fn txt(s: &str) -> Cell {
    Cell::Text(s.to_string())
}

fn num(value: f64) -> Cell {
    Cell::Number { whole: value.trunc() as i64, exact: value.fract() == 0.0 }
}

fn change(student: &str, status: &str, score: u32, notes: &str) -> ScoreChange {
    ScoreChange {
        student: student.to_string(),
        status: status.to_string(),
        score,
        notes: notes.to_string(),
    }
}

fn class() -> Gradebook {
    let mut book = Gradebook::new();
    book.create_session(Date { year: 2025, month: 1, day: 6 }, ExamType::School, String::new())
        .unwrap();
    book.create_session(Date { year: 2025, month: 2, day: 6 }, ExamType::Official, String::new())
        .unwrap();
    for id in ["S1", "S2", "S3"] {
        book.enroll(
            id,
            String::new(),
            EnrollmentStatus::CurrentlyEnrolled,
            StudentAttribute::Departmental,
            String::new(),
        )
        .unwrap();
    }
    let row = |session: i32, student: &str, absent: bool, excused: bool, score: u32| Attendance {
        session,
        student: student.to_string(),
        is_absent: absent,
        is_excused: excused,
        score,
        notes: String::new(),
    };
    book.ingest(&vec![
        row(1, "S1", false, false, 1),
        row(1, "S2", true, false, 0),
        row(2, "S1", false, false, 1),
        row(1, "S3", true, true, 0),
    ])
    .unwrap();
    book
}

#[test]
fn a_correction_replaces_the_outcome_and_the_standing() {
    let mut book = class();
    let words = Vocabulary::standard();
    assert!(correct(&mut book, 1, &words, &change("S1", "", 2, "  recount ")));
    let row = book.ledger().get(1, "S1").unwrap();
    assert_eq!((row.score, row.notes.as_str()), (2, "recount"));
    assert!(book.roster().get("S1").unwrap().is_passed);
    assert!(!correct(&mut book, 1, &words, &change("S1", "", 2, "recount")));
}

#[test]
fn an_absence_word_forces_the_score_to_zero() {
    let mut book = class();
    let words = Vocabulary::standard();
    assert!(correct(&mut book, 1, &words, &change("S1", "請假", 5, "")));
    let row = book.ledger().get(1, "S1").unwrap();
    assert!(row.is_absent && row.is_excused);
    assert_eq!(row.score, 0);
    assert!(correct(&mut book, 1, &words, &change("S1", "缺考", 5, "")));
    let row = book.ledger().get(1, "S1").unwrap();
    assert!(row.is_absent && !row.is_excused);
    assert!(correct(&mut book, 1, &words, &change("S1", "出席", 3, "")));
    let row = book.ledger().get(1, "S1").unwrap();
    assert!(!row.is_absent && !row.is_excused);
    assert_eq!(row.score, 3);
}

#[test]
fn corrections_count_the_rows_they_change() {
    let mut book = class();
    let words = Vocabulary::standard();
    let changes = vec![
        change("S1", "", 1, ""),
        change("S2", "", 2, ""),
        change("S9", "", 2, ""),
        change("S3", "請假", 0, "note"),
        change("S2", "", 2, ""),
    ];
    assert_eq!(correct_all(&mut book, 1, &words, &changes), 2);
    assert!(book.roster().get("S2").unwrap().is_passed);
    assert_eq!(book.ledger().get(1, "S3").unwrap().notes, "note");
    assert_eq!(correct_all(&mut book, 1, &words, &changes), 0);
    assert_eq!(correct_all(&mut book, 1, &words, &Vec::new()), 0);
}

#[test]
fn a_claim_must_name_the_session_of_the_key() {
    let book = class();
    let words = Vocabulary::standard();
    assert_eq!(verify_claim(&book, "2025-01-06,自辦", &words, 1), Ok(()));
    assert_eq!(verify_claim(&book, " 2025-01-06 , 自辦 ", &words, 1), Ok(()));
    assert_eq!(verify_claim(&book, "2025-01-06", &words, 1), Err(ClaimError::Format));
    assert_eq!(verify_claim(&book, "2025-01-06,自辦,", &words, 1), Err(ClaimError::Format));
    assert_eq!(verify_claim(&book, "06.01.2025,自辦", &words, 1), Err(ClaimError::BadDate));
    assert_eq!(verify_claim(&book, "2025-01-06,自辦", &words, 7), Err(ClaimError::UnknownSession));
    assert_eq!(verify_claim(&book, "2025-01-07,自辦", &words, 1), Err(ClaimError::DateMismatch));
    assert_eq!(verify_claim(&book, "2025-01-06,官辦", &words, 1), Err(ClaimError::TypeMismatch));
    assert_eq!(verify_claim(&book, "2025-01-06,週考", &words, 1), Err(ClaimError::TypeMismatch));
    assert_eq!(check_claim(None, None, None), Err(ClaimError::BadDate));
    let day = Date { year: 2025, month: 1, day: 6 };
    assert_eq!(check_claim(Some(day), None, None), Err(ClaimError::UnknownSession));
    assert_eq!(check_claim(Some(day), None, book.registry().get(1)), Err(ClaimError::TypeMismatch));
    assert_eq!(check_claim(Some(day), Some(ExamType::School), book.registry().get(1)), Ok(()));
}

#[test]
fn a_failed_claim_changes_nothing() {
    let mut book = class();
    let words = Vocabulary::standard();
    let changes = vec![change("S1", "", 2, "")];
    assert_eq!(
        correct_session(&mut book, "2025-01-06,官辦", 1, &words, &changes),
        Err(ClaimError::TypeMismatch)
    );
    assert_eq!(book.ledger().get(1, "S1").unwrap().score, 1);
    assert_eq!(correct_session(&mut book, "2025-01-06,自辦", 1, &words, &changes), Ok(1));
    assert_eq!(book.ledger().get(1, "S1").unwrap().score, 2);
}

#[test]
fn list_session_puts_outcomes_into_words() {
    let book = class();
    let lines = list_session(book.ledger(), 1, &Vocabulary::standard(), "出席");
    let shown: Vec<(&str, &str, u32)> =
        lines.iter().map(|l| (l.student.as_str(), l.status.as_str(), l.score)).collect();
    assert_eq!(shown, vec![("S1", "出席", 1), ("S2", "缺考", 0), ("S3", "請假", 0)]);
    assert!(list_session(book.ledger(), 9, &Vocabulary::standard(), "出席").is_empty());
}

#[test]
fn a_sheet_of_corrections_is_read_from_its_third_row() {
    let grid = vec![
        vec![txt("考試日期: 2025-01-06"), txt("考試類別: 自辦")],
        vec![txt("學號"), txt("請假/缺考"), txt("答對題數"), txt("備註")],
        vec![txt(" S1 "), txt("無"), num(2.0), txt(" recount ")],
        vec![txt("S2"), txt(" 請假 "), num(3.7), Cell::Blank],
        vec![txt("S3"), Cell::Blank, txt("many"), txt("x")],
        vec![txt("short"), txt("無"), num(1.0)],
        vec![num(1.0), txt("無"), num(1.0), txt("")],
        vec![txt("S4"), txt("無"), num(-1.0), txt("")],
    ];
    assert_eq!(read_sheet_date(&grid), Some(Date { year: 2025, month: 1, day: 6 }));
    let read: Vec<(String, String, u32, String)> = read_corrections(&grid)
        .into_iter()
        .map(|c| (c.student, c.status, c.score, c.notes))
        .collect();
    assert_eq!(
        read,
        vec![
            ("S1".to_string(), "無".to_string(), 2, " recount ".to_string()),
            ("S2".to_string(), "請假".to_string(), 3, String::new()),
            ("S3".to_string(), String::new(), 0, "x".to_string()),
        ]
    );
    assert!(read_correction(&grid[5]).is_none());
    assert!(read_correction(&grid[2]).is_some());
    assert!(read_corrections(&vec![vec![txt("考試日期: 2025-01-06")], vec![txt("學號")]]).is_empty());
}

#[test]
fn the_date_of_a_sheet_stands_after_its_caption() {
    let sheet = |first: Cell| vec![vec![first]];
    assert_eq!(
        read_sheet_date(&sheet(txt("考試日期: 考試日期:  2025-01-06 "))),
        Some(Date { year: 2025, month: 1, day: 6 })
    );
    assert_eq!(read_sheet_date(&sheet(txt("2025-01-06"))), None);
    assert_eq!(read_sheet_date(&sheet(txt("考試日期: soon"))), None);
    assert_eq!(read_sheet_date(&sheet(num(1.0))), None);
    assert_eq!(read_sheet_date(&vec![Vec::new()]), None);
    assert_eq!(read_sheet_date(&Vec::new()), None);
}

#[test]
fn a_sheet_corrects_the_session_of_its_day_only() {
    let mut book = class();
    let words = Vocabulary::standard();
    let grid = vec![
        vec![txt("考試日期: 2025-01-06")],
        vec![txt("學號")],
        vec![txt("S1"), txt("無"), num(2.0), txt("")],
        vec![txt("S2"), txt("請假"), num(0.0), txt("")],
    ];
    assert_eq!(correct_from_sheet(&mut book, &grid, 2, &words), Err(ClaimError::DateMismatch));
    assert_eq!(correct_from_sheet(&mut book, &grid, 5, &words), Err(ClaimError::UnknownSession));
    assert_eq!(correct_from_sheet(&mut book, &grid[1..].to_vec(), 1, &words), Err(ClaimError::BadDate));
    assert_eq!(book.ledger().get(1, "S1").unwrap().score, 1);
    assert_eq!(correct_from_sheet(&mut book, &grid, 1, &words), Ok(2));
    assert_eq!(book.ledger().get(1, "S1").unwrap().score, 2);
    assert!(book.ledger().get(1, "S2").unwrap().is_excused);
    assert!(book.roster().get("S1").unwrap().is_passed);
}

#[test]
fn a_sheet_must_be_about_the_day_of_the_session() {
    let book = class();
    let day = Date { year: 2025, month: 1, day: 6 };
    let other = Date { year: 2025, month: 1, day: 7 };
    assert_eq!(check_day_claim(Some(day), book.registry().get(1)), Ok(()));
    assert_eq!(check_day_claim(Some(other), book.registry().get(1)), Err(ClaimError::DateMismatch));
    assert_eq!(check_day_claim(Some(day), None), Err(ClaimError::UnknownSession));
    assert_eq!(check_day_claim(None, book.registry().get(1)), Err(ClaimError::BadDate));
    assert_eq!(check_day_claim(None, None), Err(ClaimError::BadDate));
}
