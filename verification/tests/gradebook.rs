use exam_ledger::calendar::Date;
use exam_ledger::eligibility::Criteria;
use exam_ledger::gradebook::{
    BatchRejected, Gradebook, Receipt, RecordError, Rejection, WriteOutcome,
};
use exam_ledger::text::holds_text;
use exam_ledger::roster::{AmendError, Amendment};
use exam_ledger::records::{Attendance, EnrollmentStatus, ExamSession, ExamType, StudentAttribute};
use exam_ledger::registry::RegistryError;
use exam_ledger::roster::RosterError;

fn at(year: i32, month: u32, day: u32) -> Date {
    Date { year, month, day }
}

fn scored(session: i32, student: &str, score: u32) -> Attendance {
    Attendance {
        session,
        student: student.to_string(),
        is_absent: false,
        is_excused: false,
        score,
        notes: String::new(),
    }
}

fn away(session: i32, student: &str, excused: bool) -> Attendance {
    Attendance {
        session,
        student: student.to_string(),
        is_absent: true,
        is_excused: excused,
        score: 0,
        notes: String::new(),
    }
}

fn book() -> Gradebook {
    let mut book = Gradebook::new();
    book.create_session(at(2024, 9, 10), ExamType::Official, String::new()).unwrap();
    book.create_session(at(2024, 12, 5), ExamType::School, String::new()).unwrap();
    book.create_session(at(2025, 3, 20), ExamType::Official, String::new()).unwrap();
    for (id, name) in [("S1", "Lin"), ("S2", "Chen"), ("S3", "Wang")] {
        book.enroll(
            id,
            name.to_string(),
            EnrollmentStatus::CurrentlyEnrolled,
            StudentAttribute::Departmental,
            String::new(),
        )
        .unwrap();
    }
    book
}

fn snapshot(book: &Gradebook) -> Vec<(i32, String, bool, bool, u32, String)> {
    book.ledger()
        .rows()
        .iter()
        .map(|r| (r.session, r.student.clone(), r.is_absent, r.is_excused, r.score, r.notes.clone()))
        .collect()
}

#[test]
fn apply_writes_every_row_of_a_good_batch() {
    let mut book = book();
    let batch = vec![scored(1, "S1", 2), away(1, "S2", true), scored(2, "S1", 1)];
    let receipt = book.apply(&batch).unwrap();
    assert_eq!(receipt.inserted, 3);
    assert_eq!(receipt.skipped, 0);
    assert_eq!(receipt.touched, vec!["S1".to_string(), "S2".to_string()]);
    assert_eq!(book.ledger().len(), 3);
    assert_eq!(book.ledger().get(1, "S2").unwrap().is_excused, true);
}

#[test]
fn apply_writes_nothing_when_one_row_cannot_be_written() {
    let mut book = book();
    book.apply(&vec![scored(1, "S1", 2)]).unwrap();
    let before = snapshot(&book);
    let unknown_session = vec![scored(2, "S1", 1), scored(9, "S2", 1), scored(3, "S3", 1)];
    assert_eq!(
        book.apply(&unknown_session).unwrap_err(),
        BatchRejected { index: 1, reason: Rejection::UnknownSession }
    );
    assert_eq!(snapshot(&book), before);
    let unknown_student = vec![scored(2, "S1", 1), scored(2, "S2", 1), scored(3, "S9", 1)];
    assert_eq!(
        book.apply(&unknown_student).unwrap_err(),
        BatchRejected { index: 2, reason: Rejection::UnknownStudent }
    );
    assert_eq!(snapshot(&book), before);
    let mut stray = away(2, "S1", false);
    stray.score = 4;
    assert_eq!(
        book.apply(&vec![stray]).unwrap_err(),
        BatchRejected { index: 0, reason: Rejection::Inconsistent }
    );
    assert_eq!(snapshot(&book), before);
    let lower_case = vec![scored(2, "s1", 1)];
    assert_eq!(
        book.apply(&lower_case).unwrap_err(),
        BatchRejected { index: 0, reason: Rejection::UnknownStudent }
    );
    assert_eq!(snapshot(&book), before);
}

#[test]
fn check_names_what_is_wrong_with_a_row() {
    let book = book();
    assert_eq!(book.check(&scored(1, "S1", 2)), None);
    assert_eq!(book.check(&scored(7, "S1", 2)), Some(Rejection::UnknownSession));
    assert_eq!(book.check(&scored(7, "S7", 2)), Some(Rejection::UnknownSession));
    assert_eq!(book.check(&scored(1, "S7", 2)), Some(Rejection::UnknownStudent));
    let mut excused_but_present = scored(1, "S1", 0);
    excused_but_present.is_excused = true;
    assert_eq!(book.check(&excused_but_present), Some(Rejection::Inconsistent));
}

#[test]
fn applying_the_same_batch_twice_changes_nothing_the_second_time() {
    let mut book = book();
    let batch = vec![scored(1, "S1", 2), scored(1, "S2", 0), scored(2, "S1", 1), away(3, "S3", false)];
    let first = book.apply(&batch).unwrap();
    assert_eq!((first.inserted, first.skipped), (4, 0));
    let after_first = snapshot(&book);
    let second = book.apply(&batch).unwrap();
    assert_eq!((second.inserted, second.skipped), (0, 4));
    assert!(second.touched.is_empty());
    assert_eq!(snapshot(&book), after_first);
}

#[test]
fn duplicates_inside_and_across_batches_are_skipped_and_counted() {
    let mut book = book();
    book.apply(&vec![scored(1, "S1", 2)]).unwrap();
    let batch = vec![scored(1, "S1", 5), scored(2, "S2", 1), scored(2, "S2", 3), scored(3, "S2", 1)];
    let receipt = book.apply(&batch).unwrap();
    assert_eq!(receipt.inserted, 2);
    assert_eq!(receipt.skipped, 2);
    assert_eq!(receipt.touched, vec!["S2".to_string()]);
    assert_eq!(book.ledger().get(1, "S1").unwrap().score, 2);
    assert_eq!(book.ledger().get(2, "S2").unwrap().score, 1);
}

#[test]
fn recompute_writes_the_standing_and_is_repeatable() {
    let mut book = book();
    book.apply(&vec![scored(1, "S1", 1), scored(2, "S1", 1), scored(3, "S1", 1), scored(1, "S2", 1)])
        .unwrap();
    assert!(!book.roster().get("S1").unwrap().is_passed);
    let expected = Criteria { single_session: false, cumulative: true };
    assert_eq!(book.recompute("s1"), Some(expected));
    let first = {
        let s = book.roster().get("S1").unwrap();
        (s.is_passed, s.passing_criteria.clone())
    };
    assert_eq!(first, (true, Some("累計3題".to_string())));
    assert_eq!(book.recompute("S1"), Some(expected));
    let second = {
        let s = book.roster().get("S1").unwrap();
        (s.is_passed, s.passing_criteria.clone())
    };
    assert_eq!(second, first);
    assert_eq!(book.recompute("S2"), Some(Criteria { single_session: false, cumulative: false }));
    assert_eq!(book.roster().get("S2").unwrap().passing_criteria, None);
    assert_eq!(book.recompute("S9"), None);
}

#[test]
fn recompute_overwrites_an_earlier_standing() {
    let mut book = book();
    book.apply(&vec![scored(1, "S1", 2)]).unwrap();
    book.recompute("S1");
    assert!(book.roster().get("S1").unwrap().is_passed);
    assert!(book.remove_attendance(1, "S1", 2));
    let student = book.roster().get("S1").unwrap();
    assert!(!student.is_passed);
    assert_eq!(student.passing_criteria, None);
}

#[test]
fn ingest_applies_and_recomputes_the_touched_students() {
    let mut book = book();
    let receipt = book
        .ingest(&vec![scored(1, "S1", 2), scored(1, "S2", 1), away(1, "S3", true), scored(2, "S1", 1)])
        .unwrap();
    assert_eq!(receipt.inserted, 4);
    assert_eq!(receipt.touched, vec!["S1".to_string(), "S2".to_string(), "S3".to_string()]);
    let s1 = book.roster().get("S1").unwrap();
    assert!(s1.is_passed);
    assert_eq!(s1.passing_criteria, Some("一次兩題且累計3題".to_string()));
    assert!(!book.roster().get("S2").unwrap().is_passed);
    assert!(!book.roster().get("S3").unwrap().is_passed);
    let rejected = book.ingest(&vec![scored(3, "S2", 2), scored(8, "S2", 2)]).unwrap_err();
    assert_eq!(rejected, BatchRejected { index: 1, reason: Rejection::UnknownSession });
    assert!(!book.roster().get("S2").unwrap().is_passed);
    assert_eq!(book.ledger().len(), 4);
}

#[test]
fn delete_session_removes_its_rows_first_and_recomputes() {
    let mut book = book();
    book.ingest(&vec![scored(1, "S1", 2), scored(2, "S1", 1), scored(1, "S2", 2), scored(3, "S3", 2)])
        .unwrap();
    assert!(book.roster().get("S1").unwrap().is_passed);
    assert!(book.roster().get("S2").unwrap().is_passed);
    assert_eq!(book.delete_session(1), Some(2));
    assert_eq!(book.registry().len(), 2);
    assert!(!book.registry().contains_key(1));
    assert_eq!(book.ledger().len(), 2);
    assert!(!book.ledger().contains(1, "S1"));
    assert!(book.ledger().contains(2, "S1"));
    assert!(!book.roster().get("S1").unwrap().is_passed);
    assert!(!book.roster().get("S2").unwrap().is_passed);
    assert!(book.roster().get("S3").unwrap().is_passed);
    assert_eq!(book.delete_session(1), None);
    assert_eq!(book.delete_session(2), Some(1));
    assert_eq!(book.ledger().len(), 1);
}

#[test]
fn delete_student_removes_their_rows_first() {
    let mut book = book();
    book.ingest(&vec![scored(1, "S1", 2), scored(2, "S1", 1), scored(1, "S2", 2)]).unwrap();
    assert_eq!(book.delete_student("s1"), Some(2));
    assert_eq!(book.roster().len(), 2);
    assert!(!book.roster().contains("S1"));
    assert_eq!(book.ledger().len(), 1);
    assert_eq!(book.delete_student("S1"), None);
    assert_eq!(book.delete_student("S3"), Some(0));
    assert_eq!(book.roster().len(), 1);
    assert_eq!(book.ledger().len(), 1);
}

#[test]
fn revise_changes_a_row_and_the_standing() {
    let mut book = book();
    book.ingest(&vec![scored(1, "S1", 1)]).unwrap();
    assert!(!book.roster().get("S1").unwrap().is_passed);
    assert!(book.revise(1, "S1", false, false, 2, "recount".to_string()));
    assert!(book.roster().get("S1").unwrap().is_passed);
    assert_eq!(book.ledger().get(1, "S1").unwrap().notes, "recount");
    assert!(!book.revise(1, "S1", false, false, 2, "recount".to_string()));
    assert!(!book.revise(2, "S1", false, false, 2, String::new()));
    assert!(!book.revise(1, "S1", true, false, 2, String::new()));
    assert!(book.revise(1, "S1", true, false, 0, String::new()));
    assert!(!book.roster().get("S1").unwrap().is_passed);
}

#[test]
fn sessions_and_students_are_guarded_as_in_their_own_books() {
    let mut book = book();
    assert_eq!(
        book.create_session(at(2024, 9, 10), ExamType::Official, String::new()),
        Err(RegistryError::Conflict)
    );
    assert_eq!(book.create_session(at(2024, 9, 10), ExamType::School, String::new()), Ok(4));
    let stored = ExamSession { key: 9, date: at(2025, 5, 5), kind: ExamType::School, notes: String::new() };
    assert_eq!(book.restore_session(stored), Ok(()));
    assert_eq!(book.registry().resolve(&at(2025, 5, 5), ExamType::School), Some(9));
    assert_eq!(
        book.enroll(
            "s1",
            "Again".to_string(),
            EnrollmentStatus::DroppedOut,
            StudentAttribute::ExternalStudents,
            String::new()
        ),
        Err(RosterError::Conflict)
    );
}

#[test]
fn score_records_join_present_rows_with_names_and_days() {
    let mut book = book();
    book.apply(&vec![scored(3, "S2", 4), away(1, "S1", true), scored(1, "S3", 0)]).unwrap();
    let records = book.score_records();
    assert_eq!(records.len(), 2);
    assert_eq!(records[0].student, "S2");
    assert_eq!(records[0].name, "Chen");
    assert_eq!(records[0].session, 3);
    assert_eq!(records[0].date, at(2025, 3, 20));
    assert_eq!(records[0].kind, ExamType::Official);
    assert_eq!(records[0].score, 4);
    assert_eq!(records[1].student, "S3");
    assert_eq!(records[1].name, "Wang");
    assert_eq!(records[1].date, at(2024, 9, 10));
    assert_eq!(records[1].score, 0);
}

#[test]
fn holds_text_looks_for_an_equal_text() {
    let texts = vec!["S1".to_string(), "S2".to_string()];
    assert!(holds_text(&texts, &"S2".to_string()));
    assert!(!holds_text(&texts, &"s2".to_string()));
    assert!(!holds_text(&Vec::new(), &"S2".to_string()));
}

#[test]
fn amend_session_keeps_the_rows() {
    let mut book = book();
    book.ingest(&vec![scored(1, "S1", 2)]).unwrap();
    assert_eq!(book.amend_session(1, Some(at(2024, 9, 11)), None, Some("moved".to_string())), Ok(true));
    assert_eq!(book.amend_session(1, Some(at(2024, 12, 5)), Some(ExamType::School), None), Err(RegistryError::Conflict));
    assert_eq!(book.amend_session(7, None, None, None), Err(RegistryError::UnknownKey));
    assert_eq!(book.registry().date_of(1), Some(at(2024, 9, 11)));
    assert_eq!(book.score_records()[0].date, at(2024, 9, 11));
    assert_eq!(book.ledger().len(), 1);
}

#[test]
fn a_receipt_counts_what_it_is_told() {
    let mut receipt = Receipt::new();
    assert_eq!((receipt.inserted, receipt.skipped, receipt.touched.len()), (0, 0, 0));
    receipt.note(&"S1".to_string(), WriteOutcome::Written);
    receipt.note(&"S2".to_string(), WriteOutcome::Duplicate);
    receipt.note(&"S1".to_string(), WriteOutcome::Written);
    receipt.note(&"S3".to_string(), WriteOutcome::Written);
    receipt.note(&"S3".to_string(), WriteOutcome::Duplicate);
    assert_eq!((receipt.inserted, receipt.skipped), (3, 2));
    assert_eq!(receipt.touched, vec!["S1".to_string(), "S3".to_string()]);
}

#[test]
fn record_writes_a_single_row_or_says_why_not() {
    let mut book = book();
    assert_eq!(book.record(scored(1, "S1", 2)), Ok(()));
    assert!(book.roster().get("S1").unwrap().is_passed);
    assert_eq!(book.record(scored(1, "S1", 2)), Err(RecordError::AlreadyRecorded));
    assert_eq!(book.record(scored(1, "S9", 2)), Err(RecordError::Rejected(Rejection::UnknownStudent)));
    assert_eq!(book.record(scored(9, "S1", 2)), Err(RecordError::Rejected(Rejection::UnknownSession)));
    let mut stray = away(2, "S1", false);
    stray.score = 1;
    assert_eq!(book.record(stray), Err(RecordError::Rejected(Rejection::Inconsistent)));
    assert_eq!(book.ledger().len(), 1);
}

#[test]
fn amend_student_leaves_rows_and_standing_alone() {
    let mut book = book();
    book.ingest(&vec![scored(1, "S1", 2)]).unwrap();
    let change = Amendment {
        name: Some("Lin Mei".to_string()),
        enrollment_status: Some("退學".to_string()),
        student_attribute: None,
        notes: None,
    };
    assert_eq!(book.amend_student("s1", &change), Ok(true));
    assert_eq!(book.amend_student("s1", &change), Ok(false));
    assert_eq!(book.amend_student("s9", &change), Err(AmendError::UnknownStudent));
    let student = book.roster().get("S1").unwrap();
    assert_eq!(student.name, "Lin Mei");
    assert_eq!(student.enrollment, EnrollmentStatus::DroppedOut);
    assert!(student.is_passed);
    assert_eq!(book.ledger().len(), 1);
}

#[test]
fn load_rows_takes_what_can_be_written_and_passes_over_the_rest() {
    let mut book = book();
    let mut stray = away(2, "S1", false);
    stray.score = 4;
    let rows = vec![
        scored(1, "S1", 2),
        scored(9, "S1", 2),
        scored(1, "S9", 2),
        stray,
        scored(1, "S1", 5),
        scored(2, "S2", 3),
    ];
    assert_eq!(book.load_rows(&rows), 2);
    assert_eq!(book.ledger().len(), 2);
    assert_eq!(book.ledger().get(1, "S1").unwrap().score, 2);
    assert_eq!(book.ledger().get(2, "S2").unwrap().score, 3);
    assert!(!book.roster().get("S1").unwrap().is_passed);
    assert_eq!(book.students_in(1), vec!["S1".to_string()]);
    assert!(book.students_in(3).is_empty());
    book.recompute_all();
    assert!(book.roster().get("S1").unwrap().is_passed);
    assert_eq!(book.roster().get("S1").unwrap().passing_criteria, Some("一次兩題".to_string()));
    assert!(book.roster().get("S2").unwrap().is_passed);
    assert!(!book.roster().get("S3").unwrap().is_passed);
    assert_eq!(book.load_rows(&Vec::new()), 0);
}
