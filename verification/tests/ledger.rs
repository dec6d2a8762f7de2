use exam_ledger::ledger::{Ledger, LedgerError};
use exam_ledger::records::{Attendance, ExamType};

fn row(session: i32, student: &str, absent: bool, excused: bool, score: u32) -> Attendance {
    Attendance {
        session,
        student: student.to_string(),
        is_absent: absent,
        is_excused: excused,
        score,
        notes: String::new(),
    }
}

#[test]
fn exam_type_has_its_label() {
    assert_eq!(ExamType::Official.to_string(), "官辦");
    assert_eq!(ExamType::School.to_string(), "自辦");
}

#[test]
fn insert_writes_a_row_once() {
    let mut ledger = Ledger::new();
    assert_eq!(ledger.insert(row(1, "S1", false, false, 2)), Ok(true));
    assert_eq!(ledger.insert(row(1, "S1", false, false, 3)), Ok(false));
    assert_eq!(ledger.insert(row(2, "S1", false, false, 3)), Ok(true));
    assert_eq!(ledger.insert(row(1, "S2", true, true, 0)), Ok(true));
    assert_eq!(ledger.len(), 3);
    assert_eq!(ledger.get(1, "S1").unwrap().score, 2);
    assert!(ledger.contains(1, "S2"));
    assert!(!ledger.contains(2, "S2"));
    assert!(ledger.get(2, "S2").is_none());
    assert_eq!(ledger.row(2).unwrap().student, "S2");
    assert!(ledger.row(3).is_none());
    assert_eq!(ledger.rows().len(), 3);
}

#[test]
fn insert_refuses_rows_that_contradict_themselves() {
    let mut ledger = Ledger::new();
    assert_eq!(ledger.insert(row(1, "S1", false, true, 0)), Err(LedgerError::Inconsistent));
    assert_eq!(ledger.insert(row(1, "S1", true, false, 1)), Err(LedgerError::Inconsistent));
    assert_eq!(ledger.insert(row(1, "S1", true, true, 1)), Err(LedgerError::Inconsistent));
    assert_eq!(ledger.len(), 0);
    assert!(!row(1, "S1", false, true, 0).is_consistent());
    assert!(row(1, "S1", true, true, 0).is_consistent());
    assert!(row(1, "S1", true, false, 0).is_consistent());
    assert!(row(1, "S1", false, false, 4).is_consistent());
}

#[test]
fn remove_session_takes_all_rows_of_it() {
    let mut ledger = Ledger::new();
    ledger.insert(row(1, "S1", false, false, 2)).unwrap();
    ledger.insert(row(2, "S1", false, false, 1)).unwrap();
    ledger.insert(row(1, "S2", false, false, 0)).unwrap();
    assert_eq!(ledger.remove_session(1), 2);
    assert_eq!(ledger.len(), 1);
    assert_eq!(ledger.row(0).unwrap().session, 2);
    assert_eq!(ledger.remove_session(1), 0);
}

#[test]
fn remove_student_takes_all_rows_of_them() {
    let mut ledger = Ledger::new();
    ledger.insert(row(1, "S1", false, false, 2)).unwrap();
    ledger.insert(row(2, "S1", false, false, 1)).unwrap();
    ledger.insert(row(1, "S2", false, false, 0)).unwrap();
    assert_eq!(ledger.remove_student("S1"), 2);
    assert_eq!(ledger.len(), 1);
    assert_eq!(ledger.row(0).unwrap().student, "S2");
    assert_eq!(ledger.remove_student("s2"), 0);
}

#[test]
fn remove_row_needs_the_score_to_match() {
    let mut ledger = Ledger::new();
    ledger.insert(row(1, "S1", false, false, 2)).unwrap();
    assert!(!ledger.remove_row(1, "S1", 3));
    assert!(!ledger.remove_row(2, "S1", 2));
    assert!(ledger.remove_row(1, "S1", 2));
    assert_eq!(ledger.len(), 0);
}

#[test]
fn revise_writes_only_what_differs_and_is_consistent() {
    let mut ledger = Ledger::new();
    ledger.insert(row(1, "S1", false, false, 2)).unwrap();
    assert!(!ledger.revise(1, "S1", false, false, 2, String::new()));
    assert!(!ledger.revise(1, "S2", false, false, 3, String::new()));
    assert!(!ledger.revise(1, "S1", true, false, 2, String::new()));
    assert!(ledger.revise(1, "S1", false, false, 3, "recount".to_string()));
    let revised = ledger.get(1, "S1").unwrap();
    assert_eq!(revised.score, 3);
    assert_eq!(revised.notes, "recount");
    assert!(ledger.revise(1, "S1", true, true, 0, "recount".to_string()));
    let revised = ledger.get(1, "S1").unwrap();
    assert!(revised.is_absent && revised.is_excused);
    assert_eq!(revised.score, 0);
}

#[test]
fn a_stored_row_becomes_a_consistent_row() {
    let made = Attendance::from_stored(3, "s1", true, true, 5, "n".to_string()).unwrap();
    assert_eq!(
        (made.session, made.student.as_str(), made.is_absent, made.is_excused, made.score, made.notes.as_str()),
        (3, "S1", true, true, 0, "n")
    );
    let made = Attendance::from_stored(3, "S1", false, true, 5, String::new()).unwrap();
    assert_eq!((made.is_absent, made.is_excused, made.score), (false, false, 5));
    assert!(made.is_consistent());
    let made = Attendance::from_stored(3, "S1", true, false, 0, String::new()).unwrap();
    assert_eq!((made.is_absent, made.is_excused, made.score), (true, false, 0));
    assert!(Attendance::from_stored(3, "S1", false, false, -1, String::new()).is_none());
    assert!(Attendance::from_stored(3, "S1", true, false, -1, String::new()).is_none());
    assert_eq!(Attendance::from_stored(3, "S1", false, false, i32::MAX, String::new()).unwrap().score, 2147483647);
}
