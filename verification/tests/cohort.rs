use exam_ledger::calendar::{academic_year_window, Date};
use exam_ledger::cohort::{
    cohort_in, entry_for, history_within, is_newly_passed, lifetime_history, name_in,
    newly_passed, tally_best, tally_until, ScoreRecord, SessionBest,
};
use exam_ledger::eligibility::Tally;
use exam_ledger::gradebook::Gradebook;
use exam_ledger::records::{Attendance, EnrollmentStatus, ExamType, StudentAttribute};

fn d(year: i32, month: u32, day: u32) -> Date {
    Date { year, month, day }
}

fn rec(student: &str, session: i32, date: Date, score: u32) -> ScoreRecord {
    ScoreRecord {
        student: student.to_string(),
        name: format!("name of {student}"),
        session,
        date,
        kind: ExamType::Official,
        score,
    }
}

fn best(session: i32, date: Date, best: u32) -> SessionBest {
    SessionBest { session, date, best }
}

fn history() -> Vec<ScoreRecord> {
    vec![
        // passes inside year 113 for the first time
        rec("S3", 1, d(2024, 5, 1), 1),
        rec("S3", 3, d(2024, 10, 1), 1),
        rec("S3", 4, d(2025, 3, 1), 1),
        // passed before the year, nothing inside it
        rec("S1", 1, d(2024, 5, 1), 2),
        // passed before the year and sat again inside it
        rec("S2", 2, d(2024, 7, 31), 3),
        rec("S2", 3, d(2024, 10, 1), 2),
        // passes on the first day of the year
        rec("A9", 5, d(2024, 8, 1), 2),
        // passes on the last day of the year
        rec("B7", 6, d(2025, 7, 31), 2),
        // passes only after the year
        rec("C5", 7, d(2025, 8, 1), 2),
        // never passes
        rec("D4", 3, d(2024, 10, 1), 1),
        rec("D4", 4, d(2025, 3, 1), 1),
    ]
}

#[test]
fn newly_passed_holds_who_passes_by_the_end_but_not_before() {
    let cohort = newly_passed(&history(), 113).unwrap();
    let ids: Vec<&str> = cohort.iter().map(|e| e.student.as_str()).collect();
    assert_eq!(ids, vec!["A9", "B7", "S3"]);
}

#[test]
fn a_student_who_passed_before_the_window_does_not_appear() {
    let records = history();
    let window = academic_year_window(113).unwrap();
    assert!(!is_newly_passed(&records, &"S1".to_string(), &window));
    assert!(!is_newly_passed(&records, &"S2".to_string(), &window));
    assert!(is_newly_passed(&records, &"S3".to_string(), &window));
    assert!(!is_newly_passed(&records, &"C5".to_string(), &window));
    assert!(!is_newly_passed(&records, &"D4".to_string(), &window));
    assert!(!is_newly_passed(&records, &"nobody".to_string(), &window));
    let cohort = cohort_in(&records, &window);
    assert!(cohort.iter().all(|e| e.student != "S1" && e.student != "S2"));
}

#[test]
fn the_next_year_picks_up_who_passes_then() {
    let cohort = newly_passed(&history(), 114).unwrap();
    let ids: Vec<&str> = cohort.iter().map(|e| e.student.as_str()).collect();
    assert_eq!(ids, vec!["C5"]);
    assert!(newly_passed(&history(), 112).unwrap().iter().map(|e| e.student.as_str()).eq(["S1", "S2"]));
}

#[test]
fn entries_carry_window_totals_and_lifetime_history() {
    let cohort = newly_passed(&history(), 113).unwrap();
    let s3 = &cohort[2];
    assert_eq!(s3.student, "S3");
    assert_eq!(s3.name, "name of S3");
    assert_eq!(s3.total, 2);
    assert_eq!(s3.max, 1);
    assert_eq!(
        s3.history,
        vec![best(1, d(2024, 5, 1), 1), best(3, d(2024, 10, 1), 1), best(4, d(2025, 3, 1), 1)]
    );
    let a9 = &cohort[0];
    assert_eq!((a9.total, a9.max), (2, 2));
    assert_eq!(a9.history, vec![best(5, d(2024, 8, 1), 2)]);
}

#[test]
fn several_rows_of_one_session_count_once_with_the_best_score() {
    let records = vec![
        rec("S1", 3, d(2024, 10, 1), 1),
        rec("S1", 3, d(2024, 10, 1), 2),
        rec("S1", 3, d(2024, 10, 1), 1),
        rec("S1", 4, d(2024, 11, 1), 0),
    ];
    let student = "S1".to_string();
    assert_eq!(
        lifetime_history(&records, &student),
        vec![best(3, d(2024, 10, 1), 2), best(4, d(2024, 11, 1), 0)]
    );
    let window = academic_year_window(113).unwrap();
    let entry = entry_for(&records, &student, &window);
    assert_eq!((entry.total, entry.max), (2, 2));
    assert_eq!(
        history_within(&records, &student, &d(2024, 10, 2), &d(2024, 12, 1)),
        vec![best(4, d(2024, 11, 1), 0)]
    );
    assert_eq!(tally_best(&entry.history), Tally { total: 2, max: 2 });
}

#[test]
fn tally_until_counts_up_to_and_including_the_cutoff() {
    let records = history();
    let student = "S3".to_string();
    assert_eq!(tally_until(&records, &student, &d(2024, 4, 30)), Tally { total: 0, max: 0 });
    assert_eq!(tally_until(&records, &student, &d(2024, 5, 1)), Tally { total: 1, max: 1 });
    assert_eq!(tally_until(&records, &student, &d(2025, 2, 28)), Tally { total: 2, max: 1 });
    assert_eq!(tally_until(&records, &student, &d(2025, 3, 1)), Tally { total: 3, max: 1 });
}

#[test]
fn names_come_from_the_first_record() {
    let mut records = history();
    records.push(ScoreRecord {
        student: "S3".to_string(),
        name: "renamed".to_string(),
        session: 9,
        date: d(2025, 4, 1),
        kind: ExamType::School,
        score: 0,
    });
    assert_eq!(name_in(&records, &"S3".to_string()), Some("name of S3".to_string()));
    assert_eq!(name_in(&records, &"nobody".to_string()), None);
}

#[test]
fn years_beyond_the_calendar_have_no_cohort() {
    assert!(newly_passed(&history(), 260230).unwrap().is_empty());
    assert!(newly_passed(&history(), 260231).is_none());
}

#[test]
fn running_the_comparison_again_gives_the_same_cohort() {
    let records = history();
    let first: Vec<_> = newly_passed(&records, 113)
        .unwrap()
        .into_iter()
        .map(|e| (e.student, e.name, e.total, e.max, e.history))
        .collect();
    let second: Vec<_> = newly_passed(&records, 113)
        .unwrap()
        .into_iter()
        .map(|e| (e.student, e.name, e.total, e.max, e.history))
        .collect();
    assert_eq!(first, second);
}

#[test]
fn the_gradebook_compares_over_its_own_rows() {
    let mut book = Gradebook::new();
    book.create_session(d(2024, 5, 1), ExamType::Official, String::new()).unwrap();
    book.create_session(d(2024, 10, 1), ExamType::Official, String::new()).unwrap();
    for id in ["S2", "S1"] {
        book.enroll(
            id,
            format!("name of {id}"),
            EnrollmentStatus::CurrentlyEnrolled,
            StudentAttribute::Departmental,
            String::new(),
        )
        .unwrap();
    }
    let row = |session: i32, student: &str, absent: bool, score: u32| Attendance {
        session,
        student: student.to_string(),
        is_absent: absent,
        is_excused: false,
        score,
        notes: String::new(),
    };
    book.apply(&vec![row(1, "S1", false, 2), row(2, "S1", false, 2), row(1, "S2", true, 0), row(2, "S2", false, 2)])
        .unwrap();
    let cohort = book.newly_passed(113).unwrap();
    assert_eq!(cohort.len(), 1);
    assert_eq!(cohort[0].student, "S2");
    assert_eq!(cohort[0].name, "name of S2");
    assert_eq!(cohort[0].history, vec![best(2, d(2024, 10, 1), 2)]);
    assert!(book.newly_passed(260231).is_none());
}

#[test]
fn a_history_stands_in_order_of_days_whatever_the_order_of_the_records() {
    let records = vec![
        rec("S1", 2, d(2025, 1, 1), 2),
        rec("S1", 1, d(2024, 1, 1), 1),
        rec("S1", 4, d(2024, 6, 1), 0),
        rec("S1", 3, d(2024, 6, 1), 1),
        rec("S1", 1, d(2024, 1, 1), 3),
        rec("S1", 5, d(2023, 12, 31), 0),
    ];
    let student = "S1".to_string();
    assert_eq!(
        lifetime_history(&records, &student),
        vec![
            best(5, d(2023, 12, 31), 0),
            best(1, d(2024, 1, 1), 3),
            best(4, d(2024, 6, 1), 0),
            best(3, d(2024, 6, 1), 1),
            best(2, d(2025, 1, 1), 2),
        ]
    );
    assert_eq!(
        history_within(&records, &student, &d(2024, 1, 1), &d(2024, 12, 31)),
        vec![best(1, d(2024, 1, 1), 3), best(4, d(2024, 6, 1), 0), best(3, d(2024, 6, 1), 1)]
    );
}

#[test]
fn the_gradebook_gives_histories_by_day_not_by_order_of_writing() {
    let mut book = Gradebook::new();
    book.create_session(d(2025, 1, 1), ExamType::Official, String::new()).unwrap();
    book.create_session(d(2024, 1, 1), ExamType::Official, String::new()).unwrap();
    book.enroll(
        "S1",
        "Lin".to_string(),
        EnrollmentStatus::CurrentlyEnrolled,
        StudentAttribute::Departmental,
        String::new(),
    )
    .unwrap();
    let row = |session: i32, score: u32| Attendance {
        session,
        student: "S1".to_string(),
        is_absent: false,
        is_excused: false,
        score,
        notes: String::new(),
    };
    book.apply(&vec![row(1, 2), row(2, 1)]).unwrap();
    let cohort = book.newly_passed(113).unwrap();
    assert_eq!(cohort.len(), 1);
    assert_eq!(cohort[0].history, vec![best(2, d(2024, 1, 1), 1), best(1, d(2025, 1, 1), 2)]);
    assert_eq!(
        exam_ledger::cohort::render_history(&cohort[0].history),
        Some("2024-01-01(1), 2025-01-01(2)".to_string())
    );
}
