use exam_ledger::eligibility::{assess, evaluate, tally_for, Criteria, Tally};
use exam_ledger::records::Attendance;

fn sat(session: i32, student: &str, score: u32) -> Attendance {
    Attendance {
        session,
        student: student.to_string(),
        is_absent: false,
        is_excused: false,
        score,
        notes: String::new(),
    }
}

fn missed(session: i32, student: &str, excused: bool, stray: u32) -> Attendance {
    Attendance {
        session,
        student: student.to_string(),
        is_absent: true,
        is_excused: excused,
        score: stray,
        notes: String::new(),
    }
}

#[test]
fn one_session_scored_two_passes_on_single_session() {
    let rows = vec![sat(1, "S1", 2)];
    let tally = tally_for(&rows, "S1");
    assert_eq!(tally, Tally { total: 2, max: 2 });
    let criteria = evaluate(&tally);
    assert_eq!(criteria, Criteria { single_session: true, cumulative: false });
    assert!(criteria.is_passed());
    assert_eq!(criteria.label(), Some("一次兩題".to_string()));
    assert_eq!(assess(&rows, "S1"), criteria);
}

#[test]
fn three_sessions_scored_one_pass_on_cumulative() {
    let rows = vec![sat(1, "S1", 1), sat(2, "S1", 1), sat(3, "S1", 1)];
    let tally = tally_for(&rows, "S1");
    assert_eq!(tally, Tally { total: 3, max: 1 });
    let criteria = evaluate(&tally);
    assert_eq!(criteria, Criteria { single_session: false, cumulative: true });
    assert!(criteria.is_passed());
    assert_eq!(criteria.label(), Some("累計3題".to_string()));
}

#[test]
fn two_sessions_scored_one_do_not_pass() {
    let rows = vec![sat(1, "S1", 1), sat(2, "S1", 1)];
    let tally = tally_for(&rows, "S1");
    assert_eq!(tally, Tally { total: 2, max: 1 });
    let criteria = evaluate(&tally);
    assert_eq!(criteria, Criteria { single_session: false, cumulative: false });
    assert!(!criteria.is_passed());
    assert_eq!(criteria.label(), None);
}

#[test]
fn both_thresholds_give_both_labels_joined() {
    let rows = vec![sat(1, "S1", 2), sat(2, "S1", 1)];
    let criteria = assess(&rows, "S1");
    assert_eq!(criteria, Criteria { single_session: true, cumulative: true });
    assert_eq!(criteria.label(), Some("一次兩題且累計3題".to_string()));
}

#[test]
fn absent_everywhere_never_passes_despite_stray_scores() {
    let rows = vec![missed(1, "S1", false, 5), missed(2, "S1", true, 9), missed(3, "S1", false, 0)];
    let tally = tally_for(&rows, "S1");
    assert_eq!(tally, Tally { total: 0, max: 0 });
    assert!(!evaluate(&tally).is_passed());
    assert_eq!(evaluate(&tally).label(), None);
}

#[test]
fn absent_rows_are_left_out_of_a_mixed_history() {
    let rows = vec![sat(1, "S1", 1), missed(2, "S1", false, 7), sat(3, "S1", 1)];
    assert_eq!(tally_for(&rows, "S1"), Tally { total: 2, max: 1 });
    assert!(!assess(&rows, "S1").is_passed());
}

#[test]
fn rows_of_other_students_do_not_count() {
    let rows = vec![sat(1, "S1", 1), sat(1, "S2", 5), sat(2, "S1", 1)];
    assert_eq!(tally_for(&rows, "S1"), Tally { total: 2, max: 1 });
    assert_eq!(tally_for(&rows, "S2"), Tally { total: 5, max: 5 });
    assert_eq!(tally_for(&rows, "S3"), Tally { total: 0, max: 0 });
}

#[test]
fn tally_does_not_overflow_on_large_scores() {
    let rows = vec![sat(1, "S1", u32::MAX), sat(2, "S1", u32::MAX), sat(3, "S1", u32::MAX)];
    let tally = tally_for(&rows, "S1");
    assert_eq!(tally.total, 3 * (u32::MAX as u128));
    assert_eq!(tally.max, u32::MAX);
}

#[test]
fn thresholds_are_exact() {
    assert!(!evaluate(&Tally { total: 2, max: 1 }).is_passed());
    assert!(evaluate(&Tally { total: 3, max: 1 }).cumulative);
    assert!(!evaluate(&Tally { total: 3, max: 1 }).single_session);
    assert!(evaluate(&Tally { total: 2, max: 2 }).single_session);
    assert!(!evaluate(&Tally { total: 2, max: 2 }).cumulative);
}
