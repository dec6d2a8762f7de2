use exam_ledger::records::{EnrollmentStatus, StudentAttribute};
use exam_ledger::roster::{AmendError, Amendment, Roster, RosterError};

fn enrol(roster: &mut Roster, id: &str, name: &str) -> Result<(), RosterError> {
    roster.enroll(
        id,
        name.to_string(),
        EnrollmentStatus::CurrentlyEnrolled,
        StudentAttribute::Departmental,
        String::new(),
    )
}

#[test]
fn enroll_stores_identifiers_in_upper_case() {
    let mut roster = Roster::new();
    assert_eq!(enrol(&mut roster, "s1103b", "Lin"), Ok(()));
    assert_eq!(roster.len(), 1);
    let student = roster.student(0).unwrap();
    assert_eq!(student.id, "S1103B");
    assert_eq!(student.name, "Lin");
    assert!(!student.is_passed);
    assert_eq!(student.passing_criteria, None);
}

#[test]
fn identifiers_are_matched_without_regard_to_case() {
    let mut roster = Roster::new();
    enrol(&mut roster, "s1", "Lin").unwrap();
    assert!(roster.contains("S1"));
    assert!(roster.contains("s1"));
    assert!(!roster.contains("S2"));
    assert_eq!(roster.get("s1").unwrap().name, "Lin");
    assert!(roster.get("s2").is_none());
    assert_eq!(enrol(&mut roster, "S1", "Chen"), Err(RosterError::Conflict));
    assert_eq!(roster.len(), 1);
}

#[test]
fn enroll_refuses_an_empty_identifier() {
    let mut roster = Roster::new();
    assert_eq!(enrol(&mut roster, "", "Nobody"), Err(RosterError::EmptyId));
    assert_eq!(roster.len(), 0);
}

#[test]
fn remove_takes_one_student_off() {
    let mut roster = Roster::new();
    enrol(&mut roster, "S1", "Lin").unwrap();
    enrol(&mut roster, "S2", "Chen").unwrap();
    assert!(roster.remove("s1"));
    assert!(!roster.remove("s1"));
    assert_eq!(roster.len(), 1);
    assert_eq!(roster.student(0).unwrap().id, "S2");
    assert!(roster.student(1).is_none());
}

#[test]
fn serial_numbers_and_labels_of_the_enums() {
    assert_eq!(EnrollmentStatus::CurrentlyEnrolled.to_sn(), 1);
    assert_eq!(EnrollmentStatus::OnALeaveOfAbsence.to_sn(), 2);
    assert_eq!(EnrollmentStatus::DroppedOut.to_sn(), 3);
    assert_eq!(StudentAttribute::Departmental.to_sn(), 1);
    assert_eq!(StudentAttribute::Interdepartmental.to_sn(), 2);
    assert_eq!(StudentAttribute::ExternalStudents.to_sn(), 3);
    assert_eq!(EnrollmentStatus::from_label("在學"), Some(EnrollmentStatus::CurrentlyEnrolled));
    assert_eq!(EnrollmentStatus::from_label("休學"), Some(EnrollmentStatus::OnALeaveOfAbsence));
    assert_eq!(EnrollmentStatus::from_label("退學"), Some(EnrollmentStatus::DroppedOut));
    assert_eq!(EnrollmentStatus::from_label("畢業"), None);
    assert_eq!(StudentAttribute::from_label("本系"), Some(StudentAttribute::Departmental));
    assert_eq!(StudentAttribute::from_label("外系"), Some(StudentAttribute::Interdepartmental));
    assert_eq!(StudentAttribute::from_label("外校"), Some(StudentAttribute::ExternalStudents));
    assert_eq!(StudentAttribute::from_label(""), None);
}

fn amendment(name: Option<&str>, status: Option<&str>, attribute: Option<&str>, notes: Option<&str>) -> Amendment {
    Amendment {
        name: name.map(str::to_string),
        enrollment_status: status.map(str::to_string),
        student_attribute: attribute.map(str::to_string),
        notes: notes.map(str::to_string),
    }
}

#[test]
fn an_amendment_changes_what_it_names() {
    let mut roster = Roster::new();
    enrol(&mut roster, "S1", "Lin").unwrap();
    enrol(&mut roster, "S2", "Chen").unwrap();
    assert_eq!(roster.amend("s1", &amendment(None, None, None, None)), Ok(false));
    assert_eq!(roster.amend("s1", &amendment(Some("Lin"), Some("在學"), Some("本系"), Some("  "))), Ok(false));
    assert_eq!(roster.amend("s1", &amendment(Some("Lin Mei"), Some("休學"), None, Some(" moved "))), Ok(true));
    let student = roster.get("S1").unwrap();
    assert_eq!(student.name, "Lin Mei");
    assert_eq!(student.enrollment, EnrollmentStatus::OnALeaveOfAbsence);
    assert_eq!(student.attribute, StudentAttribute::Departmental);
    assert_eq!(student.notes, " moved ");
    assert_eq!(roster.amend("S1", &amendment(None, None, Some("外校"), Some(""))), Ok(true));
    let student = roster.get("S1").unwrap();
    assert_eq!(student.attribute, StudentAttribute::ExternalStudents);
    assert_eq!(student.notes, "");
    assert_eq!(roster.get("S2").unwrap().name, "Chen");
}

#[test]
fn an_amendment_that_is_turned_away_changes_nothing() {
    let mut roster = Roster::new();
    enrol(&mut roster, "S1", "Lin").unwrap();
    assert_eq!(roster.amend("S9", &amendment(Some("x"), None, None, None)), Err(AmendError::UnknownStudent));
    assert_eq!(
        roster.amend("S1", &amendment(Some("x"), Some("畢業"), Some("校友"), None)),
        Err(AmendError::UnknownStatus)
    );
    assert_eq!(
        roster.amend("S1", &amendment(Some("x"), Some("休學"), Some("校友"), None)),
        Err(AmendError::UnknownAttribute)
    );
    let student = roster.get("S1").unwrap();
    assert_eq!(student.name, "Lin");
    assert_eq!(student.enrollment, EnrollmentStatus::CurrentlyEnrolled);
    assert_eq!(EnrollmentStatus::DroppedOut.to_label(), "退學");
    assert_eq!(StudentAttribute::Interdepartmental.to_label(), "外系");
}
