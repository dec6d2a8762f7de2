use exam_ledger::calendar::Date;
use exam_ledger::records::{ExamSession, ExamType};
use exam_ledger::registry::{Registry, RegistryError};

fn on(year: i32, month: u32, day: u32) -> Date {
    Date { year, month, day }
}

#[test]
fn create_gives_keys_in_sequence() {
    let mut registry = Registry::new();
    assert_eq!(registry.len(), 0);
    assert_eq!(registry.create(on(2025, 1, 6), ExamType::Official, "first".to_string()), Ok(1));
    assert_eq!(registry.create(on(2025, 1, 6), ExamType::School, String::new()), Ok(2));
    assert_eq!(registry.create(on(2025, 3, 1), ExamType::Official, String::new()), Ok(3));
    assert_eq!(registry.len(), 3);
    let second = registry.session(1).unwrap();
    assert_eq!(second.key, 2);
    assert_eq!(second.date, on(2025, 1, 6));
    assert_eq!(second.kind, ExamType::School);
    assert!(registry.session(3).is_none());
}

#[test]
fn resolve_finds_sessions_by_date_and_type() {
    let mut registry = Registry::new();
    registry.create(on(2025, 1, 6), ExamType::Official, String::new()).unwrap();
    registry.create(on(2025, 1, 6), ExamType::School, String::new()).unwrap();
    assert_eq!(registry.resolve(&on(2025, 1, 6), ExamType::Official), Some(1));
    assert_eq!(registry.resolve(&on(2025, 1, 6), ExamType::School), Some(2));
    assert_eq!(registry.resolve(&on(2025, 1, 7), ExamType::Official), None);
    assert_eq!(registry.date_of(2), Some(on(2025, 1, 6)));
    assert_eq!(registry.date_of(9), None);
    assert!(registry.contains_key(1));
    assert!(!registry.contains_key(3));
    assert_eq!(registry.get(1).unwrap().kind, ExamType::Official);
    assert!(registry.get(3).is_none());
}

#[test]
fn create_refuses_a_second_session_of_the_same_date_and_type() {
    let mut registry = Registry::new();
    registry.create(on(2025, 1, 6), ExamType::Official, String::new()).unwrap();
    assert_eq!(
        registry.create(on(2025, 1, 6), ExamType::Official, "again".to_string()),
        Err(RegistryError::Conflict)
    );
    assert_eq!(registry.len(), 1);
}

#[test]
fn create_refuses_notes_over_255_bytes() {
    let mut registry = Registry::new();
    assert_eq!(registry.create(on(2025, 1, 6), ExamType::Official, "x".repeat(255)), Ok(1));
    assert_eq!(
        registry.create(on(2025, 1, 7), ExamType::Official, "x".repeat(256)),
        Err(RegistryError::NotesTooLong)
    );
    assert_eq!(
        registry.create(on(2025, 1, 8), ExamType::Official, "學".repeat(86)),
        Err(RegistryError::NotesTooLong)
    );
    assert_eq!(registry.create(on(2025, 1, 9), ExamType::Official, "學".repeat(85)), Ok(2));
}

#[test]
fn create_refuses_days_that_do_not_exist() {
    let mut registry = Registry::new();
    assert_eq!(
        registry.create(on(2025, 2, 30), ExamType::Official, String::new()),
        Err(RegistryError::InvalidDate)
    );
    assert_eq!(registry.len(), 0);
}

#[test]
fn restore_keeps_the_key_it_is_given() {
    let mut registry = Registry::new();
    let stored = ExamSession {
        key: 41,
        date: on(2024, 9, 1),
        kind: ExamType::School,
        notes: String::new(),
    };
    assert_eq!(registry.restore(stored.clone()), Ok(()));
    assert_eq!(registry.resolve(&on(2024, 9, 1), ExamType::School), Some(41));
    assert_eq!(registry.restore(stored), Err(RegistryError::Conflict));
    let same_key = ExamSession {
        key: 41,
        date: on(2024, 9, 2),
        kind: ExamType::School,
        notes: String::new(),
    };
    assert_eq!(registry.restore(same_key), Err(RegistryError::Conflict));
    assert_eq!(registry.create(on(2024, 9, 3), ExamType::School, String::new()), Ok(42));
}

#[test]
fn create_runs_out_of_keys_after_the_largest() {
    let mut registry = Registry::new();
    let last = ExamSession {
        key: i32::MAX,
        date: on(2024, 9, 1),
        kind: ExamType::School,
        notes: String::new(),
    };
    assert_eq!(registry.restore(last), Ok(()));
    assert_eq!(
        registry.create(on(2024, 9, 2), ExamType::School, String::new()),
        Err(RegistryError::Exhausted)
    );
}

#[test]
fn remove_takes_one_session_out() {
    let mut registry = Registry::new();
    registry.create(on(2025, 1, 6), ExamType::Official, String::new()).unwrap();
    registry.create(on(2025, 1, 7), ExamType::Official, String::new()).unwrap();
    assert!(registry.remove(1));
    assert!(!registry.remove(1));
    assert_eq!(registry.len(), 1);
    assert_eq!(registry.resolve(&on(2025, 1, 6), ExamType::Official), None);
    assert_eq!(registry.resolve(&on(2025, 1, 7), ExamType::Official), Some(2));
}

#[test]
fn amend_changes_day_type_and_notes_of_a_session() {
    let mut registry = Registry::new();
    registry.create(on(2025, 1, 6), ExamType::Official, "first".to_string()).unwrap();
    registry.create(on(2025, 1, 7), ExamType::Official, String::new()).unwrap();
    assert_eq!(registry.amend(1, None, None, None), Ok(false));
    assert_eq!(registry.amend(1, Some(on(2025, 1, 6)), Some(ExamType::Official), Some("first".to_string())), Ok(false));
    assert_eq!(registry.amend(1, None, Some(ExamType::School), Some("  ".to_string())), Ok(true));
    let held = registry.get(1).unwrap();
    assert_eq!((held.date, held.kind, held.notes.as_str()), (on(2025, 1, 6), ExamType::School, ""));
    assert_eq!(registry.amend(1, Some(on(2025, 1, 7)), None, Some("moved".to_string())), Ok(true));
    assert_eq!(registry.resolve(&on(2025, 1, 7), ExamType::School), Some(1));
    assert_eq!(registry.resolve(&on(2025, 1, 6), ExamType::School), None);
    assert_eq!(registry.get(1).unwrap().notes, "moved");
}

#[test]
fn amend_is_turned_away_without_changing_anything() {
    let mut registry = Registry::new();
    registry.create(on(2025, 1, 6), ExamType::Official, "first".to_string()).unwrap();
    registry.create(on(2025, 1, 7), ExamType::Official, String::new()).unwrap();
    assert_eq!(registry.amend(9, None, None, None), Err(RegistryError::UnknownKey));
    assert_eq!(
        registry.amend(1, Some(on(2025, 1, 7)), None, None),
        Err(RegistryError::Conflict)
    );
    assert_eq!(
        registry.amend(1, Some(on(2025, 2, 30)), None, None),
        Err(RegistryError::InvalidDate)
    );
    assert_eq!(
        registry.amend(1, None, None, Some("x".repeat(256))),
        Err(RegistryError::NotesTooLong)
    );
    let held = registry.get(1).unwrap();
    assert_eq!((held.date, held.kind, held.notes.as_str()), (on(2025, 1, 6), ExamType::Official, "first"));
}
