use exam_ledger::calendar::{academic_year_window, Date};
use exam_ledger::cohort::{newly_passed, render_history, write_parts, ScoreRecord, SessionBest};
use exam_ledger::export::{
    cohort_table, session_columns, session_title, session_titles, Column,
};
use exam_ledger::records::{ExamSession, ExamType};
use exam_ledger::registry::Registry;
use exam_ledger::sheet::{Cell, Vocabulary};

fn dt(year: i32, month: u32, day: u32) -> Date {
    Date { year, month, day }
}

fn sat(student: &str, session: i32, on: Date, score: u32) -> ScoreRecord {
    ScoreRecord {
        student: student.to_string(),
        name: format!("{student}-name"),
        session,
        date: on,
        kind: ExamType::Official,
        score,
    }
}

fn sessions() -> Registry {
    let mut registry = Registry::new();
    let mut add = |key: i32, on: Date, kind: ExamType| {
        registry.restore(ExamSession { key, date: on, kind, notes: String::new() }).unwrap();
    };
    add(7, dt(2025, 3, 1), ExamType::Official);
    add(3, dt(2024, 10, 1), ExamType::School);
    add(2, dt(2024, 10, 1), ExamType::Official);
    add(9, dt(2024, 7, 31), ExamType::Official);
    add(5, dt(2025, 8, 1), ExamType::Official);
    add(4, dt(2024, 8, 1), ExamType::School);
    add(6, dt(2025, 7, 31), ExamType::School);
    registry
}

fn shown(cell: &Cell) -> String {
    match cell {
        Cell::Blank => String::new(),
        Cell::Text(text) => text.clone(),
        Cell::Number { whole, .. } => whole.to_string(),
        Cell::Serial(days) => format!("#{days}"),
        Cell::Other => "?".to_string(),
    }
}

#[test]
fn columns_are_the_sessions_of_the_window_in_order_of_time() {
    let window = academic_year_window(113).unwrap();
    let columns = session_columns(&sessions(), &window.start, &window.end);
    let keys: Vec<i32> = columns.iter().map(|c| c.session).collect();
    assert_eq!(keys, vec![4, 2, 3, 7, 6]);
    assert_eq!(columns[1], Column { session: 2, date: dt(2024, 10, 1), kind: ExamType::Official });
    assert!(session_columns(&Registry::new(), &window.start, &window.end).is_empty());
    assert!(session_columns(&sessions(), &dt(2030, 1, 1), &dt(2030, 12, 31)).is_empty());
}

#[test]
fn the_table_has_one_column_for_each_session_of_the_window() {
    let window = academic_year_window(113).unwrap();
    let records = vec![
        sat("S2", 9, dt(2024, 7, 31), 1),
        sat("S2", 3, dt(2024, 10, 1), 2),
        sat("S1", 2, dt(2024, 10, 1), 1),
        sat("S1", 7, dt(2025, 3, 1), 1),
        sat("S1", 6, dt(2025, 7, 31), 1),
    ];
    let cohort = newly_passed(&records, 113).unwrap();
    let columns = session_columns(&sessions(), &window.start, &window.end);
    let table = cohort_table(&cohort, &Vocabulary::standard(), &columns).unwrap();
    let text: Vec<Vec<String>> = table.iter().map(|row| row.iter().map(shown).collect()).collect();
    assert_eq!(
        text,
        vec![
            vec![
                "學號",
                "姓名",
                "累計題數(本學年度)",
                "最高題數(本學年度)",
                "2024-08-01,自辦",
                "2024-10-01,官辦",
                "2024-10-01,自辦",
                "2025-03-01,官辦",
                "2025-07-31,自辦",
            ],
            vec!["S1", "S1-name", "3", "1", "", "1", "", "1", "1"],
            vec!["S2", "S2-name", "2", "2", "", "", "2", "", ""],
        ]
    );
    let none = cohort_table(&Vec::new(), &Vocabulary::standard(), &Vec::new()).unwrap();
    assert_eq!(none.len(), 1);
    assert_eq!(none[0].len(), 4);
}

#[test]
fn a_column_with_a_day_that_does_not_exist_gives_no_table() {
    let bad = vec![Column { session: 1, date: dt(2025, 2, 30), kind: ExamType::Official }];
    assert!(cohort_table(&Vec::new(), &Vocabulary::standard(), &bad).is_none());
}

#[test]
fn a_history_is_written_as_days_with_scores() {
    let history = vec![
        SessionBest { session: 1, date: dt(2024, 5, 1), best: 1 },
        SessionBest { session: 2, date: dt(2024, 10, 1), best: 0 },
        SessionBest { session: 3, date: dt(2025, 3, 1), best: 12 },
    ];
    assert_eq!(render_history(&history), Some("2024-05-01(1), 2025-03-01(12)".to_string()));
    assert_eq!(render_history(&Vec::new()), Some(String::new()));
    let zero_first = vec![
        SessionBest { session: 2, date: dt(2024, 10, 1), best: 0 },
        SessionBest { session: 3, date: dt(2025, 3, 1), best: 4294967295 },
    ];
    assert_eq!(render_history(&zero_first), Some("2025-03-01(4294967295)".to_string()));
    let bad = vec![SessionBest { session: 1, date: dt(2024, 2, 30), best: 0 }];
    assert_eq!(render_history(&bad), None);
}

#[test]
fn days_with_scores_are_joined_with_commas() {
    let part = |day: &str, score: u32| (day.to_string(), score);
    assert_eq!(write_parts(&vec![part("a", 1), part("b", 0), part("c", 30)]), "a(1), c(30)");
    assert_eq!(write_parts(&vec![part("b", 0), part("c", 2)]), "c(2)");
    assert_eq!(write_parts(&vec![part("b", 0)]), "");
    assert_eq!(write_parts(&Vec::new()), "");
}

#[test]
fn a_session_title_is_day_comma_type() {
    let words = Vocabulary::standard();
    assert_eq!(session_title("2025-01-06", &words, ExamType::Official), "2025-01-06,官辦");
    assert_eq!(session_title("2025-01-06", &words, ExamType::School), "2025-01-06,自辦");
    assert_eq!(session_title("", &words, ExamType::School), ",自辦");
}

#[test]
fn session_titles_start_with_the_session_registered_last() {
    let titles = session_titles(&sessions(), &Vocabulary::standard());
    assert_eq!(
        titles,
        vec![
            "2025-07-31,自辦",
            "2024-08-01,自辦",
            "2025-08-01,官辦",
            "2024-07-31,官辦",
            "2024-10-01,官辦",
            "2024-10-01,自辦",
            "2025-03-01,官辦",
        ]
    );
    assert!(session_titles(&Registry::new(), &Vocabulary::standard()).is_empty());
}
