use exam_ledger::calendar::Date;
use exam_ledger::gradebook::Gradebook;
use exam_ledger::gradebook::{RecordError, Rejection};
use exam_ledger::intake::{
    add_entry, parse_batch, read_cell, read_entry, read_header, read_header_cell, resolve_header,
    student_in, unknown_students_in, BatchError, CellError, EntryError, HeaderError,
};
use exam_ledger::records::{EnrollmentStatus, ExamType, StudentAttribute};
use exam_ledger::sheet::{Cell, Mark, Vocabulary};

fn text(s: &str) -> Cell {
    Cell::Text(s.to_string())
}

fn number(value: f64) -> Cell {
    Cell::Number { whole: value.trunc() as i64, exact: value.fract() == 0.0 }
}

fn words() -> Vocabulary {
    Vocabulary {
        official: "official-label".to_string(),
        school: "internal-label".to_string(),
        absent: "absent-label".to_string(),
        excused: "excused-label".to_string(),
    }
}

fn school() -> Gradebook {
    let mut book = Gradebook::new();
    book.create_session(Date { year: 2025, month: 1, day: 6 }, ExamType::Official, String::new())
        .unwrap();
    book.create_session(Date { year: 2025, month: 2, day: 10 }, ExamType::School, String::new())
        .unwrap();
    for id in ["S1", "S2", "S3"] {
        book.enroll(
            id,
            format!("name of {id}"),
            EnrollmentStatus::CurrentlyEnrolled,
            StudentAttribute::Departmental,
            String::new(),
        )
        .unwrap();
    }
    book
}

fn header() -> Vec<Cell> {
    vec![
        text("id"),
        text("2025-01-06,official-label"),
        text("note"),
        text("2025-02-10,internal-label"),
        text("note"),
    ]
}

fn parse(book: &Gradebook, grid: &Vec<Vec<Cell>>) -> Result<Vec<(i32, String, bool, bool, u32, String)>, BatchError> {
    parse_batch(grid, &words(), book.registry(), book.roster()).map(|rows| {
        rows.into_iter()
            .map(|r| (r.session, r.student, r.is_absent, r.is_excused, r.score, r.notes))
            .collect()
    })
}

fn failure(book: &Gradebook, grid: &Vec<Vec<Cell>>) -> String {
    format!("{:?}", parse(book, grid).unwrap_err())
}

#[test]
fn header_cell_resolves_to_the_session_of_that_date_and_type() {
    let book = school();
    assert_eq!(
        read_header_cell(&text("2025-01-06,official-label"), &words(), book.registry()),
        Ok(1)
    );
    assert_eq!(
        read_header_cell(&text("2025-02-10,internal-label"), &words(), book.registry()),
        Ok(2)
    );
    assert_eq!(read_header(&header(), &words(), book.registry()).unwrap(), vec![1, 2]);
}

#[test]
fn excused_label_yields_an_excused_absence_with_score_zero() {
    let book = school();
    let grid = vec![header(), vec![text("S1"), text("excused-label"), text("sick")]];
    assert_eq!(
        parse(&book, &grid).unwrap(),
        vec![(1, "S1".to_string(), true, true, 0, "sick".to_string())]
    );
}

#[test]
fn absent_label_yields_an_unexcused_absence_with_score_zero() {
    let book = school();
    let grid = vec![header(), vec![text("S1"), Cell::Blank, Cell::Blank, text(" absent-label ")]];
    assert_eq!(
        parse(&book, &grid).unwrap(),
        vec![(2, "S1".to_string(), true, false, 0, String::new())]
    );
}

#[test]
fn whole_number_yields_a_score() {
    let book = school();
    let grid = vec![header(), vec![text("S1"), number(5.0)]];
    assert_eq!(
        parse(&book, &grid).unwrap(),
        vec![(1, "S1".to_string(), false, false, 5, String::new())]
    );
}

#[test]
fn fractional_number_turns_the_whole_sheet_away_and_names_the_column() {
    let book = school();
    let grid = vec![
        header(),
        vec![text("S1"), number(5.0), Cell::Blank, number(2.0)],
        vec![text("S2"), number(1.0), Cell::Blank, number(5.5)],
        vec![text("S3"), number(3.0)],
    ];
    match parse(&book, &grid) {
        Err(BatchError::Cell { row, column, reason }) => {
            assert_eq!((row, column, reason), (2, 3, CellError::Fractional));
        }
        other => panic!("unexpected outcome: {other:?}"),
    }
}

#[test]
fn rows_are_read_left_to_right_and_top_to_bottom() {
    let book = school();
    let grid = vec![
        header(),
        vec![text("s1"), number(2.0), text("a"), number(0.0), text("b")],
        vec![text("S2"), Cell::Blank, text("ignored"), text("excused-label")],
        vec![text("S3")],
    ];
    assert_eq!(
        parse(&book, &grid).unwrap(),
        vec![
            (1, "S1".to_string(), false, false, 2, "a".to_string()),
            (2, "S1".to_string(), false, false, 0, "b".to_string()),
            (2, "S2".to_string(), true, true, 0, String::new()),
        ]
    );
}

#[test]
fn a_sheet_with_a_header_only_asks_for_nothing() {
    let book = school();
    assert_eq!(parse(&book, &vec![header()]).unwrap(), vec![]);
    assert_eq!(parse(&book, &vec![vec![text("id")]]).unwrap(), vec![]);
}

#[test]
fn an_empty_sheet_is_turned_away() {
    let book = school();
    assert_eq!(failure(&book, &Vec::new()), "EmptySheet");
}

#[test]
fn each_header_fault_is_named_with_its_column() {
    let book = school();
    let mut grid = vec![header()];
    grid[0][3] = number(1.0);
    assert_eq!(failure(&book, &grid), "Header { column: 3, reason: NotText }");
    grid[0][3] = text("2025-02-10");
    assert_eq!(failure(&book, &grid), "Header { column: 3, reason: Format }");
    grid[0][3] = text("2025-02-10,internal-label,x");
    assert_eq!(failure(&book, &grid), "Header { column: 3, reason: Format }");
    grid[0][3] = text("10.02.2025,internal-label");
    assert_eq!(failure(&book, &grid), "Header { column: 3, reason: BadDate }");
    grid[0][3] = text("2025-02-10,weekly");
    assert_eq!(failure(&book, &grid), "Header { column: 3, reason: UnknownType }");
    grid[0][3] = text("2025-02-10,official-label");
    assert_eq!(failure(&book, &grid), "Header { column: 3, reason: UnknownSession }");
    grid[0][1] = text("2025-01-06,官辦");
    assert_eq!(failure(&book, &grid), "Header { column: 1, reason: UnknownType }");
}

#[test]
fn resolve_header_tells_the_faults_apart() {
    let book = school();
    let day = Date { year: 2025, month: 1, day: 6 };
    assert_eq!(resolve_header(Some(day), Some(ExamType::Official), book.registry()), Ok(1));
    assert_eq!(resolve_header(None, Some(ExamType::Official), book.registry()), Err(HeaderError::BadDate));
    assert_eq!(resolve_header(None, None, book.registry()), Err(HeaderError::BadDate));
    assert_eq!(resolve_header(Some(day), None, book.registry()), Err(HeaderError::UnknownType));
    assert_eq!(
        resolve_header(Some(day), Some(ExamType::School), book.registry()),
        Err(HeaderError::UnknownSession)
    );
}

#[test]
fn a_header_fault_is_reported_before_anything_in_the_rows() {
    let book = school();
    let mut grid = vec![header(), vec![text("S9"), number(0.5)]];
    grid[0][1] = text("2025-01-06");
    assert_eq!(failure(&book, &grid), "Header { column: 1, reason: Format }");
}

#[test]
fn unknown_students_are_listed_once_each_in_sheet_order() {
    let book = school();
    let grid = vec![
        header(),
        vec![text("S1"), number(1.0)],
        vec![text("x9"), number(1.0)],
        vec![text("S7"), number(0.5)],
        vec![text("X9"), text("nonsense")],
        vec![Cell::Blank, number(1.0)],
    ];
    match parse(&book, &grid) {
        Err(BatchError::UnknownStudents(ids)) => {
            assert_eq!(ids, vec!["X9".to_string(), "S7".to_string()]);
        }
        other => panic!("unexpected outcome: {other:?}"),
    }
    assert_eq!(
        unknown_students_in(&grid, book.roster()),
        vec!["X9".to_string(), "S7".to_string()]
    );
    assert!(unknown_students_in(&Vec::new(), book.roster()).is_empty());
}

#[test]
fn a_row_without_student_turns_the_sheet_away() {
    let book = school();
    let grid = vec![header(), vec![text("S1"), number(1.0)], vec![Cell::Blank, number(1.0)]];
    assert_eq!(failure(&book, &grid), "MissingStudentId { row: 2 }");
    let grid = vec![header(), vec![text(""), number(1.0)]];
    assert_eq!(failure(&book, &grid), "MissingStudentId { row: 1 }");
    let grid = vec![header(), vec![number(7.0), number(1.0)]];
    assert_eq!(failure(&book, &grid), "MissingStudentId { row: 1 }");
    let grid = vec![header(), Vec::new()];
    assert_eq!(failure(&book, &grid), "MissingStudentId { row: 1 }");
    assert_eq!(student_in(&vec![text("s1")]), Some("S1".to_string()));
    assert_eq!(student_in(&vec![text("")]), None);
    assert_eq!(student_in(&Vec::new()), None);
}

#[test]
fn other_cell_contents_are_malformed() {
    let book = school();
    for bad in [text("maybe"), text(""), number(-1.0), number(4294967296.0), Cell::Serial(45000), Cell::Other] {
        let grid = vec![header(), vec![text("S1"), number(1.0), Cell::Blank, bad]];
        assert_eq!(failure(&book, &grid), "Cell { row: 1, column: 3, reason: Malformed }");
    }
    let grid = vec![header(), vec![text("S1"), number(4294967295.0)]];
    assert_eq!(parse(&book, &grid).unwrap()[0].4, u32::MAX);
}

#[test]
fn read_cell_reads_one_cell_with_its_note() {
    let words = words();
    let student = "S1".to_string();
    let note = text("late");
    let row = read_cell(Some(&number(3.0)), Some(&note), &words, 7, &student).unwrap().unwrap();
    assert_eq!((row.session, row.student.as_str(), row.score, row.notes.as_str()), (7, "S1", 3, "late"));
    assert!(!row.is_absent && !row.is_excused);
    assert!(read_cell(None, Some(&note), &words, 7, &student).unwrap().is_none());
    assert!(read_cell(Some(&Cell::Blank), None, &words, 7, &student).unwrap().is_none());
    let row = read_cell(Some(&text("absent-label")), Some(&number(1.0)), &words, 7, &student)
        .unwrap()
        .unwrap();
    assert!(row.is_absent && !row.is_excused);
    assert_eq!(row.notes, "");
    assert_eq!(read_cell(Some(&number(0.5)), None, &words, 7, &student).unwrap_err(), CellError::Fractional);
    assert_eq!(read_cell(Some(&Cell::Other), None, &words, 7, &student).unwrap_err(), CellError::Malformed);
}

#[test]
fn the_standard_words_are_those_of_the_exam_types() {
    let words = Vocabulary::standard();
    assert_eq!(words.official, "官辦");
    assert_eq!(words.school, "自辦");
    assert_eq!(words.absent, "缺考");
    assert_eq!(words.excused, "請假");
    assert_eq!(words.exam_type("官辦"), Some(ExamType::Official));
    assert_eq!(words.exam_type("自辦"), Some(ExamType::School));
    assert_eq!(words.exam_type("official-label"), None);
    assert_eq!(words.mark("請假"), Some(Mark::Excused));
    assert_eq!(words.mark("缺考"), Some(Mark::Absent));
    assert_eq!(words.mark("出席"), None);
    assert_eq!(words.status(true, true, "出席"), "請假");
    assert_eq!(words.status(true, false, "出席"), "缺考");
    assert_eq!(words.status(false, false, "出席"), "出席");
    assert_eq!(words.status(false, true, "無"), "無");
}

#[test]
fn a_sheet_in_the_standard_words_is_read_and_written() {
    let mut book = school();
    let grid = vec![
        vec![text("學號"), text("2025-01-06,官辦"), text("備註"), text("2025-02-10,自辦"), text("備註")],
        vec![text("s1"), number(2.0), text(""), text("請假"), text("病假")],
        vec![text("S2"), text("缺考"), Cell::Blank, number(1.0)],
    ];
    let batch = parse_batch(&grid, &Vocabulary::standard(), book.registry(), book.roster()).unwrap();
    assert_eq!(batch.len(), 4);
    let receipt = book.ingest(&batch).unwrap();
    assert_eq!((receipt.inserted, receipt.skipped), (4, 0));
    assert!(book.roster().get("S1").unwrap().is_passed);
    assert!(!book.roster().get("S2").unwrap().is_passed);
    let again = book.ingest(&batch).unwrap();
    assert_eq!((again.inserted, again.skipped), (0, 4));
    let second = book.ledger().get(2, "S1").unwrap();
    assert!(second.is_absent && second.is_excused);
    assert_eq!(second.notes, "病假");
}

#[test]
fn one_header_and_three_kinds_of_cell() {
    let book = school();
    let header = vec![text("id"), text("2025-01-06,official-label"), text("note")];
    assert_eq!(read_header(&header, &words(), book.registry()).unwrap(), vec![1]);
    let excused = vec![header.clone(), vec![text("S1"), text("excused-label")]];
    assert_eq!(parse(&book, &excused).unwrap(), vec![(1, "S1".to_string(), true, true, 0, String::new())]);
    let five = vec![header.clone(), vec![text("S1"), number(5.0)]];
    assert_eq!(parse(&book, &five).unwrap(), vec![(1, "S1".to_string(), false, false, 5, String::new())]);
    let fraction = vec![header.clone(), vec![text("S1"), number(5.0)], vec![text("S2"), number(5.5)]];
    match parse(&book, &fraction) {
        Err(BatchError::Cell { row: 2, column: 1, reason: CellError::Fractional }) => {}
        other => panic!("unexpected outcome: {other:?}"),
    }
}

#[test]
fn a_single_entry_is_an_absence_mark_or_a_count() {
    let words = Vocabulary::standard();
    let row = read_entry(3, "s1", "請假", "sick", &words).unwrap();
    assert_eq!((row.session, row.student.as_str(), row.notes.as_str()), (3, "S1", "sick"));
    assert!(row.is_absent && row.is_excused);
    let row = read_entry(3, "s1", "缺考", "", &words).unwrap();
    assert!(row.is_absent && !row.is_excused);
    let row = read_entry(3, "s1", "4", "", &words).unwrap();
    assert!(!row.is_absent);
    assert_eq!(row.score, 4);
    assert!(read_entry(3, "s1", "four", "", &words).is_none());
    assert!(read_entry(3, "s1", "-4", "", &words).is_none());
    assert!(read_entry(3, "s1", "", "", &words).is_none());
}

#[test]
fn a_single_entry_is_written_once() {
    let mut book = school();
    let words = Vocabulary::standard();
    assert_eq!(add_entry(&mut book, "2025-01-06,官辦", "s1", "2", "", &words), Ok(()));
    assert_eq!(book.ledger().get(1, "S1").unwrap().score, 2);
    assert!(book.roster().get("S1").unwrap().is_passed);
    assert_eq!(
        add_entry(&mut book, "2025-01-06,官辦", "S1", "3", "", &words),
        Err(EntryError::Record(RecordError::AlreadyRecorded))
    );
    assert_eq!(
        add_entry(&mut book, "2025-01-06,官辦", "S9", "3", "", &words),
        Err(EntryError::Record(RecordError::Rejected(Rejection::UnknownStudent)))
    );
    assert_eq!(
        add_entry(&mut book, "2025-01-06,自辦", "S2", "3", "", &words),
        Err(EntryError::Session(HeaderError::UnknownSession))
    );
    assert_eq!(
        add_entry(&mut book, "2025-01-06", "S2", "3", "", &words),
        Err(EntryError::Session(HeaderError::Format))
    );
    assert_eq!(
        add_entry(&mut book, "2025-01-06,官辦", "S2", "three", "", &words),
        Err(EntryError::NotACount)
    );
    assert_eq!(book.ledger().len(), 1);
}

#[test]
fn a_single_entry_may_carry_a_sign() {
    let words = Vocabulary::standard();
    assert_eq!(read_entry(3, "s1", "+4", "", &words).unwrap().score, 4);
    assert_eq!(read_entry(3, "s1", "-0", "", &words).unwrap().score, 0);
    assert!(read_entry(3, "s1", "-1", "", &words).is_none());
    assert!(read_entry(3, "s1", "2147483648", "", &words).is_none());
}
