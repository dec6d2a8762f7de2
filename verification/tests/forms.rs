use exam_ledger::calendar::{Date, Span, Window};
use exam_ledger::forms::{
    ClaimedScholarshipForm, Coverage, CreateUserRequest, LoginRequest, PassedByYearForm,
    ScholarshipExcelForm, ScholarshipQueryForm, Selection,
};

fn ymd(year: i32, month: u32, day: u32) -> Date {
    Date { year, month, day }
}

#[test]
fn passed_by_year_form_gives_the_academic_year() {
    let form = PassedByYearForm { academic_year: 113 };
    assert_eq!(
        form.window(),
        Some(Window { start: ymd(2024, 8, 1), end: ymd(2025, 7, 31), eve: ymd(2024, 7, 31) })
    );
    assert_eq!(PassedByYearForm { academic_year: 4_000_000 }.window(), None);
}

#[test]
fn scholarship_forms_cover_a_scholarship_year_or_all_time() {
    let year = Coverage::Within(Span { first: ymd(2024, 9, 1), last: ymd(2025, 8, 31) });
    assert_eq!(ClaimedScholarshipForm { academic_year: Some(113) }.coverage(), year);
    assert_eq!(ClaimedScholarshipForm { academic_year: None }.coverage(), Coverage::Always);
    assert_eq!(ClaimedScholarshipForm { academic_year: Some(u32::MAX) }.coverage(), Coverage::Never);
    let excel = ScholarshipExcelForm { academic_year: Some(113), status: "claimed".to_string() };
    assert_eq!(excel.coverage(), year);
    let query = ScholarshipQueryForm { status: "all".to_string(), academic_year: None };
    assert_eq!(query.coverage(), Coverage::Always);
}

#[test]
fn status_words_select_the_kinds_of_scholarship() {
    let pick = |status: &str| ScholarshipQueryForm { status: status.to_string(), academic_year: None }.selection();
    assert_eq!(pick("all"), Selection { claimed: true, unclaimed: true });
    assert_eq!(pick("claimed"), Selection { claimed: true, unclaimed: false });
    assert_eq!(pick("unclaimed"), Selection { claimed: false, unclaimed: true });
    assert_eq!(pick("ALL"), Selection { claimed: false, unclaimed: false });
    assert_eq!(pick(""), Selection { claimed: false, unclaimed: false });
    let excel = ScholarshipExcelForm { academic_year: None, status: "unclaimed".to_string() };
    assert_eq!(excel.selection(), Selection { claimed: false, unclaimed: true });
}

#[test]
fn account_requests_carry_name_and_password() {
    let login = LoginRequest { username: "admin".to_string(), password: "secret".to_string() };
    let create = CreateUserRequest { username: "admin".to_string(), password: "secret".to_string() };
    assert_eq!(login.username, create.username);
    assert_eq!(login.password, create.password);
}
