//! The cohort as a table: the fixed fields of each student, and one column
//! for each session held within the window, in chronological order.

use crate::calendar::{iso_text_of, Date};
use crate::cohort::{best_index, entry_views, has_best, CohortEntry, CohortEntryView, SessionBest};
use crate::records::{ExamSessionView, ExamType, SessionKey};
use crate::registry::Registry;
use crate::sheet::{grid_view, row_view, Cell, CellView, Vocabulary, VocabularyView};
use crate::text::text_views;
use vstd::pervasive::unreached;
use vstd::prelude::*;
use vstd::string::StringExecFns;

verus! {

/// The session that a column of the table stands for.
#[derive(Clone, Copy, Debug, PartialEq, Eq, Structural)]
pub struct Column {
    pub session: SessionKey,
    pub date: Date,
    pub kind: ExamType,
}

/// The order of the columns: by day, and by key among sessions of one day.
pub open spec fn column_before(a: Column, b: Column) -> bool {
    a.date.spec_lt(b.date) || (a.date == b.date && a.session < b.session)
}

/// The columns stand in strictly ascending order.
pub open spec fn columns_ascending(columns: Seq<Column>) -> bool {
    forall|i: int, j: int| 0 <= i < j < columns.len() ==> column_before(columns[i], columns[j])
}

/// The column of a session.
pub open spec fn column_of(session: ExamSessionView) -> Column {
    Column { session: session.key as SessionKey, date: session.date, kind: session.kind }
}

/// Whether a day lies between two days, both included.
pub open spec fn day_within(day: Date, first: Date, last: Date) -> bool {
    first.spec_le(day) && day.spec_le(last)
}

/// Some session held from `first` to `last` has this column.
pub open spec fn is_column(
    sessions: Seq<ExamSessionView>,
    first: Date,
    last: Date,
    column: Column,
) -> bool {
    exists|i: int|
        0 <= i < sessions.len() && column_of(sessions[i]) == column && day_within(
            sessions[i].date,
            first,
            last,
        )
}

/// `columns` are the columns of the sessions held from `first` to `last`:
/// each of those sessions once and no other, in chronological order.
pub open spec fn are_columns(
    columns: Seq<Column>,
    sessions: Seq<ExamSessionView>,
    first: Date,
    last: Date,
) -> bool {
    &&& columns_ascending(columns)
    &&& forall|column: Column|
        #![trigger columns.contains(column)]
        #![trigger is_column(sessions, first, last, column)]
        columns.contains(column) <==> is_column(sessions, first, last, column)
}

fn comes_before(a: &Column, b: &Column) -> (r: bool)
    ensures
        r == column_before(*a, *b),
{
    a.date.lt(&b.date) || (a.date == b.date && a.session < b.session)
}

/// Some session among the first `n`, held from `first` to `last`, has this
/// column.
pub open spec fn is_column_among(
    sessions: Seq<ExamSessionView>,
    n: int,
    first: Date,
    last: Date,
    column: Column,
) -> bool {
    exists|i: int|
        0 <= i < n && i < sessions.len() && column_of(sessions[i]) == column && day_within(
            sessions[i].date,
            first,
            last,
        )
}

/// The order of the columns is transitive, and of two columns of different
/// sessions one comes before the other.
pub proof fn lemma_column_order(a: Column, b: Column, c: Column)
    ensures
        column_before(a, b) && column_before(b, c) ==> column_before(a, c),
        a.session != b.session ==> column_before(a, b) || column_before(b, a),
        !column_before(a, a),
{
}

/// What a run of columns holds once one more was put in.
pub proof fn lemma_insert_contains(before: Seq<Column>, place: int, column: Column, other: Column)
    requires
        0 <= place <= before.len(),
    ensures
        before.insert(place, column).contains(other) <==> (before.contains(other) || other
            == column),
{
    let after = before.insert(place, column);
    if before.contains(other) {
        let k = choose|k: int| 0 <= k < before.len() && before[k] == other;
        if k < place {
            assert(after[k] == other);
        } else {
            assert(after[k + 1] == other);
        }
    }
    if other == column {
        assert(after[place] == other);
    }
    if after.contains(other) {
        let k = choose|k: int| 0 <= k < after.len() && after[k] == other;
        if k < place {
            assert(before[k] == other);
        } else if k > place {
            assert(before[k - 1] == other);
        }
    }
}

/// Puts a column into its place among columns in ascending order.
fn place_column(columns: &mut Vec<Column>, column: Column) -> (place: Ghost<int>)
    requires
        columns_ascending(old(columns)@),
        forall|k: int| 0 <= k < old(columns)@.len() ==> old(columns)@[k].session != column.session,
    ensures
        columns_ascending(final(columns)@),
        0 <= place@ <= old(columns)@.len(),
        final(columns)@ == old(columns)@.insert(place@, column),
{
    let mut p: usize = 0;
    while p < columns.len() && comes_before(&columns[p], &column)
        invariant
            p <= columns.len(),
            columns@ == old(columns)@,
            forall|k: int| 0 <= k < p ==> column_before(columns@[k], column),
        decreases columns.len() - p,
    {
        p += 1;
    }
    let ghost before = columns@;
    columns.insert(p, column);
    proof {
        let after = columns@;
        assert forall|i: int, j: int| 0 <= i < j < after.len() implies column_before(
            after[i],
            after[j],
        ) by {
            if j == p {
                assert(after[i] == before[i]);
            } else if i == p {
                lemma_column_order(column, before[p as int], before[j - 1]);
                lemma_column_order(before[p as int], column, column);
            } else if i < p && j > p {
                lemma_column_order(column, before[p as int], before[j - 1]);
                lemma_column_order(before[p as int], column, column);
                lemma_column_order(before[i], column, before[j - 1]);
            } else if j < p {
                assert(after[i] == before[i] && after[j] == before[j]);
            } else {
                assert(after[i] == before[i - 1] && after[j] == before[j - 1]);
            }
        }
    }
    Ghost(p as int)
}

/// The columns of the sessions held from `first` to `last`, in
/// chronological order.
pub fn session_columns(registry: &Registry, first: &Date, last: &Date) -> (r: Vec<Column>)
    requires
        registry.wf(),
    ensures
        are_columns(r@, registry@, *first, *last),
        forall|k: int| 0 <= k < r@.len() ==> r@[k].date.is_valid(),
{
    let ghost sessions = registry@;
    let mut out: Vec<Column> = Vec::new();
    let mut i: usize = 0;
    while i < registry.len()
        invariant
            i <= sessions.len(),
            registry.wf(),
            sessions == registry@,
            columns_ascending(out@),
            forall|column: Column|
                #![trigger out@.contains(column)]
                #![trigger is_column_among(sessions, i as int, *first, *last, column)]
                out@.contains(column) <==> is_column_among(
                    sessions,
                    i as int,
                    *first,
                    *last,
                    column,
                ),
        decreases sessions.len() - i,
    {
        let ghost before = out@;
        let mut held: Option<Column> = None;
        match registry.session(i) {
            Some(session) => {
                if first.le(&session.date) && session.date.le(last) {
                    held = Some(
                        Column { session: session.key, date: session.date, kind: session.kind },
                    );
                }
            },
            None => {},
        }
        match held {
            Some(column) => {
                proof {
                    assert(column == column_of(sessions[i as int]));
                    assert forall|k: int| 0 <= k < before.len() implies before[k].session
                        != column.session by {
                        assert(before.contains(before[k]));
                        assert(is_column_among(sessions, i as int, *first, *last, before[k]));
                    }
                }
                let place = place_column(&mut out, column);
                proof {
                    assert forall|other: Column|
                        #![trigger out@.contains(other)]
                        #![trigger is_column_among(sessions, i + 1, *first, *last, other)]
                        out@.contains(other) <==> is_column_among(
                            sessions,
                            i + 1,
                            *first,
                            *last,
                            other,
                        ) by {
                        lemma_insert_contains(before, place@, column, other);
                        if before.contains(other) {
                            assert(is_column_among(sessions, i as int, *first, *last, other));
                        }
                        if is_column_among(sessions, i + 1, *first, *last, other) && other
                            != column {
                            assert(is_column_among(sessions, i as int, *first, *last, other));
                        }
                    }
                }
            },
            None => {
                proof {
                    assert forall|other: Column|
                        #![trigger out@.contains(other)]
                        #![trigger is_column_among(sessions, i + 1, *first, *last, other)]
                        out@.contains(other) <==> is_column_among(
                            sessions,
                            i + 1,
                            *first,
                            *last,
                            other,
                        ) by {
                        if out@.contains(other) {
                            assert(is_column_among(sessions, i as int, *first, *last, other));
                        }
                        if is_column_among(sessions, i + 1, *first, *last, other) {
                            assert(is_column_among(sessions, i as int, *first, *last, other));
                        }
                    }
                }
            },
        }
        i += 1;
    }
    proof {
        assert forall|column: Column|
            #![trigger out@.contains(column)]
            #![trigger is_column(sessions, *first, *last, column)]
            out@.contains(column) <==> is_column(sessions, *first, *last, column) by {
            if out@.contains(column) {
                assert(is_column_among(sessions, i as int, *first, *last, column));
            }
            if is_column(sessions, *first, *last, column) {
                assert(is_column_among(sessions, i as int, *first, *last, column));
            }
        }
        assert forall|k: int| 0 <= k < out@.len() implies out@[k].date.is_valid() by {
            assert(out@.contains(out@[k]));
            assert(is_column_among(sessions, i as int, *first, *last, out@[k]));
        }
    }
    out
}

/// The titles of the fixed fields.
pub open spec fn fixed_titles() -> Seq<CellView> {
    seq![
        CellView::Text("學號"@),
        CellView::Text("姓名"@),
        CellView::Text("累計題數(本學年度)"@),
        CellView::Text("最高題數(本學年度)"@),
    ]
}

/// The label of an exam type in the words of a sheet.
pub open spec fn kind_word(vocabulary: VocabularyView, kind: ExamType) -> Seq<char> {
    match kind {
        ExamType::Official => vocabulary.official,
        ExamType::School => vocabulary.school,
    }
}

/// The title of a session column: day and type, as the header of a score
/// sheet names the session.
pub open spec fn column_title(vocabulary: VocabularyView, column: Column) -> CellView {
    CellView::Text(title_text(iso_text_of(column.date), vocabulary, column.kind))
}

/// A count as a cell; a count too large for a cell is shown as the largest
/// number a cell holds.
pub open spec fn count_cell(count: int) -> CellView {
    CellView::Number {
        whole: if count <= i64::MAX {
            count
        } else {
            i64::MAX as int
        },
        exact: true,
    }
}

/// What a student's row shows under a session: their best score in it, or
/// nothing when they did not sit it.
pub open spec fn score_cell(history: Seq<SessionBest>, session: int) -> CellView {
    if has_best(history, session) {
        count_cell(history[best_index(history, session)].best as int)
    } else {
        CellView::Blank
    }
}

/// The header row of the table.
pub open spec fn header_row(vocabulary: VocabularyView, columns: Seq<Column>) -> Seq<CellView> {
    fixed_titles() + Seq::new(columns.len(), |k: int| column_title(vocabulary, columns[k]))
}

/// The row of one student.
pub open spec fn entry_row(entry: CohortEntryView, columns: Seq<Column>) -> Seq<CellView> {
    seq![
        CellView::Text(entry.student),
        CellView::Text(entry.name),
        count_cell(entry.total),
        count_cell(entry.max),
    ] + Seq::new(columns.len(), |k: int| score_cell(entry.history, columns[k].session as int))
}

/// The table: the header row, then one row for each student in the order
/// of the cohort.
pub open spec fn table_of(
    entries: Seq<CohortEntryView>,
    vocabulary: VocabularyView,
    columns: Seq<Column>,
) -> Seq<Seq<CellView>> {
    seq![header_row(vocabulary, columns)] + Seq::new(
        entries.len(),
        |i: int| entry_row(entries[i], columns),
    )
}

fn count_as_cell(count: u128) -> (r: Cell)
    ensures
        r@ == count_cell(count as int),
{
    if count <= i64::MAX as u128 {
        Cell::Number { whole: count as i64, exact: true }
    } else {
        Cell::Number { whole: i64::MAX, exact: true }
    }
}

fn score_as_cell(history: &Vec<SessionBest>, session: SessionKey) -> (r: Cell)
    ensures
        r@ == score_cell(history@, session as int),
{
    let mut i: usize = 0;
    while i < history.len()
        invariant
            i <= history.len(),
            forall|j: int| 0 <= j < i ==> history@[j].session != session,
        decreases history.len() - i,
    {
        if history[i].session == session {
            assert(best_index(history@, session as int) == i);
            return count_as_cell(history[i].best as u128);
        }
        i += 1;
    }
    Cell::Blank
}

/// The title of a session column, given the day as text.
pub open spec fn title_text(day: Seq<char>, vocabulary: VocabularyView, kind: ExamType) -> Seq<
    char,
> {
    day + seq![','] + kind_word(vocabulary, kind)
}

/// Writes the title of a session column from its day as text and its type.
pub fn session_title(day: &str, vocabulary: &Vocabulary, kind: ExamType) -> (r: String)
    ensures
        r@ == title_text(day@, vocabulary@, kind),
{
    let mut title = day.to_owned();
    proof {
        reveal_strlit(",");
    }
    title.append(",");
    match kind {
        ExamType::Official => title.append(vocabulary.official.as_str()),
        ExamType::School => title.append(vocabulary.school.as_str()),
    }
    assert(title@ =~= title_text(day@, vocabulary@, kind));
    title
}

fn title_cell(vocabulary: &Vocabulary, column: &Column) -> (r: Option<Cell>)
    ensures
        r is Some <==> column.date.is_valid(),
        r is Some ==> r->0@ == column_title(vocabulary@, *column),
{
    match column.date.to_iso() {
        Some(day) => Some(Cell::Text(session_title(day.as_str(), vocabulary, column.kind))),
        None => None,
    }
}

/// Lays the cohort out as a table. `None` when a column is dated with a day
/// that does not exist.
pub fn cohort_table(entries: &Vec<CohortEntry>, vocabulary: &Vocabulary, columns: &Vec<Column>) -> (r:
    Option<Vec<Vec<Cell>>>)
    ensures
        r is Some <==> (forall|k: int| 0 <= k < columns@.len() ==> columns@[k].date.is_valid()),
        r is Some ==> grid_view(r->0@) == table_of(entry_views(entries@), vocabulary@, columns@),
{
    let mut header: Vec<Cell> = Vec::new();
    header.push(Cell::Text("學號".to_owned()));
    header.push(Cell::Text("姓名".to_owned()));
    header.push(Cell::Text("累計題數(本學年度)".to_owned()));
    header.push(Cell::Text("最高題數(本學年度)".to_owned()));
    assert(row_view(header@) =~= fixed_titles());
    let mut k: usize = 0;
    while k < columns.len()
        invariant
            k <= columns.len(),
            forall|j: int| 0 <= j < k ==> columns@[j].date.is_valid(),
            row_view(header@) == fixed_titles() + Seq::new(
                k as nat,
                |j: int| column_title(vocabulary@, columns@[j]),
            ),
        decreases columns.len() - k,
    {
        let ghost prior = row_view(header@);
        match title_cell(vocabulary, &columns[k]) {
            Some(cell) => {
                header.push(cell);
                assert(row_view(header@) =~= prior.push(cell@));
                assert(row_view(header@) =~= fixed_titles() + Seq::new(
                    (k + 1) as nat,
                    |j: int| column_title(vocabulary@, columns@[j]),
                ));
            },
            None => {
                return None;
            },
        }
        k += 1;
    }
    let ghost views = entry_views(entries@);
    let mut table: Vec<Vec<Cell>> = Vec::new();
    table.push(header);
    assert(grid_view(table@) =~= seq![header_row(vocabulary@, columns@)]);
    let mut i: usize = 0;
    while i < entries.len()
        invariant
            i <= entries.len(),
            views == entry_views(entries@),
            grid_view(table@) == seq![header_row(vocabulary@, columns@)] + Seq::new(
                i as nat,
                |j: int| entry_row(views[j], columns@),
            ),
        decreases entries.len() - i,
    {
        let entry = &entries[i];
        assert(views[i as int] == entry@);
        let mut row: Vec<Cell> = Vec::new();
        row.push(Cell::Text(entry.student.clone()));
        row.push(Cell::Text(entry.name.clone()));
        row.push(count_as_cell(entry.total));
        row.push(count_as_cell(entry.max as u128));
        let ghost fixed = row_view(row@);
        assert(fixed =~= seq![
            CellView::Text(entry@.student),
            CellView::Text(entry@.name),
            count_cell(entry@.total),
            count_cell(entry@.max),
        ]);
        let mut c: usize = 0;
        while c < columns.len()
            invariant
                c <= columns.len(),
                row_view(row@) == fixed + Seq::new(
                    c as nat,
                    |j: int| score_cell(entry@.history, columns@[j].session as int),
                ),
            decreases columns.len() - c,
        {
            let ghost prior = row_view(row@);
            let cell = score_as_cell(&entry.history, columns[c].session);
            row.push(cell);
            assert(row_view(row@) =~= prior.push(cell@));
            assert(row_view(row@) =~= fixed + Seq::new(
                (c + 1) as nat,
                |j: int| score_cell(entry@.history, columns@[j].session as int),
            ));
            c += 1;
        }
        assert(row_view(row@) =~= entry_row(entry@, columns@));
        let ghost prior = grid_view(table@);
        table.push(row);
        assert(grid_view(table@) =~= prior.push(entry_row(entry@, columns@)));
        assert(grid_view(table@) =~= seq![header_row(vocabulary@, columns@)] + Seq::new(
            (i + 1) as nat,
            |j: int| entry_row(views[j], columns@),
        ));
        i += 1;
    }
    assert(grid_view(table@) =~= table_of(views, vocabulary@, columns@));
    Some(table)
}

/// The titles of all sessions, the session registered last first.
pub open spec fn titles_latest_first(
    sessions: Seq<ExamSessionView>,
    vocabulary: VocabularyView,
) -> Seq<Seq<char>> {
    Seq::new(
        sessions.len(),
        |i: int|
            title_text(
                iso_text_of(sessions[sessions.len() - 1 - i].date),
                vocabulary,
                sessions[sessions.len() - 1 - i].kind,
            ),
    )
}

/// Lists the titles of all sessions, the session registered last first.
pub fn session_titles(registry: &Registry, vocabulary: &Vocabulary) -> (r: Vec<String>)
    requires
        registry.wf(),
    ensures
        text_views(r@) == titles_latest_first(registry@, vocabulary@),
{
    let n = registry.len();
    let mut out: Vec<String> = Vec::new();
    let mut i: usize = 0;
    while i < n
        invariant
            i <= n,
            n == registry@.len(),
            registry.wf(),
            out@.len() == i,
            forall|j: int|
                0 <= j < i ==> (#[trigger] out@[j])@ == titles_latest_first(
                    registry@,
                    vocabulary@,
                )[j],
        decreases n - i,
    {
        let held = match registry.session(n - 1 - i) {
            Some(held) => held,
            None => unreached(),
        };
        let day = match held.date.to_iso() {
            Some(day) => day,
            None => unreached(),
        };
        out.push(session_title(day.as_str(), vocabulary, held.kind));
        i += 1;
    }
    assert(text_views(out@) =~= titles_latest_first(registry@, vocabulary@));
    out
}

} // verus!
