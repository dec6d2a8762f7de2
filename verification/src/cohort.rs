//! Year-over-year comparison: which students first met the pass rules
//! within a given academic year.
//!
//! Everything here is computed from score records, the rows of students who
//! sat an exam joined with the day of the exam. Nothing is written.

use crate::calendar::{academic_year_window, year_in_calendar, window_end, window_eve,
    window_start, Date, Window};
use crate::eligibility::{criteria_of, evaluate, Tally};
use crate::records::{ExamType, SessionKey};
use crate::calendar::iso_text_of;
use crate::order::{has_key, keys_ascending, lemma_insert_keeps_order, locate, Keyed};
use crate::text::{
    decimal_of, lemma_text_lt_transitive, lemma_text_order, text_lt, to_decimal,
};
use vstd::string::StringExecFns;
use vstd::prelude::*;

verus! {

/// One score of one student, with the student's name and the day and type
/// of the exam.
#[derive(Debug)]
pub struct ScoreRecord {
    pub student: String,
    pub name: String,
    pub session: SessionKey,
    pub date: Date,
    pub kind: ExamType,
    pub score: u32,
}

/// A score record as plain values.
pub struct ScoreRecordView {
    pub student: Seq<char>,
    pub name: Seq<char>,
    pub session: int,
    pub date: Date,
    pub kind: ExamType,
    pub score: int,
}

impl View for ScoreRecord {
    type V = ScoreRecordView;

    open spec fn view(&self) -> ScoreRecordView {
        ScoreRecordView {
            student: self.student@,
            name: self.name@,
            session: self.session as int,
            date: self.date,
            kind: self.kind,
            score: self.score as int,
        }
    }
}

/// The views of a run of score records, in order.
pub open spec fn record_views(records: Seq<ScoreRecord>) -> Seq<ScoreRecordView> {
    Seq::new(records.len(), |i: int| records[i]@)
}

/// The best score of one student in one session.
#[derive(Clone, Copy, Debug, PartialEq, Eq, Structural)]
pub struct SessionBest {
    pub session: SessionKey,
    pub date: Date,
    pub best: u32,
}

/// What a record contributes to `student`'s history up to and including
/// `cutoff`.
pub open spec fn counted_until(record: ScoreRecordView, student: Seq<char>, cutoff: Date) -> int {
    if record.student == student && record.date.spec_le(cutoff) {
        record.score
    } else {
        0
    }
}

/// The sum of `student`'s scores up to and including `cutoff`.
pub open spec fn total_until(records: Seq<ScoreRecordView>, student: Seq<char>, cutoff: Date) -> int
    decreases records.len(),
{
    if records.len() == 0 {
        0
    } else {
        total_until(records.drop_last(), student, cutoff) + counted_until(
            records.last(),
            student,
            cutoff,
        )
    }
}

/// The best score of `student` up to and including `cutoff`; zero when
/// there is none.
pub open spec fn max_until(records: Seq<ScoreRecordView>, student: Seq<char>, cutoff: Date) -> int
    decreases records.len(),
{
    if records.len() == 0 {
        0
    } else {
        let before = max_until(records.drop_last(), student, cutoff);
        let here = counted_until(records.last(), student, cutoff);
        if here > before {
            here
        } else {
            before
        }
    }
}

/// Whether `student` meets the pass rules on the strength of the records
/// up to and including `cutoff`.
pub open spec fn passed_by(records: Seq<ScoreRecordView>, student: Seq<char>, cutoff: Date) -> bool {
    criteria_of(
        total_until(records, student, cutoff),
        max_until(records, student, cutoff),
    ).spec_is_passed()
}

/// Whether `student` passes by the last day of the window without having
/// passed by the day before its first.
pub open spec fn newly_passed_in(
    records: Seq<ScoreRecordView>,
    student: Seq<char>,
    window: Window,
) -> bool {
    passed_by(records, student, window.end) && !passed_by(records, student, window.eve)
}

/// The records of `student`.
pub open spec fn of_student(student: Seq<char>) -> spec_fn(ScoreRecordView) -> bool {
    |record: ScoreRecordView| record.student == student
}

/// The records of `student` from `first` to `last`, both days included.
pub open spec fn of_student_within(student: Seq<char>, first: Date, last: Date) -> spec_fn(
    ScoreRecordView,
) -> bool {
    |record: ScoreRecordView|
        record.student == student && first.spec_le(record.date) && record.date.spec_le(last)
}

/// Some entry of the history is about this session.
pub open spec fn has_best(history: Seq<SessionBest>, session: int) -> bool {
    exists|i: int| 0 <= i < history.len() && history[i].session == session
}

/// Where the first entry about this session stands.
pub open spec fn best_index(history: Seq<SessionBest>, session: int) -> int {
    choose|i: int|
        0 <= i < history.len() && history[i].session == session && forall|j: int|
            0 <= j < i ==> history[j].session != session
}

/// No entry of the history stands before an entry of an earlier day.
pub open spec fn chronological(history: Seq<SessionBest>) -> bool {
    forall|i: int, j: int|
        0 <= i < j < history.len() ==> history[i].date.spec_le(history[j].date)
}

/// `place` is where a session held on `day` goes into a history: behind
/// every entry of that day or an earlier one that stands at the front, and
/// before the first entry of a later day.
pub open spec fn is_day_slot(history: Seq<SessionBest>, day: Date, place: int) -> bool {
    &&& 0 <= place <= history.len()
    &&& forall|j: int| 0 <= j < place ==> !day.spec_lt(history[j].date)
    &&& place < history.len() ==> day.spec_lt(history[place].date)
}

/// Where a session held on `day` goes into a history.
pub open spec fn day_slot(history: Seq<SessionBest>, day: Date) -> int {
    choose|place: int| is_day_slot(history, day, place)
}

/// The history with one more record taken in: a session seen for the first
/// time gets an entry of its own, put in by its day, behind the entries of
/// the same day that are there already; a session seen before keeps its
/// entry, with the larger of the two scores.
pub open spec fn merged(history: Seq<SessionBest>, record: ScoreRecordView) -> Seq<SessionBest> {
    if has_best(history, record.session) {
        let i = best_index(history, record.session);
        if record.score > history[i].best {
            history.update(i, SessionBest { best: record.score as u32, ..history[i] })
        } else {
            history
        }
    } else {
        history.insert(
            day_slot(history, record.date),
            SessionBest {
                session: record.session as SessionKey,
                date: record.date,
                best: record.score as u32,
            },
        )
    }
}

/// Taking one more record into a history in order of days leaves it in
/// order of days.
pub proof fn lemma_merged_chronological(history: Seq<SessionBest>, record: ScoreRecordView)
    requires
        chronological(history),
    ensures
        chronological(merged(history, record)),
{
    let after = merged(history, record);
    if has_best(history, record.session) {
        lemma_best_index_exists(history, record.session, 0);
        let i = best_index(history, record.session);
        assert forall|a: int, b: int| 0 <= a < b < after.len() implies after[a].date.spec_le(
            after[b].date,
        ) by {
            assert(after[a].date == history[a].date && after[b].date == history[b].date);
        }
    } else {
        lemma_day_slot_exists(history, record.date);
        let p = day_slot(history, record.date);
        assert forall|a: int, b: int| 0 <= a < b < after.len() implies after[a].date.spec_le(
            after[b].date,
        ) by {
            if b == p {
                assert(after[a] == history[a]);
            } else if a == p {
                assert(after[b] == history[b - 1]);
                assert(history[p].date.spec_le(history[b - 1].date) || b - 1 == p);
            } else if a < p && b > p {
                assert(after[a] == history[a] && after[b] == history[b - 1]);
            } else if b < p {
                assert(after[a] == history[a] && after[b] == history[b]);
            } else {
                assert(after[a] == history[a - 1] && after[b] == history[b - 1]);
            }
        }
    }
}

/// A session that has an entry has a first one.
proof fn lemma_best_index_exists(history: Seq<SessionBest>, session: int, from: int)
    requires
        has_best(history, session),
        0 <= from <= history.len(),
        forall|j: int| 0 <= j < from ==> history[j].session != session,
    ensures
        0 <= best_index(history, session) < history.len(),
        history[best_index(history, session)].session == session,
    decreases history.len() - from,
{
    if from < history.len() && history[from].session != session {
        lemma_best_index_exists(history, session, from + 1);
    } else {
        assert(from < history.len());
        assert(history[from].session == session && forall|j: int|
            0 <= j < from ==> history[j].session != session);
    }
}

/// Every history has a place for every day.
pub proof fn lemma_day_slot_exists(history: Seq<SessionBest>, day: Date)
    ensures
        is_day_slot(history, day, day_slot(history, day)),
{
    lemma_day_slot_from(history, day, 0);
}

/// Looking from `from` on, where all entries before are of `day` or an
/// earlier day, a place for `day` is found.
proof fn lemma_day_slot_from(history: Seq<SessionBest>, day: Date, from: int)
    requires
        0 <= from <= history.len(),
        forall|j: int| 0 <= j < from ==> !day.spec_lt(history[j].date),
    ensures
        exists|place: int| is_day_slot(history, day, place),
    decreases history.len() - from,
{
    if from < history.len() && !day.spec_lt(history[from].date) {
        lemma_day_slot_from(history, day, from + 1);
    } else {
        assert(is_day_slot(history, day, from));
    }
}

/// A history stands in order of days, whatever the order of the records.
pub proof fn lemma_history_chronological(
    records: Seq<ScoreRecordView>,
    pick: spec_fn(ScoreRecordView) -> bool,
)
    ensures
        chronological(history_of(records, pick)),
    decreases records.len(),
{
    if records.len() > 0 {
        lemma_history_chronological(records.drop_last(), pick);
        if pick(records.last()) {
            lemma_merged_chronological(history_of(records.drop_last(), pick), records.last());
        }
    }
}

/// The per-session history of the records that `pick` selects: one entry
/// for each session, with the day of the session's first record and the
/// best score among the session's records, in order of days; sessions of
/// one day stand in the order in which they first occur.
pub open spec fn history_of(
    records: Seq<ScoreRecordView>,
    pick: spec_fn(ScoreRecordView) -> bool,
) -> Seq<SessionBest>
    decreases records.len(),
{
    if records.len() == 0 {
        Seq::empty()
    } else {
        let before = history_of(records.drop_last(), pick);
        if pick(records.last()) {
            merged(before, records.last())
        } else {
            before
        }
    }
}

/// The sum of the best scores of a history.
pub open spec fn total_best(history: Seq<SessionBest>) -> int
    decreases history.len(),
{
    if history.len() == 0 {
        0
    } else {
        total_best(history.drop_last()) + history.last().best
    }
}

/// The largest of the best scores of a history; zero for an empty one.
pub open spec fn max_best(history: Seq<SessionBest>) -> int
    decreases history.len(),
{
    if history.len() == 0 {
        0
    } else {
        let before = max_best(history.drop_last());
        if history.last().best > before {
            history.last().best as int
        } else {
            before
        }
    }
}

/// The name on the first record of `student`.
pub open spec fn name_of(records: Seq<ScoreRecordView>, student: Seq<char>) -> Option<Seq<char>>
    decreases records.len(),
{
    if records.len() == 0 {
        None
    } else {
        match name_of(records.drop_last(), student) {
            Some(name) => Some(name),
            None => if records.last().student == student {
                Some(records.last().name)
            } else {
                None
            },
        }
    }
}

/// Adds up `student`'s records up to and including `cutoff`.
pub fn tally_until(records: &Vec<ScoreRecord>, student: &String, cutoff: &Date) -> (t: Tally)
    ensures
        t.total == total_until(record_views(records@), student@, *cutoff),
        t.max == max_until(record_views(records@), student@, *cutoff),
{
    let ghost views = record_views(records@);
    let mut total: u128 = 0;
    let mut max: u32 = 0;
    let mut i: usize = 0;
    while i < records.len()
        invariant
            i <= records.len(),
            views == record_views(records@),
            total == total_until(views.take(i as int), student@, *cutoff),
            max == max_until(views.take(i as int), student@, *cutoff),
            total <= i * 0x1_0000_0000,
        decreases records.len() - i,
    {
        proof {
            assert(views.take(i + 1).drop_last() =~= views.take(i as int));
            assert(views.take(i + 1).last() == records@[i as int]@);
        }
        let record = &records[i];
        if record.student == *student && record.date.le(cutoff) {
            total = total + record.score as u128;
            if record.score > max {
                max = record.score;
            }
        }
        i += 1;
    }
    proof {
        assert(views.take(records.len() as int) =~= views);
    }
    Tally { total, max }
}

/// Whether `student` passes by the last day of the window without having
/// passed by the day before its first.
pub fn is_newly_passed(records: &Vec<ScoreRecord>, student: &String, window: &Window) -> (r: bool)
    ensures
        r == newly_passed_in(record_views(records@), student@, *window),
{
    let through_end = evaluate(&tally_until(records, student, &window.end));
    let before = evaluate(&tally_until(records, student, &window.eve));
    through_end.is_passed() && !before.is_passed()
}

fn position_of_best(history: &Vec<SessionBest>, session: SessionKey) -> (r: Option<usize>)
    ensures
        r is Some <==> has_best(history@, session as int),
        r is Some ==> r->0 == best_index(history@, session as int) && r->0 < history@.len(),
{
    let mut i: usize = 0;
    while i < history.len()
        invariant
            i <= history.len(),
            forall|j: int| 0 <= j < i ==> history@[j].session != session,
        decreases history.len() - i,
    {
        if history[i].session == session {
            return Some(i);
        }
        i += 1;
    }
    None
}

fn merge(history: &mut Vec<SessionBest>, record: &ScoreRecord)
    ensures
        final(history)@ == merged(old(history)@, record@),
{
    match position_of_best(history, record.session) {
        Some(i) => {
            let entry = history[i];
            if record.score > entry.best {
                history.set(i, SessionBest { best: record.score, ..entry });
            }
        },
        None => {
            let mut p: usize = 0;
            while p < history.len() && !record.date.lt(&history[p].date)
                invariant
                    p <= history.len(),
                    history@ == old(history)@,
                    forall|j: int| 0 <= j < p ==> !record.date.spec_lt(history@[j].date),
                decreases history.len() - p,
            {
                p += 1;
            }
            proof {
                assert(is_day_slot(history@, record.date, p as int));
                let chosen = day_slot(history@, record.date);
                assert(is_day_slot(history@, record.date, chosen));
                assert(chosen == p);
            }
            history.insert(
                p,
                SessionBest { session: record.session, date: record.date, best: record.score },
            );
        },
    }
}

/// The sum and the largest of the best scores of a history.
pub fn tally_best(history: &Vec<SessionBest>) -> (t: Tally)
    ensures
        t.total == total_best(history@),
        t.max == max_best(history@),
{
    let mut total: u128 = 0;
    let mut max: u32 = 0;
    let mut i: usize = 0;
    while i < history.len()
        invariant
            i <= history.len(),
            total == total_best(history@.take(i as int)),
            max == max_best(history@.take(i as int)),
            total <= i * 0x1_0000_0000,
        decreases history.len() - i,
    {
        proof {
            assert(history@.take(i + 1).drop_last() =~= history@.take(i as int));
        }
        total = total + history[i].best as u128;
        if history[i].best > max {
            max = history[i].best;
        }
        i += 1;
    }
    proof {
        assert(history@.take(history.len() as int) =~= history@);
    }
    Tally { total, max }
}

/// The per-session history of `student` over all records.
pub fn lifetime_history(records: &Vec<ScoreRecord>, student: &String) -> (r: Vec<SessionBest>)
    ensures
        r@ == history_of(record_views(records@), of_student(student@)),
        chronological(r@),
{
    proof {
        lemma_history_chronological(record_views(records@), of_student(student@));
    }
    let ghost views = record_views(records@);
    let ghost pick = of_student(student@);
    let mut history: Vec<SessionBest> = Vec::new();
    let mut i: usize = 0;
    while i < records.len()
        invariant
            i <= records.len(),
            views == record_views(records@),
            pick == of_student(student@),
            history@ == history_of(views.take(i as int), pick),
        decreases records.len() - i,
    {
        proof {
            assert(views.take(i + 1).drop_last() =~= views.take(i as int));
            assert(views.take(i + 1).last() == records@[i as int]@);
        }
        if records[i].student == *student {
            merge(&mut history, &records[i]);
        }
        i += 1;
    }
    proof {
        assert(views.take(records.len() as int) =~= views);
    }
    history
}

/// The per-session history of `student` over the records dated from
/// `first` to `last`, both days included.
pub fn history_within(records: &Vec<ScoreRecord>, student: &String, first: &Date, last: &Date) -> (r:
    Vec<SessionBest>)
    ensures
        r@ == history_of(record_views(records@), of_student_within(student@, *first, *last)),
        chronological(r@),
{
    proof {
        lemma_history_chronological(
            record_views(records@),
            of_student_within(student@, *first, *last),
        );
    }
    let ghost views = record_views(records@);
    let ghost pick = of_student_within(student@, *first, *last);
    let mut history: Vec<SessionBest> = Vec::new();
    let mut i: usize = 0;
    while i < records.len()
        invariant
            i <= records.len(),
            views == record_views(records@),
            pick == of_student_within(student@, *first, *last),
            history@ == history_of(views.take(i as int), pick),
        decreases records.len() - i,
    {
        proof {
            assert(views.take(i + 1).drop_last() =~= views.take(i as int));
            assert(views.take(i + 1).last() == records@[i as int]@);
        }
        if records[i].student == *student && first.le(&records[i].date) && records[i].date.le(
            last,
        ) {
            merge(&mut history, &records[i]);
        }
        i += 1;
    }
    proof {
        assert(views.take(records.len() as int) =~= views);
    }
    history
}

/// One student of a cohort: who they are, what they scored within the
/// window, and their history over all time.
#[derive(Debug)]
pub struct CohortEntry {
    pub student: String,
    pub name: String,
    /// Sum of the best scores per session within the window.
    pub total: u128,
    /// Best score within the window.
    pub max: u32,
    /// Best score per session over all time.
    pub history: Vec<SessionBest>,
}

/// A cohort entry as plain values.
pub struct CohortEntryView {
    pub student: Seq<char>,
    pub name: Seq<char>,
    pub total: int,
    pub max: int,
    pub history: Seq<SessionBest>,
}

impl View for CohortEntry {
    type V = CohortEntryView;

    open spec fn view(&self) -> CohortEntryView {
        CohortEntryView {
            student: self.student@,
            name: self.name@,
            total: self.total as int,
            max: self.max as int,
            history: self.history@,
        }
    }
}

/// The views of a run of cohort entries, in order.
pub open spec fn entry_views(entries: Seq<CohortEntry>) -> Seq<CohortEntryView> {
    Seq::new(entries.len(), |i: int| entries[i]@)
}

/// What a cohort says about `student`.
pub open spec fn entry_of(
    records: Seq<ScoreRecordView>,
    student: Seq<char>,
    window: Window,
) -> CohortEntryView {
    let current = history_of(records, of_student_within(student, window.start, window.end));
    CohortEntryView {
        student,
        name: match name_of(records, student) {
            Some(name) => name,
            None => Seq::empty(),
        },
        total: total_best(current),
        max: max_best(current),
        history: history_of(records, of_student(student)),
    }
}

/// The entries stand in strictly ascending order of student identifier.
pub open spec fn ascending(entries: Seq<CohortEntryView>) -> bool {
    forall|i: int, j: int|
        0 <= i < j < entries.len() ==> text_lt(entries[i].student, entries[j].student)
}

/// Some entry is about this student.
pub open spec fn has_entry(entries: Seq<CohortEntryView>, student: Seq<char>) -> bool {
    exists|i: int| 0 <= i < entries.len() && entries[i].student == student
}

/// `entries` is the cohort of `window`: it holds exactly the students who
/// pass by the end of the window and had not passed before it, in ascending
/// order of identifier, each with the entry the records give them, and
/// each history in order of days.
pub open spec fn is_cohort(
    entries: Seq<CohortEntryView>,
    records: Seq<ScoreRecordView>,
    window: Window,
) -> bool {
    &&& ascending(entries)
    &&& forall|student: Seq<char>|
        #![trigger has_entry(entries, student)]
        #![trigger newly_passed_in(records, student, window)]
        has_entry(entries, student) <==> newly_passed_in(records, student, window)
    &&& forall|i: int|
        0 <= i < entries.len() ==> #[trigger] entries[i] == entry_of(
            records,
            entries[i].student,
            window,
        )
    &&& forall|i: int| 0 <= i < entries.len() ==> chronological((#[trigger] entries[i]).history)
}

/// A student without records has nothing to their name.
pub proof fn lemma_no_records_no_score(
    records: Seq<ScoreRecordView>,
    student: Seq<char>,
    cutoff: Date,
)
    requires
        forall|j: int| 0 <= j < records.len() ==> records[j].student != student,
    ensures
        total_until(records, student, cutoff) == 0,
        max_until(records, student, cutoff) == 0,
        !passed_by(records, student, cutoff),
    decreases records.len(),
{
    if records.len() > 0 {
        lemma_no_records_no_score(records.drop_last(), student, cutoff);
    }
}

/// Once a record of `student` was seen, later records do not change the
/// name.
pub proof fn lemma_name_stays(records: Seq<ScoreRecordView>, student: Seq<char>, k: int)
    requires
        0 <= k <= records.len(),
        name_of(records.take(k), student) is Some,
    ensures
        name_of(records, student) == name_of(records.take(k), student),
    decreases records.len(),
{
    if k < records.len() {
        assert(records.drop_last().take(k) =~= records.take(k));
        lemma_name_stays(records.drop_last(), student, k);
    } else {
        assert(records.take(k) =~= records);
    }
}

/// The name on the first record of `student`.
pub fn name_in(records: &Vec<ScoreRecord>, student: &String) -> (r: Option<String>)
    ensures
        match r {
            Some(name) => name_of(record_views(records@), student@) == Some(name@),
            None => name_of(record_views(records@), student@) is None,
        },
{
    let ghost views = record_views(records@);
    let mut i: usize = 0;
    while i < records.len()
        invariant
            i <= records.len(),
            views == record_views(records@),
            name_of(views.take(i as int), student@) is None,
        decreases records.len() - i,
    {
        proof {
            assert(views.take(i + 1).drop_last() =~= views.take(i as int));
            assert(views.take(i + 1).last() == records@[i as int]@);
        }
        if records[i].student == *student {
            proof {
                lemma_name_stays(views, student@, i + 1);
            }
            return Some(records[i].name.clone());
        }
        i += 1;
    }
    proof {
        assert(views.take(records.len() as int) =~= views);
    }
    None
}

/// The entry of `student` in the cohort of `window`.
pub fn entry_for(records: &Vec<ScoreRecord>, student: &String, window: &Window) -> (r: CohortEntry)
    ensures
        r@ == entry_of(record_views(records@), student@, *window),
        chronological(r@.history),
{
    let current = history_within(records, student, &window.start, &window.end);
    let tally = tally_best(&current);
    let name = match name_in(records, student) {
        Some(name) => name,
        None => String::new(),
    };
    CohortEntry {
        student: student.clone(),
        name,
        total: tally.total,
        max: tally.max,
        history: lifetime_history(records, student),
    }
}

impl Keyed for CohortEntry {
    open spec fn key(&self) -> Seq<char> {
        self.student@
    }

    fn key_text(&self) -> (r: &String) {
        &self.student
    }
}

/// The cohort of `window`: the students who pass by its last day and had
/// not passed by the day before its first, in ascending order of
/// identifier.
pub fn cohort_in(records: &Vec<ScoreRecord>, window: &Window) -> (r: Vec<CohortEntry>)
    ensures
        is_cohort(entry_views(r@), record_views(records@), *window),
{
    let ghost views = record_views(records@);
    let mut out: Vec<CohortEntry> = Vec::new();
    let mut i: usize = 0;
    while i < records.len()
        invariant
            i <= records.len(),
            views == record_views(records@),
            keys_ascending(out@),
            forall|k: int|
                0 <= k < out@.len() ==> newly_passed_in(
                    views,
                    (#[trigger] out@[k]).key(),
                    *window,
                ) && out@[k]@ == entry_of(views, out@[k].key(), *window),
            forall|j: int|
                0 <= j < i && newly_passed_in(views, (#[trigger] views[j]).student, *window)
                    ==> has_key(out@, views[j].student),
        decreases records.len() - i,
    {
        let student = &records[i].student;
        let (p, found) = locate(&out, student);
        if !found && is_newly_passed(records, student, window) {
            let entry = entry_for(records, student, window);
            let ghost before = out@;
            proof {
                lemma_insert_keeps_order(before, p as int, entry);
            }
            out.insert(p, entry);
            proof {
                assert forall|j: int|
                    0 <= j < i + 1 && newly_passed_in(
                        views,
                        (#[trigger] views[j]).student,
                        *window,
                    ) implies has_key(out@, views[j].student) by {
                    if j < i {
                        assert(has_key(before, views[j].student));
                    }
                }
            }
        }
        i += 1;
    }
    proof {
        let entries = entry_views(out@);
        assert forall|student: Seq<char>|
            #![trigger has_entry(entries, student)]
            #![trigger newly_passed_in(views, student, *window)]
            has_entry(entries, student) <==> newly_passed_in(views, student, *window) by {
            if has_entry(entries, student) {
                let k = choose|k: int| 0 <= k < entries.len() && entries[k].student == student;
                assert(out@[k].key() == student);
            }
            if newly_passed_in(views, student, *window) {
                if forall|j: int| 0 <= j < views.len() ==> views[j].student != student {
                    lemma_no_records_no_score(views, student, window.end);
                }
                let j = choose|j: int| 0 <= j < views.len() && views[j].student == student;
                assert(newly_passed_in(views, views[j].student, *window));
                assert(has_key(out@, student));
                let k = choose|k: int| 0 <= k < out@.len() && out@[k].key() == student;
                assert(entries[k].student == student);
            }
        }
        assert forall|a: int, b: int| 0 <= a < b < entries.len() implies text_lt(
            entries[a].student,
            entries[b].student,
        ) by {
            assert(text_lt(out@[a].key(), out@[b].key()));
        }
        assert forall|k: int| 0 <= k < entries.len() implies #[trigger] entries[k] == entry_of(
            views,
            entries[k].student,
            *window,
        ) by {
            assert(out@[k]@ == entry_of(views, out@[k].key(), *window));
        }
        assert forall|k: int| 0 <= k < entries.len() implies chronological(
            (#[trigger] entries[k]).history,
        ) by {
            assert(out@[k]@ == entry_of(views, out@[k].key(), *window));
            lemma_history_chronological(views, of_student(out@[k].key()));
        }
    }
    out
}

/// The span of academic year `year`.
pub open spec fn window_of(year: int) -> Window {
    Window { start: window_start(year), end: window_end(year), eve: window_eve(year) }
}

/// The students who first met the pass rules within academic year `year`:
/// passed by its last day, not passed by the day before its first. `None`
/// when the calendar does not reach that year.
pub fn newly_passed(records: &Vec<ScoreRecord>, year: u32) -> (r: Option<Vec<CohortEntry>>)
    ensures
        r is Some <==> year_in_calendar(year as int),
        r is Some ==> is_cohort(
            entry_views(r->0@),
            record_views(records@),
            window_of(year as int),
        ),
{
    match academic_year_window(year) {
        Some(window) => Some(cohort_in(records, &window)),
        None => None,
    }
}

/// Entries in ascending order that are about the same students are about
/// them in the same places.
pub proof fn lemma_ascending_same_students(a: Seq<CohortEntryView>, b: Seq<CohortEntryView>)
    requires
        ascending(a),
        ascending(b),
        forall|student: Seq<char>|
            #![trigger has_entry(a, student)]
            #![trigger has_entry(b, student)]
            has_entry(a, student) <==> has_entry(b, student),
    ensures
        a.len() == b.len(),
        forall|i: int| 0 <= i < a.len() ==> a[i].student == b[i].student,
    decreases a.len(),
{
    if a.len() == 0 {
        if b.len() > 0 {
            assert(has_entry(b, b[0].student));
            assert(has_entry(a, b[0].student));
        }
    } else if b.len() == 0 {
        assert(has_entry(a, a[0].student));
        assert(has_entry(b, a[0].student));
    } else {
        let la = a.last().student;
        let lb = b.last().student;
        assert(has_entry(a, la));
        assert(has_entry(b, la));
        let j = choose|j: int| 0 <= j < b.len() && b[j].student == la;
        assert(has_entry(b, lb));
        assert(has_entry(a, lb));
        let k = choose|k: int| 0 <= k < a.len() && a[k].student == lb;
        lemma_text_order(la, la);
        if j < b.len() - 1 {
            assert(text_lt(la, lb));
            if k < a.len() - 1 {
                assert(text_lt(lb, la));
                lemma_text_lt_transitive(la, lb, la);
            }
        }
        assert(la == lb);
        let ra = a.drop_last();
        let rb = b.drop_last();
        assert forall|student: Seq<char>|
            #![trigger has_entry(ra, student)]
            #![trigger has_entry(rb, student)]
            has_entry(ra, student) <==> has_entry(rb, student) by {
            if has_entry(ra, student) {
                let i = choose|i: int| 0 <= i < ra.len() && ra[i].student == student;
                assert(a[i].student == student);
                assert(text_lt(student, la));
                assert(has_entry(a, student));
                assert(has_entry(b, student));
                let m = choose|m: int| 0 <= m < b.len() && b[m].student == student;
                if m == b.len() - 1 {
                    lemma_text_order(la, la);
                }
                assert(rb[m].student == student);
            }
            if has_entry(rb, student) {
                let i = choose|i: int| 0 <= i < rb.len() && rb[i].student == student;
                assert(b[i].student == student);
                assert(text_lt(student, lb));
                assert(has_entry(b, student));
                assert(has_entry(a, student));
                let m = choose|m: int| 0 <= m < a.len() && a[m].student == student;
                if m == a.len() - 1 {
                    lemma_text_order(lb, lb);
                }
                assert(ra[m].student == student);
            }
        }
        lemma_ascending_same_students(ra, rb);
        assert forall|i: int| 0 <= i < a.len() implies a[i].student == b[i].student by {
            if i < a.len() - 1 {
                assert(ra[i].student == rb[i].student);
            }
        }
    }
}

/// The records and the window leave no choice: there is one cohort, so
/// running the comparison again on the same records gives the same answer.
pub proof fn lemma_cohort_unique(
    a: Seq<CohortEntryView>,
    b: Seq<CohortEntryView>,
    records: Seq<ScoreRecordView>,
    window: Window,
)
    requires
        is_cohort(a, records, window),
        is_cohort(b, records, window),
    ensures
        a == b,
{
    assert forall|student: Seq<char>|
        #![trigger has_entry(a, student)]
        #![trigger has_entry(b, student)]
        has_entry(a, student) <==> has_entry(b, student) by {
        if has_entry(a, student) {
            assert(newly_passed_in(records, student, window));
        }
        if has_entry(b, student) {
            assert(newly_passed_in(records, student, window));
        }
    }
    lemma_ascending_same_students(a, b);
    assert forall|i: int| 0 <= i < a.len() implies a[i] == b[i] by {
        assert(a[i] == entry_of(records, a[i].student, window));
        assert(b[i] == entry_of(records, b[i].student, window));
    }
    assert(a =~= b);
}

/// A student who had not passed by the day before the window and passes by
/// its last day is in the cohort; a student who had passed before the
/// window is not, whatever they did within it.
pub proof fn lemma_cohort_membership(
    entries: Seq<CohortEntryView>,
    records: Seq<ScoreRecordView>,
    window: Window,
    student: Seq<char>,
)
    requires
        is_cohort(entries, records, window),
    ensures
        !passed_by(records, student, window.eve) && passed_by(records, student, window.end)
            ==> has_entry(entries, student),
        passed_by(records, student, window.eve) ==> !has_entry(entries, student),
{
    if has_entry(entries, student) {
        assert(newly_passed_in(records, student, window));
    }
    if newly_passed_in(records, student, window) {
        assert(has_entry(entries, student));
    }
}

/// How one entry of a history is written: the day, and the score in
/// brackets behind it.
pub open spec fn entry_text(day: Seq<char>, score: int) -> Seq<char> {
    day + seq!['('] + decimal_of(score as nat) + seq![')']
}

/// The first `n` of a run of days with scores written out one after the
/// other, those with a score of zero left out, with a comma and a space
/// between two entries.
pub open spec fn written(parts: Seq<(Seq<char>, int)>, n: nat) -> Seq<char>
    decreases n,
{
    if n == 0 {
        Seq::empty()
    } else {
        let before = written(parts, (n - 1) as nat);
        let (day, score) = parts[n - 1];
        if score == 0 {
            before
        } else if before.len() == 0 {
            entry_text(day, score)
        } else {
            before + seq![',', ' '] + entry_text(day, score)
        }
    }
}

/// The days of a history as `chrono` prints them, each with the best score
/// of the day's session.
pub open spec fn history_parts(history: Seq<SessionBest>) -> Seq<(Seq<char>, int)> {
    Seq::new(history.len(), |i: int| (iso_text_of(history[i].date), history[i].best as int))
}

/// A history written out.
pub open spec fn history_text(history: Seq<SessionBest>) -> Seq<char> {
    written(history_parts(history), history.len())
}

/// The views of a run of days with scores, in order.
pub open spec fn part_views(parts: Seq<(String, u32)>) -> Seq<(Seq<char>, int)> {
    Seq::new(parts.len(), |i: int| (parts[i].0@, parts[i].1 as int))
}

/// Writes a run of days with scores out.
pub fn write_parts(parts: &Vec<(String, u32)>) -> (r: String)
    ensures
        r@ == written(part_views(parts@), parts@.len()),
{
    let mut out = String::new();
    let mut i: usize = 0;
    proof {
        reveal_strlit("(");
        reveal_strlit(")");
        reveal_strlit(", ");
    }
    while i < parts.len()
        invariant
            i <= parts.len(),
            out@ == written(part_views(parts@), i as nat),
            "("@ == seq!['('],
            ")"@ == seq![')'],
            ", "@ == seq![',', ' '],
        decreases parts.len() - i,
    {
        let score = parts[i].1;
        assert(part_views(parts@)[i as int] == (parts@[i as int].0@, score as int));
        if score != 0 {
            if out.as_str().unicode_len() != 0 {
                out.append(", ");
            }
            out.append(parts[i].0.as_str());
            out.append("(");
            out.append(to_decimal(score as u128).as_str());
            out.append(")");
            assert(out@ =~= written(part_views(parts@), (i + 1) as nat));
        }
        i += 1;
    }
    out
}

/// Writes a history out. `None` when one of its days is no day of the
/// calendar.
pub fn render_history(history: &Vec<SessionBest>) -> (r: Option<String>)
    ensures
        r is Some <==> (forall|i: int| 0 <= i < history@.len() ==> history@[i].date.is_valid()),
        r is Some ==> r->0@ == history_text(history@),
{
    let mut parts: Vec<(String, u32)> = Vec::new();
    let mut i: usize = 0;
    while i < history.len()
        invariant
            i <= history.len(),
            parts@.len() == i,
            forall|j: int| 0 <= j < i ==> history@[j].date.is_valid(),
            forall|j: int|
                0 <= j < i ==> (#[trigger] parts@[j]).0@ == iso_text_of(history@[j].date)
                    && parts@[j].1 == history@[j].best,
        decreases history.len() - i,
    {
        match history[i].date.to_iso() {
            Some(day) => {
                parts.push((day, history[i].best));
            },
            None => {
                return None;
            },
        }
        i += 1;
    }
    assert(part_views(parts@) =~= history_parts(history@));
    Some(write_parts(&parts))
}

} // verus!
