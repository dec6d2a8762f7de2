//! Lists of scholarships: those still open, in the order of the students,
//! and those paid out, latest first.

use crate::calendar::{iso_text_of, Date};
use crate::cohort::{record_views, ScoreRecord, ScoreRecordView};
use crate::forms::Coverage;
use crate::order::{has_key, keys_ascending, lemma_insert_keeps_order, locate, Keyed};
use crate::records::ExamType;
use crate::roster::{has_student, student_index, Roster, StudentView};
use crate::scholarship::{
    has_award, ClaimedScholarshipRow, ScholarshipBook, ScholarshipRecordView, ScholarshipRow,
    CLAIM_THRESHOLD,
};
use crate::text::{optional_text, text_lt};
use vstd::prelude::*;

verus! {

/// A scholarship that a student could claim: their best result in an
/// official exam.
#[derive(Debug)]
pub struct OpenClaim {
    pub student: String,
    pub name: String,
    pub correct_answers: u32,
    pub exam_date: Date,
}

/// An open claim as plain values.
pub struct OpenClaimView {
    pub student: Seq<char>,
    pub name: Seq<char>,
    pub correct_answers: int,
    pub exam_date: Date,
}

impl View for OpenClaim {
    type V = OpenClaimView;

    open spec fn view(&self) -> OpenClaimView {
        OpenClaimView {
            student: self.student@,
            name: self.name@,
            correct_answers: self.correct_answers as int,
            exam_date: self.exam_date,
        }
    }
}

impl Keyed for OpenClaim {
    open spec fn key(&self) -> Seq<char> {
        self.student@
    }

    fn key_text(&self) -> (r: &String) {
        &self.student
    }
}

/// The views of a run of open claims, in order.
pub open spec fn open_claim_views(claims: Seq<OpenClaim>) -> Seq<OpenClaimView> {
    Seq::new(claims.len(), |i: int| claims[i]@)
}

/// Whether a record is a result of `student` that a scholarship can rest
/// on: an official exam with at least [`CLAIM_THRESHOLD`] correct answers.
pub open spec fn qualifies(student: Seq<char>, record: ScoreRecordView) -> bool {
    record.student == student && record.kind == ExamType::Official && record.score
        >= CLAIM_THRESHOLD
}

/// Whether result `a` is better than result `b`: more correct answers, or
/// as many in a later exam.
pub open spec fn outranks(a: ScoreRecordView, b: ScoreRecordView) -> bool {
    a.score > b.score || (a.score == b.score && b.date.spec_lt(a.date))
}

/// Among the first `n` records, the position of the best result of
/// `student` that a scholarship can rest on; of several equally good ones
/// the first.
pub open spec fn best_claim(records: Seq<ScoreRecordView>, student: Seq<char>, n: nat) -> Option<
    int,
>
    decreases n,
{
    if n == 0 {
        None
    } else {
        let before = best_claim(records, student, (n - 1) as nat);
        let record = records[n - 1];
        if qualifies(student, record) {
            match before {
                Some(b) => if outranks(record, records[b]) {
                    Some(n - 1)
                } else {
                    before
                },
                None => Some(n - 1),
            }
        } else {
            before
        }
    }
}

/// Whether `student` could claim a scholarship: they have none, and they
/// have a result that one can rest on.
pub open spec fn is_open(
    records: Seq<ScoreRecordView>,
    awards: Seq<ScholarshipRecordView>,
    student: Seq<char>,
) -> bool {
    !has_award(awards, student) && best_claim(records, student, records.len()) is Some
}

/// The open claim of `student`.
pub open spec fn open_claim_of(records: Seq<ScoreRecordView>, student: Seq<char>) -> OpenClaimView {
    let best = records[best_claim(records, student, records.len())->0];
    OpenClaimView {
        student,
        name: best.name,
        correct_answers: best.score,
        exam_date: best.date,
    }
}

/// The claims stand in strictly ascending order of student identifier.
pub open spec fn claims_ascending(claims: Seq<OpenClaimView>) -> bool {
    forall|i: int, j: int|
        0 <= i < j < claims.len() ==> text_lt(claims[i].student, claims[j].student)
}

/// Some claim is about this student.
pub open spec fn has_claim(claims: Seq<OpenClaimView>, student: Seq<char>) -> bool {
    exists|i: int| 0 <= i < claims.len() && claims[i].student == student
}

/// `claims` are the open claims: one for each student who could claim a
/// scholarship and for nobody else, in ascending order of identifier, each
/// resting on the student's best result.
pub open spec fn are_open_claims(
    claims: Seq<OpenClaimView>,
    records: Seq<ScoreRecordView>,
    awards: Seq<ScholarshipRecordView>,
) -> bool {
    &&& claims_ascending(claims)
    &&& forall|student: Seq<char>|
        #![trigger has_claim(claims, student)]
        #![trigger is_open(records, awards, student)]
        has_claim(claims, student) <==> is_open(records, awards, student)
    &&& forall|i: int|
        0 <= i < claims.len() ==> #[trigger] claims[i] == open_claim_of(
            records,
            claims[i].student,
        )
}

/// The best result is one of the student's results that a scholarship can
/// rest on.
pub proof fn lemma_best_claim_qualifies(records: Seq<ScoreRecordView>, student: Seq<char>, n: nat)
    requires
        n <= records.len(),
    ensures
        match best_claim(records, student, n) {
            Some(b) => 0 <= b < n && qualifies(student, records[b]),
            None => forall|j: int| 0 <= j < n ==> !qualifies(student, records[j]),
        },
    decreases n,
{
    if n > 0 {
        lemma_best_claim_qualifies(records, student, (n - 1) as nat);
    }
}

/// Finds the best result of `student` that a scholarship can rest on.
pub fn find_best_claim(records: &Vec<ScoreRecord>, student: &String) -> (r: Option<usize>)
    ensures
        match r {
            Some(b) => best_claim(record_views(records@), student@, records@.len()) == Some(
                b as int,
            ) && b < records@.len(),
            None => best_claim(record_views(records@), student@, records@.len()) is None,
        },
{
    let ghost views = record_views(records@);
    let mut best: Option<usize> = None;
    let mut i: usize = 0;
    while i < records.len()
        invariant
            i <= records.len(),
            views == record_views(records@),
            match best {
                Some(b) => best_claim(views, student@, i as nat) == Some(b as int) && b < i,
                None => best_claim(views, student@, i as nat) is None,
            },
        decreases records.len() - i,
    {
        let record = &records[i];
        assert(views[i as int] == record@);
        if record.student == *student && record.kind == ExamType::Official && record.score
            >= CLAIM_THRESHOLD {
            let better = match best {
                Some(b) => {
                    let held = &records[b];
                    assert(views[b as int] == held@);
                    record.score > held.score || (record.score == held.score && held.date.lt(
                        &record.date,
                    ))
                },
                None => true,
            };
            if better {
                best = Some(i);
            }
        }
        i += 1;
    }
    best
}

/// The scholarships still open: for each student without a scholarship who
/// has a result that one can rest on, their best such result.
pub fn open_claims(records: &Vec<ScoreRecord>, book: &ScholarshipBook) -> (r: Vec<OpenClaim>)
    ensures
        are_open_claims(open_claim_views(r@), record_views(records@), book@),
{
    let ghost views = record_views(records@);
    let mut out: Vec<OpenClaim> = Vec::new();
    let mut i: usize = 0;
    while i < records.len()
        invariant
            i <= records.len(),
            views == record_views(records@),
            keys_ascending(out@),
            forall|k: int|
                0 <= k < out@.len() ==> is_open(views, book@, (#[trigger] out@[k]).key())
                    && out@[k]@ == open_claim_of(views, out@[k].key()),
            forall|j: int|
                0 <= j < i && is_open(views, book@, (#[trigger] views[j]).student) ==> has_key(
                    out@,
                    views[j].student,
                ),
        decreases records.len() - i,
    {
        let student = &records[i].student;
        assert(views[i as int].student == student@);
        let (p, found) = locate(&out, student);
        let ghost before = out@;
        if !found && !book.contains(student.as_str()) {
            match find_best_claim(records, student) {
                Some(b) => {
                    let best = &records[b];
                    assert(views[b as int] == best@);
                    let entry = OpenClaim {
                        student: student.clone(),
                        name: best.name.clone(),
                        correct_answers: best.score,
                        exam_date: best.date,
                    };
                    proof {
                        lemma_insert_keeps_order(before, p as int, entry);
                    }
                    out.insert(p, entry);
                },
                None => {},
            }
        }
        proof {
            assert forall|j: int|
                0 <= j < i + 1 && is_open(
                    views,
                    book@,
                    (#[trigger] views[j]).student,
                ) implies has_key(out@, views[j].student) by {
                if j < i {
                    assert(has_key(before, views[j].student));
                }
            }
        }
        i += 1;
    }
    proof {
        let claims = open_claim_views(out@);
        assert forall|student: Seq<char>|
            #![trigger has_claim(claims, student)]
            #![trigger is_open(views, book@, student)]
            has_claim(claims, student) <==> is_open(views, book@, student) by {
            if has_claim(claims, student) {
                let k = choose|k: int| 0 <= k < claims.len() && claims[k].student == student;
                assert(out@[k].key() == student);
            }
            if is_open(views, book@, student) {
                lemma_best_claim_qualifies(views, student, views.len());
                let b = best_claim(views, student, views.len())->0;
                assert(views[b].student == student);
                assert(is_open(views, book@, views[b].student));
                assert(has_key(out@, student));
                let k = choose|k: int| 0 <= k < out@.len() && out@[k].key() == student;
                assert(claims[k].student == student);
            }
        }
        assert forall|a: int, b: int| 0 <= a < b < claims.len() implies text_lt(
            claims[a].student,
            claims[b].student,
        ) by {
            assert(text_lt(out@[a].key(), out@[b].key()));
        }
        assert forall|k: int| 0 <= k < claims.len() implies #[trigger] claims[k] == open_claim_of(
            views,
            claims[k].student,
        ) by {
            assert(out@[k]@ == open_claim_of(views, out@[k].key()));
        }
    }
    out
}

/// Whether a query covers a day.
pub open spec fn covers(coverage: Coverage, day: Date) -> bool {
    match coverage {
        Coverage::Always => true,
        Coverage::Within(span) => span.spec_contains(day),
        Coverage::Never => false,
    }
}

/// Whether a record shows `student` with exactly `correct` correct answers
/// in an exam held no later than `received`.
pub open spec fn backs(
    record: ScoreRecordView,
    student: Seq<char>,
    correct: int,
    received: Date,
) -> bool {
    record.student == student && record.score == correct && record.date.spec_le(received)
}

/// Among the first `n` records, the day of the latest exam that backs a
/// scholarship of `student` for `correct` correct answers received on
/// `received`.
pub open spec fn exam_day_of(
    records: Seq<ScoreRecordView>,
    student: Seq<char>,
    correct: int,
    received: Date,
    n: nat,
) -> Option<Date>
    decreases n,
{
    if n == 0 {
        None
    } else {
        let before = exam_day_of(records, student, correct, received, (n - 1) as nat);
        let record = records[n - 1];
        if backs(record, student, correct, received) {
            match before {
                Some(day) => if day.spec_lt(record.date) {
                    Some(record.date)
                } else {
                    before
                },
                None => Some(record.date),
            }
        } else {
            before
        }
    }
}

/// One scholarship paid out, with the name of the student and the day of
/// the exam it rests on, where one is on record.
#[derive(Debug)]
pub struct Payment {
    pub student: String,
    pub name: String,
    pub correct_answers: u32,
    pub received: Date,
    pub exam_date: Option<Date>,
    pub amount: u32,
    pub notes: Option<String>,
}

/// A payment as plain values.
pub struct PaymentView {
    pub student: Seq<char>,
    pub name: Seq<char>,
    pub correct_answers: int,
    pub received: Date,
    pub exam_date: Option<Date>,
    pub amount: int,
    pub notes: Option<Seq<char>>,
}

impl View for Payment {
    type V = PaymentView;

    open spec fn view(&self) -> PaymentView {
        PaymentView {
            student: self.student@,
            name: self.name@,
            correct_answers: self.correct_answers as int,
            received: self.received,
            exam_date: self.exam_date,
            amount: self.amount as int,
            notes: optional_text(self.notes),
        }
    }
}

/// The views of a run of payments, in order.
pub open spec fn payment_views(payments: Seq<Payment>) -> Seq<PaymentView> {
    Seq::new(payments.len(), |i: int| payments[i]@)
}

/// The payment that a record stands for.
pub open spec fn payment_of(
    record: ScholarshipRecordView,
    students: Seq<StudentView>,
    exams: Seq<ScoreRecordView>,
) -> PaymentView {
    PaymentView {
        student: record.student,
        name: students[student_index(students, record.student)].name,
        correct_answers: record.correct_answers,
        received: record.received,
        exam_date: exam_day_of(
            exams,
            record.student,
            record.correct_answers,
            record.received,
            exams.len(),
        ),
        amount: record.amount,
        notes: record.notes,
    }
}

/// `place` is where a payment received on `received` goes among payments
/// that stand latest first: behind every payment that is not earlier, and
/// before the first that is.
pub open spec fn is_slot(payments: Seq<PaymentView>, received: Date, place: int) -> bool {
    &&& 0 <= place <= payments.len()
    &&& forall|j: int| 0 <= j < place ==> !payments[j].received.spec_lt(received)
    &&& place < payments.len() ==> payments[place].received.spec_lt(received)
}

/// Where a payment received on `received` goes.
pub open spec fn slot_of(payments: Seq<PaymentView>, received: Date) -> int {
    choose|place: int| is_slot(payments, received, place)
}

/// The payments that the first `n` records of the book stand for, as far
/// as the query covers their day of receipt and their student is on the
/// roster: latest first, and payments of one day in the order of the book.
pub open spec fn payments_of(
    book: Seq<ScholarshipRecordView>,
    students: Seq<StudentView>,
    exams: Seq<ScoreRecordView>,
    coverage: Coverage,
    n: nat,
) -> Seq<PaymentView>
    decreases n,
{
    if n == 0 {
        Seq::empty()
    } else {
        let before = payments_of(book, students, exams, coverage, (n - 1) as nat);
        let record = book[n - 1];
        if covers(coverage, record.received) && has_student(students, record.student) {
            before.insert(
                slot_of(before, record.received),
                payment_of(record, students, exams),
            )
        } else {
            before
        }
    }
}

/// No payment stands before a later one.
pub open spec fn latest_first(payments: Seq<PaymentView>) -> bool {
    forall|i: int, j: int|
        0 <= i < j < payments.len() ==> !payments[i].received.spec_lt(payments[j].received)
}

/// Finds the day of the latest exam that backs a scholarship.
pub fn find_exam_day(records: &Vec<ScoreRecord>, student: &String, correct: u32, received: &Date) -> (r:
    Option<Date>)
    ensures
        r == exam_day_of(
            record_views(records@),
            student@,
            correct as int,
            *received,
            records@.len(),
        ),
{
    let ghost views = record_views(records@);
    let mut latest: Option<Date> = None;
    let mut i: usize = 0;
    while i < records.len()
        invariant
            i <= records.len(),
            views == record_views(records@),
            latest == exam_day_of(views, student@, correct as int, *received, i as nat),
        decreases records.len() - i,
    {
        let record = &records[i];
        assert(views[i as int] == record@);
        if record.student == *student && record.score == correct && record.date.le(received) {
            let later = match latest {
                Some(day) => day.lt(&record.date),
                None => true,
            };
            if later {
                latest = Some(record.date);
            }
        }
        i += 1;
    }
    latest
}

fn covered(coverage: &Coverage, day: Date) -> (r: bool)
    ensures
        r == covers(*coverage, day),
{
    match coverage {
        Coverage::Always => true,
        Coverage::Within(span) => span.contains(day),
        Coverage::Never => false,
    }
}

/// The scholarships paid out on the days that a query covers, latest
/// first.
pub fn payments(
    book: &ScholarshipBook,
    roster: &Roster,
    exams: &Vec<ScoreRecord>,
    coverage: &Coverage,
) -> (r: Vec<Payment>)
    requires
        roster.wf(),
    ensures
        payment_views(r@) == payments_of(
            book@,
            roster@,
            record_views(exams@),
            *coverage,
            book@.len(),
        ),
        latest_first(payment_views(r@)),
{
    let mut out: Vec<Payment> = Vec::new();
    let mut i: usize = 0;
    assert(payment_views(out@) =~= Seq::<PaymentView>::empty());
    while i < book.len()
        invariant
            i <= book@.len(),
            roster.wf(),
            payment_views(out@) == payments_of(
                book@,
                roster@,
                record_views(exams@),
                *coverage,
                i as nat,
            ),
            latest_first(payment_views(out@)),
        decreases book@.len() - i,
    {
        let ghost before = payment_views(out@);
        let mut next: Option<Payment> = None;
        match book.record(i) {
            Some(record) => {
                if covered(coverage, record.received) {
                    match roster.position_of(&record.student) {
                        Some(at) => match roster.student(at) {
                            Some(student) => {
                                next = Some(
                                    Payment {
                                        student: record.student.clone(),
                                        name: student.name.clone(),
                                        correct_answers: record.correct_answers,
                                        received: record.received,
                                        exam_date: find_exam_day(
                                            exams,
                                            &record.student,
                                            record.correct_answers,
                                            &record.received,
                                        ),
                                        amount: record.amount,
                                        notes: match &record.notes {
                                            Some(text) => Some(text.clone()),
                                            None => None,
                                        },
                                    },
                                );
                            },
                            None => {},
                        },
                        None => {},
                    }
                }
            },
            None => {},
        }
        match next {
            Some(payment) => {
                assert(payment@ == payment_of(book@[i as int], roster@, record_views(exams@)));
                let mut p: usize = 0;
                while p < out.len() && !out[p].received.lt(&payment.received)
                    invariant
                        p <= out.len(),
                        before == payment_views(out@),
                        forall|j: int|
                            0 <= j < p ==> !before[j].received.spec_lt(payment.received),
                    decreases out.len() - p,
                {
                    assert(before[p as int] == out@[p as int]@);
                    p += 1;
                }
                proof {
                    if p < out.len() {
                        assert(before[p as int] == out@[p as int]@);
                    }
                    assert(is_slot(before, payment.received, p as int));
                    let chosen = slot_of(before, payment.received);
                    assert(is_slot(before, payment.received, chosen));
                    assert(chosen == p);
                }
                out.insert(p, payment);
                proof {
                    let after = payment_views(out@);
                    assert(after =~= before.insert(p as int, payment@));
                    assert forall|a: int, b: int| 0 <= a < b < after.len() implies !after[a]
                        .received.spec_lt(after[b].received) by {
                        if b == p {
                            assert(after[a] == before[a]);
                        } else if a == p {
                            assert(after[b] == before[b - 1]);
                            assert(before[p as int].received.spec_lt(payment.received));
                            if b - 1 > p {
                                assert(!before[p as int].received.spec_lt(before[b - 1].received));
                            }
                        } else if a < p && b > p {
                            assert(after[a] == before[a] && after[b] == before[b - 1]);
                        } else if b < p {
                            assert(after[a] == before[a] && after[b] == before[b]);
                        } else {
                            assert(after[a] == before[a - 1] && after[b] == before[b - 1]);
                        }
                    }
                }
            },
            None => {},
        }
        i += 1;
    }
    out
}

impl Payment {
    /// The payment as a row that shows the day of receipt. `None` when that
    /// day does not exist.
    pub fn receipt_row(&self) -> (r: Option<ClaimedScholarshipRow>)
        ensures
            r is Some <==> self.received.is_valid(),
            r is Some ==> {
                &&& r->0.student_id@ == self@.student
                &&& r->0.name@ == self@.name
                &&& r->0.correct_answers_count == self.correct_answers
                &&& r->0.exam_date@ == iso_text_of(self.received)
                &&& r->0.scholarship_amount == self.amount
                &&& optional_text(r->0.notes) == self@.notes
            },
    {
        match self.received.to_iso() {
            Some(day) => Some(
                ClaimedScholarshipRow {
                    student_id: self.student.clone(),
                    name: self.name.clone(),
                    correct_answers_count: self.correct_answers,
                    exam_date: day,
                    scholarship_amount: self.amount,
                    notes: match &self.notes {
                        Some(text) => Some(text.clone()),
                        None => None,
                    },
                },
            ),
            None => None,
        }
    }

    /// The day that a row shows for the exam: the day of the exam on
    /// record, or the day of receipt where none is.
    pub open spec fn shown_exam_day(&self) -> Date {
        match self.exam_date {
            Some(day) => day,
            None => self.received,
        }
    }

    /// The payment as a row among scholarships of both kinds. `None` when a
    /// day of it does not exist.
    pub fn row(&self) -> (r: Option<ScholarshipRow>)
        ensures
            r is Some <==> self.received.is_valid() && self.shown_exam_day().is_valid(),
            r is Some ==> {
                &&& r->0.student_id@ == self@.student
                &&& r->0.name@ == self@.name
                &&& r->0.correct_answers_count == self.correct_answers
                &&& r->0.exam_date@ == iso_text_of(self.shown_exam_day())
                &&& r->0.scholarship_amount == Some(self.amount)
                &&& optional_text(r->0.notes) == self@.notes
                &&& r->0.claimed
                &&& optional_text(r->0.received_date) == Some(iso_text_of(self.received))
            },
    {
        let shown = match self.exam_date {
            Some(day) => day,
            None => self.received,
        };
        match (self.received.to_iso(), shown.to_iso()) {
            (Some(received), Some(exam)) => Some(
                ScholarshipRow {
                    student_id: self.student.clone(),
                    name: self.name.clone(),
                    correct_answers_count: self.correct_answers,
                    exam_date: exam,
                    scholarship_amount: Some(self.amount),
                    notes: match &self.notes {
                        Some(text) => Some(text.clone()),
                        None => None,
                    },
                    claimed: true,
                    received_date: Some(received),
                },
            ),
            _ => None,
        }
    }
}

impl OpenClaim {
    /// The claim as a row among scholarships of both kinds. `None` when the
    /// day of the exam does not exist.
    pub fn row(&self) -> (r: Option<ScholarshipRow>)
        ensures
            r is Some <==> self.exam_date.is_valid(),
            r is Some ==> {
                &&& r->0.student_id@ == self@.student
                &&& r->0.name@ == self@.name
                &&& r->0.correct_answers_count == self.correct_answers
                &&& r->0.exam_date@ == iso_text_of(self.exam_date)
                &&& r->0.scholarship_amount is None
                &&& r->0.notes is None
                &&& !r->0.claimed
                &&& r->0.received_date is None
            },
    {
        match self.exam_date.to_iso() {
            Some(day) => Some(
                ScholarshipRow {
                    student_id: self.student.clone(),
                    name: self.name.clone(),
                    correct_answers_count: self.correct_answers,
                    exam_date: day,
                    scholarship_amount: None,
                    notes: None,
                    claimed: false,
                    received_date: None,
                },
            ),
            None => None,
        }
    }
}

} // verus!
