//! Scholarships: what was paid out to whom, how a sheet of payments is
//! taken in, and how a run of claims is settled.

use crate::calendar::{iso_date_of, serial_date_of, Date};
use crate::cohort::{record_views, ScoreRecord, ScoreRecordView};
use crate::sheet::{grid_view, row_view, Cell, CellView};
use crate::text::{optional_text, text_views, to_upper, trim_of, trimmed, upper_of};
use vstd::pervasive::unreached;
use vstd::prelude::*;

verus! {

/// One scholarship paid out, as shown to callers.
#[derive(Debug)]
pub struct ClaimedScholarshipRow {
    pub student_id: String,
    pub name: String,
    pub correct_answers_count: u32,
    pub exam_date: String,
    pub scholarship_amount: u32,
    pub notes: Option<String>,
}

/// One scholarship, paid out or still open, as shown to callers.
#[derive(Debug)]
pub struct ScholarshipRow {
    pub student_id: String,
    pub name: String,
    pub correct_answers_count: u32,
    pub exam_date: String,
    /// `None` for a scholarship still open.
    pub scholarship_amount: Option<u32>,
    pub notes: Option<String>,
    pub claimed: bool,
    /// `None` for a scholarship still open.
    pub received_date: Option<String>,
}

/// Fewest correct answers that a paid-out scholarship may rest on.
pub const CLAIM_THRESHOLD: u32 = 3;

/// One scholarship paid out.
#[derive(Debug)]
pub struct ScholarshipRecord {
    pub student: String,
    pub correct_answers: u32,
    pub received: Date,
    pub amount: u32,
    pub notes: Option<String>,
}

/// A record as plain values.
pub struct ScholarshipRecordView {
    pub student: Seq<char>,
    pub correct_answers: int,
    pub received: Date,
    pub amount: int,
    pub notes: Option<Seq<char>>,
}

impl View for ScholarshipRecord {
    type V = ScholarshipRecordView;

    open spec fn view(&self) -> ScholarshipRecordView {
        ScholarshipRecordView {
            student: self.student@,
            correct_answers: self.correct_answers as int,
            received: self.received,
            amount: self.amount as int,
            notes: optional_text(self.notes),
        }
    }
}

impl Clone for ScholarshipRecord {
    fn clone(&self) -> (r: Self)
        ensures
            r@ == self@,
    {
        ScholarshipRecord {
            student: self.student.clone(),
            correct_answers: self.correct_answers,
            received: self.received,
            amount: self.amount,
            notes: match &self.notes {
                Some(text) => Some(text.clone()),
                None => None,
            },
        }
    }
}

/// The views of a run of records, in order.
pub open spec fn award_views(records: Seq<ScholarshipRecord>) -> Seq<ScholarshipRecordView> {
    Seq::new(records.len(), |i: int| records[i]@)
}

/// Some record is about this student.
pub open spec fn has_award(records: Seq<ScholarshipRecordView>, student: Seq<char>) -> bool {
    exists|i: int| 0 <= i < records.len() && records[i].student == student
}

/// Where the record of this student stands.
pub open spec fn award_index(records: Seq<ScholarshipRecordView>, student: Seq<char>) -> int {
    choose|i: int| 0 <= i < records.len() && records[i].student == student
}

/// No student has two records, and every record is dated with a day of the
/// calendar.
pub open spec fn awards_consistent(records: Seq<ScholarshipRecordView>) -> bool {
    &&& forall|i: int, j: int|
        0 <= i < j < records.len() ==> records[i].student != records[j].student
    &&& forall|i: int| 0 <= i < records.len() ==> records[i].received.is_valid()
}

/// Why the book refused a record.
#[derive(Clone, Copy, Debug, PartialEq, Eq, Structural)]
pub enum AwardError {
    /// The record is dated with a day that does not exist.
    InvalidDate,
    /// The student has a record already.
    Conflict,
}

/// What the book answers to a record, seen against the records it holds.
pub open spec fn award_outcome(
    records: Seq<ScholarshipRecordView>,
    record: ScholarshipRecordView,
) -> Result<(), AwardError> {
    if !record.received.is_valid() {
        Err(AwardError::InvalidDate)
    } else if has_award(records, record.student) {
        Err(AwardError::Conflict)
    } else {
        Ok(())
    }
}

/// The scholarships paid out, in the order of entry.
pub struct ScholarshipBook {
    records: Vec<ScholarshipRecord>,
}

impl View for ScholarshipBook {
    type V = Seq<ScholarshipRecordView>;

    closed spec fn view(&self) -> Seq<ScholarshipRecordView> {
        award_views(self.records@)
    }
}

impl ScholarshipBook {
    /// What every book satisfies: see [`awards_consistent`].
    pub open spec fn wf(&self) -> bool {
        awards_consistent(self@)
    }

    /// A book without records.
    pub fn new() -> (r: ScholarshipBook)
        ensures
            r.wf(),
            r@ == Seq::<ScholarshipRecordView>::empty(),
    {
        let r = ScholarshipBook { records: Vec::new() };
        assert(r@ =~= Seq::<ScholarshipRecordView>::empty());
        r
    }

    /// The number of records.
    pub fn len(&self) -> (r: usize)
        ensures
            r == self@.len(),
    {
        self.records.len()
    }

    /// The record at position `index`, in the order of entry.
    pub fn record(&self, index: usize) -> (r: Option<&ScholarshipRecord>)
        ensures
            r is Some <==> index < self@.len(),
            r is Some ==> r->0@ == self@[index as int],
    {
        if index < self.records.len() {
            Some(&self.records[index])
        } else {
            None
        }
    }

    fn position_of(&self, student: &String) -> (r: Option<usize>)
        ensures
            r is Some <==> has_award(self@, student@),
            r is Some ==> r->0 < self@.len() && self@[r->0 as int].student == student@,
    {
        let mut i: usize = 0;
        while i < self.records.len()
            invariant
                i <= self.records.len(),
                forall|j: int| 0 <= j < i ==> self@[j].student != student@,
            decreases self.records.len() - i,
        {
            if self.records[i].student == *student {
                assert(self@[i as int].student == student@);
                return Some(i);
            }
            i += 1;
        }
        None
    }

    /// Whether the student with exactly this identifier has a record.
    pub fn contains(&self, student: &str) -> (r: bool)
        ensures
            r == has_award(self@, student@),
    {
        let key = student.to_owned();
        self.position_of(&key).is_some()
    }

    /// The record of the student with exactly this identifier.
    pub fn get(&self, student: &str) -> (r: Option<&ScholarshipRecord>)
        requires
            self.wf(),
        ensures
            r is Some <==> has_award(self@, student@),
            r is Some ==> r->0@ == self@[award_index(self@, student@)],
    {
        let key = student.to_owned();
        match self.position_of(&key) {
            Some(i) => Some(&self.records[i]),
            None => None,
        }
    }

    /// Enters a record.
    pub fn award(&mut self, record: ScholarshipRecord) -> (r: Result<(), AwardError>)
        requires
            old(self).wf(),
        ensures
            final(self).wf(),
            r == award_outcome(old(self)@, record@),
            r is Ok ==> final(self)@ == old(self)@.push(record@),
            r is Err ==> final(self)@ == old(self)@,
    {
        if !record.received.check() {
            return Err(AwardError::InvalidDate);
        }
        if self.position_of(&record.student).is_some() {
            return Err(AwardError::Conflict);
        }
        self.records.push(record);
        assert(self@ =~= old(self)@.push(record@));
        Ok(())
    }

    /// Takes out the record of the student with exactly this identifier.
    /// Says whether there was one.
    pub fn withdraw(&mut self, student: &str) -> (r: bool)
        requires
            old(self).wf(),
        ensures
            final(self).wf(),
            r == has_award(old(self)@, student@),
            r ==> final(self)@ == old(self)@.remove(award_index(old(self)@, student@)),
            !r ==> final(self)@ == old(self)@,
    {
        let key = student.to_owned();
        match self.position_of(&key) {
            Some(i) => {
                self.records.remove(i);
                assert(self@ =~= old(self)@.remove(i as int));
                true
            },
            None => false,
        }
    }

    /// Takes out the record of the student with exactly this identifier,
    /// provided it is dated `received`. Says whether a record was taken
    /// out.
    pub fn withdraw_dated(&mut self, student: &str, received: &Date) -> (r: bool)
        requires
            old(self).wf(),
        ensures
            final(self).wf(),
            r == (has_award(old(self)@, student@) && old(self)@[award_index(
                old(self)@,
                student@,
            )].received == *received),
            r ==> final(self)@ == old(self)@.remove(award_index(old(self)@, student@)),
            !r ==> final(self)@ == old(self)@,
    {
        let key = student.to_owned();
        match self.position_of(&key) {
            Some(i) => {
                if self.records[i].received == *received {
                    self.records.remove(i);
                    assert(self@ =~= old(self)@.remove(i as int));
                    true
                } else {
                    false
                }
            },
            None => false,
        }
    }

    /// Puts `record` in the place of the record that its student has. Says
    /// whether that changed anything; nothing changes when the student has
    /// no record or the record is dated with a day that does not exist.
    pub fn replace(&mut self, record: ScholarshipRecord) -> (r: bool)
        requires
            old(self).wf(),
        ensures
            final(self).wf(),
            final(self)@ == replaced(old(self)@, record@),
            r == (final(self)@ != old(self)@),
    {
        if !record.received.check() {
            return false;
        }
        match self.position_of(&record.student) {
            Some(i) => {
                let current = &self.records[i];
                let same = current.correct_answers == record.correct_answers && current.received
                    == record.received && current.amount == record.amount && same_optional(
                    &current.notes,
                    &record.notes,
                );
                let mut records = Vec::new();
                std::mem::swap(&mut records, &mut self.records);
                records.set(i, record);
                self.records = records;
                assert(self@ =~= old(self)@.update(i as int, record@));
                proof {
                    if same {
                        assert(self@ =~= old(self)@);
                    } else {
                        assert(self@[i as int] != old(self)@[i as int]);
                    }
                }
                !same
            },
            None => false,
        }
    }

    /// A copy of the book.
    pub fn copy(&self) -> (r: ScholarshipBook)
        requires
            self.wf(),
        ensures
            r.wf(),
            r@ == self@,
    {
        let mut records: Vec<ScholarshipRecord> = Vec::new();
        let mut i: usize = 0;
        while i < self.records.len()
            invariant
                i <= self.records.len(),
                award_views(records@) == self@.take(i as int),
            decreases self.records.len() - i,
        {
            let ghost prior = award_views(records@);
            let record = self.records[i].clone();
            records.push(record);
            assert(award_views(records@) =~= prior.push(record@));
            assert(self@.take(i + 1) =~= self@.take(i as int).push(self@[i as int]));
            i += 1;
        }
        assert(self@.take(self.records.len() as int) =~= self@);
        ScholarshipBook { records }
    }
}

/// The records with `record` in the place of the record that its student
/// has; the records as they are when the student has none or the record is
/// dated with a day that does not exist.
pub open spec fn replaced(
    records: Seq<ScholarshipRecordView>,
    record: ScholarshipRecordView,
) -> Seq<ScholarshipRecordView> {
    if record.received.is_valid() && has_award(records, record.student) {
        records.update(award_index(records, record.student), record)
    } else {
        records
    }
}

fn same_optional(a: &Option<String>, b: &Option<String>) -> (r: bool)
    ensures
        r == (optional_text(*a) == optional_text(*b)),
{
    match a {
        Some(x) => match b {
            Some(y) => *x == *y,
            None => false,
        },
        None => b.is_none(),
    }
}

/// What is wrong with a row of a sheet of payments.
#[derive(Clone, Copy, Debug, PartialEq, Eq, Structural)]
pub enum AwardRowError {
    /// The first cell holds no text, or only white space.
    BadStudent,
    /// The row ends before the count of correct answers.
    MissingCount,
    /// The count of correct answers is no number from zero to `u32::MAX`.
    BadCount,
    /// The count of correct answers has a fractional part.
    FractionalCount,
    /// The row ends before the date.
    MissingDate,
    /// The date cell holds a day count that leads out of the calendar.
    DateOutOfRange,
    /// The date cell holds a text that is no date.
    BadDate,
    /// The date cell holds neither a date nor a text.
    InvalidDate,
    /// The row ends before the amount.
    MissingAmount,
    /// The amount is no whole number up to `u32::MAX`.
    BadAmount,
    /// The amount is below zero.
    NegativeAmount,
    /// The student has a record already, or is named by an earlier row.
    Conflict,
}

/// A sheet of payments that was turned away: the row that cannot be taken,
/// and what is wrong with it.
#[derive(Clone, Copy, Debug, PartialEq, Eq, Structural)]
pub struct AwardImportError {
    pub row: usize,
    pub reason: AwardRowError,
}

/// The student a row of payments is about: the text of its first cell
/// without the white space around it, in upper case.
pub open spec fn award_student_of(row: Seq<CellView>) -> Result<Seq<char>, AwardRowError> {
    if row.len() == 0 {
        Err(AwardRowError::BadStudent)
    } else {
        match row[0] {
            CellView::Text(text) => if trim_of(text).len() == 0 {
                Err(AwardRowError::BadStudent)
            } else {
                Ok(upper_of(trim_of(text)))
            },
            _ => Err(AwardRowError::BadStudent),
        }
    }
}

/// The count of correct answers in a row of payments.
pub open spec fn award_count_of(row: Seq<CellView>) -> Result<int, AwardRowError> {
    if row.len() <= 1 {
        Err(AwardRowError::MissingCount)
    } else {
        match row[1] {
            CellView::Number { whole, exact } => if !exact {
                Err(AwardRowError::FractionalCount)
            } else if 0 <= whole <= u32::MAX {
                Ok(whole)
            } else {
                Err(AwardRowError::BadCount)
            },
            _ => Err(AwardRowError::BadCount),
        }
    }
}

/// The day in a date cell, given what `chrono` makes of its day count and
/// of its text.
pub open spec fn award_date_outcome(
    cell: CellView,
    from_serial: Option<Date>,
    from_text: Option<Date>,
) -> Result<Date, AwardRowError> {
    match cell {
        CellView::Serial(_) => match from_serial {
            Some(date) => Ok(date),
            None => Err(AwardRowError::DateOutOfRange),
        },
        CellView::Text(_) => match from_text {
            Some(date) => Ok(date),
            None => Err(AwardRowError::BadDate),
        },
        _ => Err(AwardRowError::InvalidDate),
    }
}

/// What `chrono` makes of the day count of a cell.
pub open spec fn serial_in(cell: CellView) -> Option<Date> {
    match cell {
        CellView::Serial(days) => serial_date_of(days),
        _ => None,
    }
}

/// What `chrono` makes of the text of a cell, the white space around it
/// removed.
pub open spec fn date_text_in(cell: CellView) -> Option<Date> {
    match cell {
        CellView::Text(text) => iso_date_of(trim_of(text)),
        _ => None,
    }
}

/// The day on which a row of payments says the scholarship was received.
pub open spec fn award_date_of(row: Seq<CellView>) -> Result<Date, AwardRowError> {
    if row.len() <= 2 {
        Err(AwardRowError::MissingDate)
    } else {
        award_date_outcome(row[2], serial_in(row[2]), date_text_in(row[2]))
    }
}

/// The amount in a row of payments.
pub open spec fn award_amount_of(row: Seq<CellView>) -> Result<int, AwardRowError> {
    if row.len() <= 3 {
        Err(AwardRowError::MissingAmount)
    } else {
        match row[3] {
            CellView::Number { whole, exact } => if whole < 0 {
                Err(AwardRowError::NegativeAmount)
            } else if !exact || whole > u32::MAX {
                Err(AwardRowError::BadAmount)
            } else {
                Ok(whole)
            },
            _ => Err(AwardRowError::BadAmount),
        }
    }
}

/// The record that a row of payments describes. Its parts are read from
/// left to right, and the first that fails decides the error. A record
/// read from a sheet carries no notes.
pub open spec fn award_row_of(row: Seq<CellView>) -> Result<ScholarshipRecordView, AwardRowError> {
    match award_student_of(row) {
        Err(e) => Err(e),
        Ok(student) => match award_count_of(row) {
            Err(e) => Err(e),
            Ok(correct_answers) => match award_date_of(row) {
                Err(e) => Err(e),
                Ok(received) => match award_amount_of(row) {
                    Err(e) => Err(e),
                    Ok(amount) => Ok(
                        ScholarshipRecordView {
                            student,
                            correct_answers,
                            received,
                            amount,
                            notes: None,
                        },
                    ),
                },
            },
        },
    }
}

/// Decides the day of a date cell from what was read out of it.
pub fn award_date(cell: &Cell, from_serial: Option<Date>, from_text: Option<Date>) -> (r: Result<
    Date,
    AwardRowError,
>)
    ensures
        r == award_date_outcome(cell@, from_serial, from_text),
{
    match cell {
        Cell::Serial(_) => match from_serial {
            Some(date) => Ok(date),
            None => Err(AwardRowError::DateOutOfRange),
        },
        Cell::Text(_) => match from_text {
            Some(date) => Ok(date),
            None => Err(AwardRowError::BadDate),
        },
        _ => Err(AwardRowError::InvalidDate),
    }
}

/// Reads the day of a date cell.
pub fn read_award_date(cell: &Cell) -> (r: Result<Date, AwardRowError>)
    ensures
        r == award_date_outcome(cell@, serial_in(cell@), date_text_in(cell@)),
        r is Ok ==> r->Ok_0.is_valid(),
{
    let from_serial = match cell {
        Cell::Serial(days) => Date::from_serial(*days),
        _ => None,
    };
    let from_text = match cell {
        Cell::Text(text) => Date::parse(trimmed(text.as_str())),
        _ => None,
    };
    award_date(cell, from_serial, from_text)
}

/// Reads the record that a row of payments describes.
pub fn read_award_row(row: &Vec<Cell>) -> (r: Result<ScholarshipRecord, AwardRowError>)
    ensures
        match r {
            Ok(record) => award_row_of(row_view(row@)) == Ok::<
                ScholarshipRecordView,
                AwardRowError,
            >(record@) && record.received.is_valid(),
            Err(e) => award_row_of(row_view(row@)) == Err::<ScholarshipRecordView, AwardRowError>(
                e,
            ),
        },
{
    if row.len() == 0 {
        return Err(AwardRowError::BadStudent);
    }
    let student = match &row[0] {
        Cell::Text(text) => {
            let inner = trimmed(text.as_str());
            if inner.unicode_len() == 0 {
                return Err(AwardRowError::BadStudent);
            }
            to_upper(inner)
        },
        _ => {
            return Err(AwardRowError::BadStudent);
        },
    };
    if row.len() <= 1 {
        return Err(AwardRowError::MissingCount);
    }
    let correct_answers: u32 = match &row[1] {
        Cell::Number { whole, exact } => {
            if !*exact {
                return Err(AwardRowError::FractionalCount);
            } else if 0 <= *whole && *whole <= u32::MAX as i64 {
                *whole as u32
            } else {
                return Err(AwardRowError::BadCount);
            }
        },
        _ => {
            return Err(AwardRowError::BadCount);
        },
    };
    if row.len() <= 2 {
        return Err(AwardRowError::MissingDate);
    }
    let received = match read_award_date(&row[2]) {
        Ok(date) => date,
        Err(e) => {
            return Err(e);
        },
    };
    if row.len() <= 3 {
        return Err(AwardRowError::MissingAmount);
    }
    let amount: u32 = match &row[3] {
        Cell::Number { whole, exact } => {
            if *whole < 0 {
                return Err(AwardRowError::NegativeAmount);
            } else if !*exact || *whole > u32::MAX as i64 {
                return Err(AwardRowError::BadAmount);
            } else {
                *whole as u32
            }
        },
        _ => {
            return Err(AwardRowError::BadAmount);
        },
    };
    Ok(ScholarshipRecord { student, correct_answers, received, amount, notes: None })
}

/// The records after rows `1` to `n` of the sheet were taken, or the first
/// row among them that cannot be.
pub open spec fn award_plan(
    records: Seq<ScholarshipRecordView>,
    grid: Seq<Seq<CellView>>,
    n: nat,
) -> Result<Seq<ScholarshipRecordView>, AwardImportError>
    decreases n,
{
    if n == 0 {
        Ok(records)
    } else {
        match award_plan(records, grid, (n - 1) as nat) {
            Err(e) => Err(e),
            Ok(before) => match award_row_of(grid[n as int]) {
                Err(reason) => Err(AwardImportError { row: n as usize, reason }),
                Ok(record) => if has_award(before, record.student) {
                    Err(AwardImportError { row: n as usize, reason: AwardRowError::Conflict })
                } else {
                    Ok(before.push(record))
                },
            },
        }
    }
}

/// What a sheet of payments does to the records. The first row is the
/// header and is passed over.
pub open spec fn award_import_of(records: Seq<ScholarshipRecordView>, grid: Seq<Seq<CellView>>) -> Result<
    Seq<ScholarshipRecordView>,
    AwardImportError,
> {
    if grid.len() == 0 {
        Ok(records)
    } else {
        award_plan(records, grid, (grid.len() - 1) as nat)
    }
}

/// Once a row cannot be taken, looking at further rows does not change
/// the error.
pub proof fn lemma_award_error_stays(
    records: Seq<ScholarshipRecordView>,
    grid: Seq<Seq<CellView>>,
    k: nat,
    n: nat,
)
    requires
        k <= n,
        award_plan(records, grid, k) is Err,
    ensures
        award_plan(records, grid, n) == award_plan(records, grid, k),
    decreases n,
{
    if k < n {
        lemma_award_error_stays(records, grid, k, (n - 1) as nat);
    }
}

fn names_award(pending: &Vec<ScholarshipRecord>, student: &String) -> (r: bool)
    ensures
        r == has_award(award_views(pending@), student@),
{
    let mut i: usize = 0;
    while i < pending.len()
        invariant
            i <= pending.len(),
            forall|j: int| 0 <= j < i ==> award_views(pending@)[j].student != student@,
        decreases pending.len() - i,
    {
        if pending[i].student == *student {
            assert(award_views(pending@)[i as int].student == student@);
            return true;
        }
        i += 1;
    }
    false
}

/// Takes the payments of a sheet into the book. Gives their number. When
/// the sheet is turned away, no record is entered.
pub fn import_awards(book: &mut ScholarshipBook, grid: &Vec<Vec<Cell>>) -> (r: Result<
    usize,
    AwardImportError,
>)
    requires
        old(book).wf(),
    ensures
        final(book).wf(),
        match r {
            Ok(count) => {
                &&& award_import_of(old(book)@, grid_view(grid@)) == Ok::<
                    Seq<ScholarshipRecordView>,
                    AwardImportError,
                >(final(book)@)
                &&& count == final(book)@.len() - old(book)@.len()
            },
            Err(e) => {
                &&& award_import_of(old(book)@, grid_view(grid@)) == Err::<
                    Seq<ScholarshipRecordView>,
                    AwardImportError,
                >(e)
                &&& final(book)@ == old(book)@
            },
        },
{
    if grid.len() == 0 {
        return Ok(0);
    }
    let ghost cells = grid_view(grid@);
    let ghost start = book@;
    let mut pending: Vec<ScholarshipRecord> = Vec::new();
    let mut n: usize = 0;
    assert(start + award_views(pending@) =~= start);
    while n < grid.len() - 1
        invariant
            n <= grid.len() - 1,
            book.wf(),
            book@ == old(book)@,
            start == book@,
            cells == grid_view(grid@),
            award_plan(start, cells, n as nat) == Ok::<
                Seq<ScholarshipRecordView>,
                AwardImportError,
            >(start + award_views(pending@)),
            pending@.len() == n,
            forall|i: int|
                0 <= i < pending@.len() ==> (#[trigger] pending@[i]).received.is_valid()
                    && !has_award(start + award_views(pending@.take(i)), pending@[i]@.student),
        decreases grid.len() - 1 - n,
    {
        let number = n + 1;
        assert(cells[number as int] == row_view(grid@[number as int]@));
        let record = match read_award_row(&grid[number]) {
            Ok(record) => record,
            Err(reason) => {
                proof {
                    lemma_award_error_stays(start, cells, number as nat, (grid.len() - 1) as nat);
                }
                return Err(AwardImportError { row: number, reason });
            },
        };
        let known = book.position_of(&record.student).is_some();
        let named = names_award(&pending, &record.student);
        proof {
            let planned = start + award_views(pending@);
            let id = record@.student;
            if has_award(planned, id) {
                let k = choose|k: int| 0 <= k < planned.len() && planned[k].student == id;
                if k < start.len() {
                    assert(start[k].student == id);
                } else {
                    assert(award_views(pending@)[k - start.len()].student == id);
                }
            }
            if known {
                let k = choose|k: int| 0 <= k < start.len() && start[k].student == id;
                assert(planned[k].student == id);
            }
            if named {
                let k = choose|k: int|
                    0 <= k < pending@.len() && award_views(pending@)[k].student == id;
                assert(planned[start.len() + k].student == id);
            }
        }
        if known || named {
            proof {
                lemma_award_error_stays(start, cells, number as nat, (grid.len() - 1) as nat);
            }
            return Err(AwardImportError { row: number, reason: AwardRowError::Conflict });
        }
        let ghost prior = pending@;
        pending.push(record);
        proof {
            assert(pending@.take(n as int) =~= prior);
            assert(start + award_views(pending@) =~= (start + award_views(prior)).push(record@));
            assert forall|i: int| 0 <= i < pending@.len() implies (#[trigger] pending@[i])
                .received.is_valid() && !has_award(
                start + award_views(pending@.take(i)),
                pending@[i]@.student,
            ) by {
                if i < n {
                    assert(pending@[i] == prior[i]);
                    assert(pending@.take(i) =~= prior.take(i));
                }
            }
        }
        n += 1;
    }
    let mut i: usize = 0;
    assert(start + award_views(pending@.take(0)) =~= start);
    while i < pending.len()
        invariant
            i <= pending.len(),
            book.wf(),
            start == old(book)@,
            book@ == start + award_views(pending@.take(i as int)),
            forall|i: int|
                0 <= i < pending@.len() ==> (#[trigger] pending@[i]).received.is_valid()
                    && !has_award(start + award_views(pending@.take(i)), pending@[i]@.student),
        decreases pending.len() - i,
    {
        let ghost before = book@;
        assert(pending@[i as int].received.is_valid());
        let record = pending[i].clone();
        match book.award(record) {
            Ok(()) => {},
            Err(_) => unreached(),
        }
        proof {
            assert(pending@.take(i + 1) =~= pending@.take(i as int).push(pending@[i as int]));
            assert(start + award_views(pending@.take(i + 1)) =~= before.push(record@));
        }
        i += 1;
    }
    proof {
        assert(pending@.take(pending.len() as int) =~= pending@);
    }
    Ok(pending.len())
}

/// A claim to be settled: whether the student received the scholarship,
/// and if so when, how much, and for how many correct answers.
#[derive(Debug)]
pub struct ClaimUpdate {
    pub student_id: String,
    pub correct_numbers: u32,
    pub money: u32,
    pub note: Option<String>,
    pub claimed: bool,
    /// The day of receipt, written `YYYY-MM-DD`.
    pub received_date: Option<String>,
}

/// A claim as plain values.
pub struct ClaimUpdateView {
    pub student_id: Seq<char>,
    pub correct_numbers: int,
    pub money: int,
    pub note: Option<Seq<char>>,
    pub claimed: bool,
    pub received_date: Option<Seq<char>>,
}

impl View for ClaimUpdate {
    type V = ClaimUpdateView;

    open spec fn view(&self) -> ClaimUpdateView {
        ClaimUpdateView {
            student_id: self.student_id@,
            correct_numbers: self.correct_numbers as int,
            money: self.money as int,
            note: optional_text(self.note),
            claimed: self.claimed,
            received_date: optional_text(self.received_date),
        }
    }
}

/// The views of a run of claims, in order.
pub open spec fn claim_views(claims: Seq<ClaimUpdate>) -> Seq<ClaimUpdateView> {
    Seq::new(claims.len(), |i: int| claims[i]@)
}

/// What is wrong with a claim.
#[derive(Clone, Copy, Debug, PartialEq, Eq, Structural)]
pub enum ClaimFault {
    /// The day of receipt is no date.
    InvalidDate,
    /// The scholarship is said to be received, but no day is given.
    MissingDate,
    /// The scholarship is said to be received, but the amount is zero.
    ZeroAmount,
    /// The scholarship is said to be received for fewer correct answers
    /// than [`CLAIM_THRESHOLD`].
    TooFewCorrect,
    /// The student sat no exam up to the day of receipt with exactly this
    /// many correct answers.
    NoMatchingExam,
}

/// What settling a claim does to the book.
#[derive(Clone, Copy, Debug, PartialEq, Eq, Structural)]
pub enum Settlement {
    /// A record is entered.
    Insert,
    /// The student's record is replaced.
    Update,
    /// The student's record is taken out.
    Delete,
    /// Nothing is done.
    Skip,
}

/// The day of receipt that stands in for a claim that gives none.
pub open spec fn default_received() -> Date {
    Date { year: 1970, month: 1, day: 1 }
}

/// The day of receipt of a claim, given what `chrono` made of its text.
pub open spec fn received_of(claim: ClaimUpdateView, parsed: Option<Date>) -> Result<
    Date,
    ClaimFault,
> {
    match claim.received_date {
        Some(_) => match parsed {
            Some(date) => Ok(date),
            None => Err(ClaimFault::InvalidDate),
        },
        None => if claim.claimed {
            Err(ClaimFault::MissingDate)
        } else {
            Ok(default_received())
        },
    }
}

/// What is to be done about a claim, given whether the student has a record
/// and whether an exam matches the claim.
pub open spec fn settlement_of(claim: ClaimUpdateView, exists: bool, matching: bool) -> Result<
    Settlement,
    ClaimFault,
> {
    if claim.claimed && claim.money == 0 {
        Err(ClaimFault::ZeroAmount)
    } else if claim.claimed && claim.correct_numbers < CLAIM_THRESHOLD {
        Err(ClaimFault::TooFewCorrect)
    } else if claim.claimed && !matching {
        Err(ClaimFault::NoMatchingExam)
    } else if exists {
        if claim.claimed {
            Ok(Settlement::Update)
        } else {
            Ok(Settlement::Delete)
        }
    } else if claim.claimed {
        Ok(Settlement::Insert)
    } else {
        Ok(Settlement::Skip)
    }
}

/// Some record shows `student` with exactly `correct` correct answers in an
/// exam held no later than `received`.
pub open spec fn has_matching_exam(
    records: Seq<ScoreRecordView>,
    student: Seq<char>,
    received: Date,
    correct: int,
) -> bool {
    exists|i: int|
        0 <= i < records.len() && records[i].student == student && records[i].date.spec_le(
            received,
        ) && records[i].score == correct
}

/// The record that a claim asks for.
pub open spec fn claimed_record(claim: ClaimUpdateView, received: Date) -> ScholarshipRecordView {
    ScholarshipRecordView {
        student: claim.student_id,
        correct_answers: claim.correct_numbers,
        received,
        amount: claim.money,
        notes: claim.note,
    }
}

/// What `chrono` makes of the day of receipt of a claim.
pub open spec fn claim_date_of(claim: ClaimUpdateView) -> Option<Date> {
    match claim.received_date {
        Some(text) => iso_date_of(text),
        None => None,
    }
}

/// The book after one claim was settled, and whether that changed a record;
/// or what is wrong with the claim.
pub open spec fn settled_one(
    book: Seq<ScholarshipRecordView>,
    claim: ClaimUpdateView,
    records: Seq<ScoreRecordView>,
) -> Result<(Seq<ScholarshipRecordView>, bool), ClaimFault> {
    match received_of(claim, claim_date_of(claim)) {
        Err(e) => Err(e),
        Ok(received) => match settlement_of(
            claim,
            has_award(book, claim.student_id),
            has_matching_exam(records, claim.student_id, received, claim.correct_numbers),
        ) {
            Err(e) => Err(e),
            Ok(Settlement::Insert) => Ok((book.push(claimed_record(claim, received)), true)),
            Ok(Settlement::Update) => {
                let after = book.update(
                    award_index(book, claim.student_id),
                    claimed_record(claim, received),
                );
                Ok((after, after != book))
            },
            Ok(Settlement::Delete) => Ok(
                (book.remove(award_index(book, claim.student_id)), true),
            ),
            Ok(Settlement::Skip) => Ok((book, false)),
        },
    }
}

/// A run of claims that was turned away.
#[derive(Clone, Copy, Debug, PartialEq, Eq, Structural)]
pub enum SettleError {
    /// The run holds no claim.
    Empty,
    /// The claim at `index` cannot be settled.
    Claim { index: usize, fault: ClaimFault },
}

/// The book after the first `n` claims were settled in order, with the
/// number of records changed; or the first claim among them that cannot be
/// settled.
pub open spec fn settled(
    book: Seq<ScholarshipRecordView>,
    claims: Seq<ClaimUpdateView>,
    records: Seq<ScoreRecordView>,
    n: nat,
) -> Result<(Seq<ScholarshipRecordView>, int), SettleError>
    decreases n,
{
    if n == 0 {
        Ok((book, 0))
    } else {
        match settled(book, claims, records, (n - 1) as nat) {
            Err(e) => Err(e),
            Ok((before, count)) => match settled_one(before, claims[n - 1], records) {
                Err(fault) => Err(SettleError::Claim { index: (n - 1) as usize, fault }),
                Ok((after, changed)) => Ok(
                    (
                        after,
                        if changed {
                            count + 1
                        } else {
                            count
                        },
                    ),
                ),
            },
        }
    }
}

/// What settling a run of claims does to the book.
pub open spec fn settlement_outcome(
    book: Seq<ScholarshipRecordView>,
    claims: Seq<ClaimUpdateView>,
    records: Seq<ScoreRecordView>,
) -> Result<(Seq<ScholarshipRecordView>, int), SettleError> {
    if claims.len() == 0 {
        Err(SettleError::Empty)
    } else {
        settled(book, claims, records, claims.len())
    }
}

/// Once a claim cannot be settled, looking at further claims does not
/// change the error.
pub proof fn lemma_settle_error_stays(
    book: Seq<ScholarshipRecordView>,
    claims: Seq<ClaimUpdateView>,
    records: Seq<ScoreRecordView>,
    k: nat,
    n: nat,
)
    requires
        k <= n,
        settled(book, claims, records, k) is Err,
    ensures
        settled(book, claims, records, n) == settled(book, claims, records, k),
    decreases n,
{
    if k < n {
        lemma_settle_error_stays(book, claims, records, k, (n - 1) as nat);
    }
}

/// Decides the day of receipt of a claim from what was read out of it.
pub fn claim_received(claim: &ClaimUpdate, parsed: Option<Date>) -> (r: Result<Date, ClaimFault>)
    ensures
        r == received_of(claim@, parsed),
{
    match &claim.received_date {
        Some(_) => match parsed {
            Some(date) => Ok(date),
            None => Err(ClaimFault::InvalidDate),
        },
        None => if claim.claimed {
            Err(ClaimFault::MissingDate)
        } else {
            Ok(Date { year: 1970, month: 1, day: 1 })
        },
    }
}

/// Decides what is to be done about a claim.
pub fn decide(claim: &ClaimUpdate, exists: bool, matching: bool) -> (r: Result<
    Settlement,
    ClaimFault,
>)
    ensures
        r == settlement_of(claim@, exists, matching),
{
    if claim.claimed && claim.money == 0 {
        Err(ClaimFault::ZeroAmount)
    } else if claim.claimed && claim.correct_numbers < CLAIM_THRESHOLD {
        Err(ClaimFault::TooFewCorrect)
    } else if claim.claimed && !matching {
        Err(ClaimFault::NoMatchingExam)
    } else if exists {
        if claim.claimed {
            Ok(Settlement::Update)
        } else {
            Ok(Settlement::Delete)
        }
    } else if claim.claimed {
        Ok(Settlement::Insert)
    } else {
        Ok(Settlement::Skip)
    }
}

/// Whether some record shows `student` with exactly `correct` correct
/// answers in an exam held no later than `received`.
pub fn find_matching_exam(
    records: &Vec<ScoreRecord>,
    student: &String,
    received: &Date,
    correct: u32,
) -> (r: bool)
    ensures
        r == has_matching_exam(record_views(records@), student@, *received, correct as int),
{
    let mut i: usize = 0;
    while i < records.len()
        invariant
            i <= records.len(),
            forall|j: int|
                0 <= j < i ==> !(record_views(records@)[j].student == student@ && record_views(
                    records@,
                )[j].date.spec_le(*received) && record_views(records@)[j].score == correct),
        decreases records.len() - i,
    {
        let record = &records[i];
        if record.student == *student && record.date.le(received) && record.score == correct {
            assert(record_views(records@)[i as int] == record@);
            return true;
        }
        i += 1;
    }
    false
}

/// Settles one claim against the book.
fn settle_one(book: &mut ScholarshipBook, claim: &ClaimUpdate, records: &Vec<ScoreRecord>) -> (r:
    Result<bool, ClaimFault>)
    requires
        old(book).wf(),
    ensures
        final(book).wf(),
        match r {
            Ok(changed) => settled_one(old(book)@, claim@, record_views(records@)) == Ok::<
                (Seq<ScholarshipRecordView>, bool),
                ClaimFault,
            >((final(book)@, changed)),
            Err(e) => settled_one(old(book)@, claim@, record_views(records@)) == Err::<
                (Seq<ScholarshipRecordView>, bool),
                ClaimFault,
            >(e),
        },
{
    let parsed = match &claim.received_date {
        Some(text) => Date::parse(text.as_str()),
        None => None,
    };
    let received = match claim_received(claim, parsed) {
        Ok(date) => date,
        Err(e) => {
            return Err(e);
        },
    };
    let exists = book.position_of(&claim.student_id).is_some();
    let matching = find_matching_exam(records, &claim.student_id, &received, claim.correct_numbers);
    let decision = match decide(claim, exists, matching) {
        Ok(decision) => decision,
        Err(e) => {
            return Err(e);
        },
    };
    let record = ScholarshipRecord {
        student: claim.student_id.clone(),
        correct_answers: claim.correct_numbers,
        received,
        amount: claim.money,
        notes: match &claim.note {
            Some(text) => Some(text.clone()),
            None => None,
        },
    };
    assert(record@ == claimed_record(claim@, received));
    match decision {
        Settlement::Insert => {
            match book.award(record) {
                Ok(()) => {},
                Err(_) => unreached(),
            }
            Ok(true)
        },
        Settlement::Update => Ok(book.replace(record)),
        Settlement::Delete => {
            book.withdraw(claim.student_id.as_str());
            Ok(true)
        },
        Settlement::Skip => Ok(false),
    }
}

/// Settles a run of claims as one unit, in order: a claim that says the
/// scholarship was received enters or replaces the student's record, one
/// that says it was not takes the record out. Gives the number of records
/// entered, changed or taken out. When a claim cannot be settled, the book
/// stays as it was.
pub fn settle_all(book: &mut ScholarshipBook, claims: &Vec<ClaimUpdate>, records: &Vec<ScoreRecord>) -> (r:
    Result<usize, SettleError>)
    requires
        old(book).wf(),
    ensures
        final(book).wf(),
        match r {
            Ok(count) => settlement_outcome(
                old(book)@,
                claim_views(claims@),
                record_views(records@),
            ) == Ok::<(Seq<ScholarshipRecordView>, int), SettleError>((final(book)@, count as int)),
            Err(e) => {
                &&& settlement_outcome(old(book)@, claim_views(claims@), record_views(records@))
                    == Err::<(Seq<ScholarshipRecordView>, int), SettleError>(e)
                &&& final(book)@ == old(book)@
            },
        },
{
    if claims.len() == 0 {
        return Err(SettleError::Empty);
    }
    let ghost views = claim_views(claims@);
    let ghost scores = record_views(records@);
    let mut draft = book.copy();
    let mut count: usize = 0;
    let mut i: usize = 0;
    while i < claims.len()
        invariant
            i <= claims.len(),
            book.wf(),
            book@ == old(book)@,
            draft.wf(),
            views == claim_views(claims@),
            scores == record_views(records@),
            count <= i,
            settled(old(book)@, views, scores, i as nat) == Ok::<
                (Seq<ScholarshipRecordView>, int),
                SettleError,
            >((draft@, count as int)),
        decreases claims.len() - i,
    {
        assert(views[i as int] == claims@[i as int]@);
        match settle_one(&mut draft, &claims[i], records) {
            Ok(changed) => {
                if changed {
                    count += 1;
                }
            },
            Err(fault) => {
                proof {
                    lemma_settle_error_stays(
                        old(book)@,
                        views,
                        scores,
                        (i + 1) as nat,
                        claims@.len(),
                    );
                }
                return Err(SettleError::Claim { index: i, fault });
            },
        }
        i += 1;
    }
    *book = draft;
    Ok(count)
}

/// The book after the record of the student with exactly this identifier
/// was taken out; the book as it is when the student has none.
pub open spec fn withdrawn(
    book: Seq<ScholarshipRecordView>,
    student: Seq<char>,
) -> Seq<ScholarshipRecordView> {
    if has_award(book, student) {
        book.remove(award_index(book, student))
    } else {
        book
    }
}

/// The book after the records of the first `n` of `students` were taken
/// out, one after the other.
pub open spec fn withdrawn_each(
    book: Seq<ScholarshipRecordView>,
    students: Seq<Seq<char>>,
    n: nat,
) -> Seq<ScholarshipRecordView>
    decreases n,
{
    if n == 0 {
        book
    } else {
        withdrawn(withdrawn_each(book, students, (n - 1) as nat), students[n - 1])
    }
}

/// Takes out the record of each listed student who has one. Gives the
/// number of records taken out.
pub fn withdraw_each(book: &mut ScholarshipBook, students: &Vec<String>) -> (removed: usize)
    requires
        old(book).wf(),
    ensures
        final(book).wf(),
        final(book)@ == withdrawn_each(old(book)@, text_views(students@), students@.len()),
        removed == old(book)@.len() - final(book)@.len(),
{
    let ghost names = text_views(students@);
    let mut removed: usize = 0;
    let mut i: usize = 0;
    while i < students.len()
        invariant
            i <= students.len(),
            book.wf(),
            names == text_views(students@),
            book@ == withdrawn_each(old(book)@, names, i as nat),
            removed == old(book)@.len() - book@.len(),
            removed <= i,
        decreases students.len() - i,
    {
        assert(names[i as int] == students@[i as int]@);
        if book.withdraw(students[i].as_str()) {
            removed += 1;
        }
        i += 1;
    }
    removed
}

/// The book after the record of the student with exactly this identifier
/// was taken out, provided it is dated `received`; the book as it is when
/// there is no such record.
pub open spec fn withdrawn_dated(
    book: Seq<ScholarshipRecordView>,
    student: Seq<char>,
    received: Date,
) -> Seq<ScholarshipRecordView> {
    if has_award(book, student) && book[award_index(book, student)].received == received {
        book.remove(award_index(book, student))
    } else {
        book
    }
}

/// The book after the first `n` of the listed records were taken out, one
/// after the other: each is the record of the student named, provided it is
/// dated with the day given with the name.
pub open spec fn withdrawn_on(
    book: Seq<ScholarshipRecordView>,
    entries: Seq<(Seq<char>, Date)>,
    n: nat,
) -> Seq<ScholarshipRecordView>
    decreases n,
{
    if n == 0 {
        book
    } else {
        withdrawn_dated(
            withdrawn_on(book, entries, (n - 1) as nat),
            entries[n - 1].0,
            entries[n - 1].1,
        )
    }
}

/// The views of a run of students with days, in order.
pub open spec fn dated_views(entries: Seq<(String, Date)>) -> Seq<(Seq<char>, Date)> {
    Seq::new(entries.len(), |i: int| (entries[i].0@, entries[i].1))
}

/// Takes out the listed records, each provided it is dated with the day
/// listed with the student. Gives the number of records taken out.
pub fn withdraw_on(book: &mut ScholarshipBook, entries: &Vec<(String, Date)>) -> (removed: usize)
    requires
        old(book).wf(),
    ensures
        final(book).wf(),
        final(book)@ == withdrawn_on(old(book)@, dated_views(entries@), entries@.len()),
        removed == old(book)@.len() - final(book)@.len(),
{
    let ghost views = dated_views(entries@);
    let mut removed: usize = 0;
    let mut i: usize = 0;
    while i < entries.len()
        invariant
            i <= entries.len(),
            book.wf(),
            views == dated_views(entries@),
            book@ == withdrawn_on(old(book)@, views, i as nat),
            removed == old(book)@.len() - book@.len(),
            removed <= i,
        decreases entries.len() - i,
    {
        assert(views[i as int] == (entries@[i as int].0@, entries@[i as int].1));
        let day = entries[i].1;
        if book.withdraw_dated(entries[i].0.as_str(), &day) {
            removed += 1;
        }
        i += 1;
    }
    removed
}

/// The views of a run of students with days as text, in order.
pub open spec fn written_views(entries: Seq<(String, String)>) -> Seq<(Seq<char>, Seq<char>)> {
    Seq::new(entries.len(), |i: int| (entries[i].0@, entries[i].1@))
}

/// The first `n` of a run of students with days as text, each day as
/// `chrono` reads it; or the place of the first text that is no date.
pub open spec fn dated_of(entries: Seq<(Seq<char>, Seq<char>)>, n: nat) -> Result<
    Seq<(Seq<char>, Date)>,
    int,
>
    decreases n,
{
    if n == 0 {
        Ok(Seq::empty())
    } else {
        match dated_of(entries, (n - 1) as nat) {
            Err(at) => Err(at),
            Ok(before) => match iso_date_of(entries[n - 1].1) {
                Some(day) => Ok(before.push((entries[n - 1].0, day))),
                None => Err(n - 1),
            },
        }
    }
}

/// Once a text is no date, looking at further entries does not change the
/// error.
pub proof fn lemma_dated_error_stays(entries: Seq<(Seq<char>, Seq<char>)>, k: nat, n: nat)
    requires
        k <= n,
        dated_of(entries, k) is Err,
    ensures
        dated_of(entries, n) == dated_of(entries, k),
    decreases n,
{
    if k < n {
        lemma_dated_error_stays(entries, k, (n - 1) as nat);
    }
}

/// Takes out the listed records, each provided it is dated with the day
/// written with the student. Gives the number of records taken out. When a
/// day written is no date, the place of the first such entry is given and
/// no record is taken out.
pub fn withdraw_written(book: &mut ScholarshipBook, entries: &Vec<(String, String)>) -> (r: Result<
    usize,
    usize,
>)
    requires
        old(book).wf(),
    ensures
        final(book).wf(),
        match r {
            Ok(removed) => {
                let dated = dated_of(written_views(entries@), entries@.len());
                &&& dated is Ok
                &&& final(book)@ == withdrawn_on(old(book)@, dated->Ok_0, entries@.len())
                &&& removed == old(book)@.len() - final(book)@.len()
            },
            Err(at) => {
                &&& dated_of(written_views(entries@), entries@.len()) == Err::<
                    Seq<(Seq<char>, Date)>,
                    int,
                >(at as int)
                &&& final(book)@ == old(book)@
            },
        },
{
    let ghost views = written_views(entries@);
    let mut dated: Vec<(String, Date)> = Vec::new();
    let mut i: usize = 0;
    assert(dated_views(dated@) =~= Seq::<(Seq<char>, Date)>::empty());
    while i < entries.len()
        invariant
            i <= entries.len(),
            book.wf(),
            book@ == old(book)@,
            views == written_views(entries@),
            dated@.len() == i,
            dated_of(views, i as nat) == Ok::<Seq<(Seq<char>, Date)>, int>(dated_views(dated@)),
        decreases entries.len() - i,
    {
        assert(views[i as int] == (entries@[i as int].0@, entries@[i as int].1@));
        let ghost prior = dated_views(dated@);
        match Date::parse(entries[i].1.as_str()) {
            Some(day) => {
                let name = entries[i].0.clone();
                dated.push((name, day));
                assert(dated_views(dated@) =~= prior.push((name@, day)));
            },
            None => {
                proof {
                    lemma_dated_error_stays(views, (i + 1) as nat, entries@.len());
                }
                return Err(i);
            },
        }
        i += 1;
    }
    Ok(withdraw_on(book, &dated))
}

} // verus!
