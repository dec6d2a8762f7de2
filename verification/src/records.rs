//! The records the library keeps, and the plain mathematical view of each.

use crate::calendar::Date;
use crate::text::{same_text, to_upper, upper_of};
use vstd::prelude::*;

verus! {

/// The surrogate key of an exam session.
pub type SessionKey = i32;

/// Longest note an exam session may carry, in bytes.
pub const MAX_SESSION_NOTES: usize = 255;

/// Who organises an exam session.
#[derive(Clone, Copy, Debug, PartialEq, Eq, Structural)]
pub enum ExamType {
    Official,
    School,
}

impl ExamType {
    /// The label under which the type is stored and shown.
    pub open spec fn label(self) -> Seq<char> {
        match self {
            ExamType::Official => "官辦"@,
            ExamType::School => "自辦"@,
        }
    }

    /// The label as a text of its own.
    pub fn to_string(&self) -> (r: String)
        ensures
            r@ == self.label(),
    {
        match self {
            ExamType::Official => "官辦".to_owned(),
            ExamType::School => "自辦".to_owned(),
        }
    }
}

/// Whether a student is currently registered.
#[derive(Clone, Copy, Debug, PartialEq, Eq, Structural)]
pub enum EnrollmentStatus {
    CurrentlyEnrolled,
    OnALeaveOfAbsence,
    DroppedOut,
}

impl EnrollmentStatus {
    /// The serial number under which the status is stored.
    pub open spec fn serial(self) -> int {
        match self {
            EnrollmentStatus::CurrentlyEnrolled => 1,
            EnrollmentStatus::OnALeaveOfAbsence => 2,
            EnrollmentStatus::DroppedOut => 3,
        }
    }

    /// The label under which the status is entered in sheets.
    pub open spec fn label(self) -> Seq<char> {
        match self {
            EnrollmentStatus::CurrentlyEnrolled => "在學"@,
            EnrollmentStatus::OnALeaveOfAbsence => "休學"@,
            EnrollmentStatus::DroppedOut => "退學"@,
        }
    }

    /// The serial number of the status.
    pub fn to_sn(&self) -> (r: i32)
        ensures
            r == self.serial(),
    {
        match self {
            EnrollmentStatus::CurrentlyEnrolled => 1,
            EnrollmentStatus::OnALeaveOfAbsence => 2,
            EnrollmentStatus::DroppedOut => 3,
        }
    }

    /// The label of the status.
    pub fn to_label(&self) -> (r: &'static str)
        ensures
            r@ == self.label(),
    {
        match self {
            EnrollmentStatus::CurrentlyEnrolled => "在學",
            EnrollmentStatus::OnALeaveOfAbsence => "休學",
            EnrollmentStatus::DroppedOut => "退學",
        }
    }

    /// The status that `label` names.
    pub fn from_label(label: &str) -> (r: Option<EnrollmentStatus>)
        ensures
            r == enrollment_of(label@),
    {
        if same_text(label, "在學") {
            Some(EnrollmentStatus::CurrentlyEnrolled)
        } else if same_text(label, "休學") {
            Some(EnrollmentStatus::OnALeaveOfAbsence)
        } else if same_text(label, "退學") {
            Some(EnrollmentStatus::DroppedOut)
        } else {
            None
        }
    }
}

/// The status that a label names.
pub open spec fn enrollment_of(label: Seq<char>) -> Option<EnrollmentStatus> {
    if label == EnrollmentStatus::CurrentlyEnrolled.label() {
        Some(EnrollmentStatus::CurrentlyEnrolled)
    } else if label == EnrollmentStatus::OnALeaveOfAbsence.label() {
        Some(EnrollmentStatus::OnALeaveOfAbsence)
    } else if label == EnrollmentStatus::DroppedOut.label() {
        Some(EnrollmentStatus::DroppedOut)
    } else {
        None
    }
}

/// The attribute that a label names.
pub open spec fn attribute_of(label: Seq<char>) -> Option<StudentAttribute> {
    if label == StudentAttribute::Departmental.label() {
        Some(StudentAttribute::Departmental)
    } else if label == StudentAttribute::Interdepartmental.label() {
        Some(StudentAttribute::Interdepartmental)
    } else if label == StudentAttribute::ExternalStudents.label() {
        Some(StudentAttribute::ExternalStudents)
    } else {
        None
    }
}

/// Where a student belongs.
#[derive(Clone, Copy, Debug, PartialEq, Eq, Structural)]
pub enum StudentAttribute {
    Departmental,
    Interdepartmental,
    ExternalStudents,
}

impl StudentAttribute {
    /// The serial number under which the attribute is stored.
    pub open spec fn serial(self) -> int {
        match self {
            StudentAttribute::Departmental => 1,
            StudentAttribute::Interdepartmental => 2,
            StudentAttribute::ExternalStudents => 3,
        }
    }

    /// The label under which the attribute is entered in sheets.
    pub open spec fn label(self) -> Seq<char> {
        match self {
            StudentAttribute::Departmental => "本系"@,
            StudentAttribute::Interdepartmental => "外系"@,
            StudentAttribute::ExternalStudents => "外校"@,
        }
    }

    /// The serial number of the attribute.
    pub fn to_sn(&self) -> (r: i32)
        ensures
            r == self.serial(),
    {
        match self {
            StudentAttribute::Departmental => 1,
            StudentAttribute::Interdepartmental => 2,
            StudentAttribute::ExternalStudents => 3,
        }
    }

    /// The label of the attribute.
    pub fn to_label(&self) -> (r: &'static str)
        ensures
            r@ == self.label(),
    {
        match self {
            StudentAttribute::Departmental => "本系",
            StudentAttribute::Interdepartmental => "外系",
            StudentAttribute::ExternalStudents => "外校",
        }
    }

    /// The attribute that `label` names.
    pub fn from_label(label: &str) -> (r: Option<StudentAttribute>)
        ensures
            r == attribute_of(label@),
    {
        if same_text(label, "本系") {
            Some(StudentAttribute::Departmental)
        } else if same_text(label, "外系") {
            Some(StudentAttribute::Interdepartmental)
        } else if same_text(label, "外校") {
            Some(StudentAttribute::ExternalStudents)
        } else {
            None
        }
    }
}

/// One scheduled exam.
#[derive(Debug)]
pub struct ExamSession {
    pub key: SessionKey,
    pub date: Date,
    pub kind: ExamType,
    pub notes: String,
}

/// An exam session as plain values.
pub struct ExamSessionView {
    pub key: int,
    pub date: Date,
    pub kind: ExamType,
    pub notes: Seq<char>,
}

impl View for ExamSession {
    type V = ExamSessionView;

    open spec fn view(&self) -> ExamSessionView {
        ExamSessionView {
            key: self.key as int,
            date: self.date,
            kind: self.kind,
            notes: self.notes@,
        }
    }
}

impl Clone for ExamSession {
    fn clone(&self) -> (r: Self)
        ensures
            r == *self,
    {
        ExamSession {
            key: self.key,
            date: self.date,
            kind: self.kind,
            notes: self.notes.clone(),
        }
    }
}

/// One student's outcome for one session. The same shape serves as the
/// command that asks for such a row to be written.
#[derive(Debug)]
pub struct Attendance {
    pub session: SessionKey,
    pub student: String,
    pub is_absent: bool,
    pub is_excused: bool,
    pub score: u32,
    pub notes: String,
}

/// An attendance row as plain values.
pub struct AttendanceView {
    pub session: int,
    pub student: Seq<char>,
    pub is_absent: bool,
    pub is_excused: bool,
    pub score: int,
    pub notes: Seq<char>,
}

impl View for Attendance {
    type V = AttendanceView;

    open spec fn view(&self) -> AttendanceView {
        AttendanceView {
            session: self.session as int,
            student: self.student@,
            is_absent: self.is_absent,
            is_excused: self.is_excused,
            score: self.score as int,
            notes: self.notes@,
        }
    }
}

impl Clone for Attendance {
    fn clone(&self) -> (r: Self)
        ensures
            r == *self,
    {
        Attendance {
            session: self.session,
            student: self.student.clone(),
            is_absent: self.is_absent,
            is_excused: self.is_excused,
            score: self.score,
            notes: self.notes.clone(),
        }
    }
}

/// The views of a run of attendance rows, in order.
pub open spec fn attendance_views(rows: Seq<Attendance>) -> Seq<AttendanceView> {
    Seq::new(rows.len(), |i: int| rows[i]@)
}

/// The views of a run of exam sessions, in order.
pub open spec fn session_views(sessions: Seq<ExamSession>) -> Seq<ExamSessionView> {
    Seq::new(sessions.len(), |i: int| sessions[i]@)
}

/// A row counts no fewer than zero correct answers, an excused row is an
/// absent one, and an absent row scores nothing.
pub open spec fn row_consistent(row: AttendanceView) -> bool {
    &&& row.score >= 0
    &&& row.is_excused ==> row.is_absent
    &&& row.is_absent ==> row.score == 0
}

/// The row that a stored row stands for: the identifier in upper case, an
/// excuse kept only with an absence, and an absence without score. A stored
/// row with a count below zero stands for none.
pub open spec fn stored_row_of(
    session: int,
    student: Seq<char>,
    is_absent: bool,
    is_excused: bool,
    count: int,
    notes: Seq<char>,
) -> Option<AttendanceView> {
    if count < 0 {
        None
    } else {
        Some(
            AttendanceView {
                session,
                student: upper_of(student),
                is_absent,
                is_excused: is_absent && is_excused,
                score: if is_absent {
                    0
                } else {
                    count
                },
                notes,
            },
        )
    }
}

impl Attendance {
    /// Makes a row of the ledger from a row as it was stored. The row made
    /// is consistent, whatever was stored.
    pub fn from_stored(
        session: SessionKey,
        student: &str,
        is_absent: bool,
        is_excused: bool,
        count: i32,
        notes: String,
    ) -> (r: Option<Attendance>)
        ensures
            match r {
                Some(row) => stored_row_of(
                    session as int,
                    student@,
                    is_absent,
                    is_excused,
                    count as int,
                    notes@,
                ) == Some(row@) && row_consistent(row@),
                None => count < 0,
            },
    {
        if count < 0 {
            return None;
        }
        Some(
            Attendance {
                session,
                student: to_upper(student),
                is_absent,
                is_excused: is_absent && is_excused,
                score: if is_absent {
                    0
                } else {
                    count as u32
                },
                notes,
            },
        )
    }

    /// Whether the row is consistent: see [`row_consistent`].
    pub fn is_consistent(&self) -> (r: bool)
        ensures
            r == row_consistent(self@),
    {
        (!self.is_excused || self.is_absent) && (!self.is_absent || self.score == 0)
    }
}

} // verus!
