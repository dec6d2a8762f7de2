//! The roster: which students exist, and the standing last derived for each.

use crate::eligibility::{criteria_label, Criteria};
use crate::records::{attribute_of, enrollment_of, EnrollmentStatus, StudentAttribute};
use crate::text::{
    amend_notes, amended_notes, lemma_upper_idempotent, optional_text, same_text, to_upper,
    upper_of,
};
use vstd::prelude::*;

verus! {

/// One student. `is_passed` and `passing_criteria` are derived from the
/// attendance history; a roster changes them only when a standing is
/// recorded.
#[derive(Debug)]
pub struct Student {
    pub id: String,
    pub name: String,
    pub enrollment: EnrollmentStatus,
    pub attribute: StudentAttribute,
    pub is_passed: bool,
    pub passing_criteria: Option<String>,
    pub notes: String,
}

/// A student as plain values.
pub struct StudentView {
    pub id: Seq<char>,
    pub name: Seq<char>,
    pub enrollment: EnrollmentStatus,
    pub attribute: StudentAttribute,
    pub is_passed: bool,
    pub passing_criteria: Option<Seq<char>>,
    pub notes: Seq<char>,
}

impl View for Student {
    type V = StudentView;

    open spec fn view(&self) -> StudentView {
        StudentView {
            id: self.id@,
            name: self.name@,
            enrollment: self.enrollment,
            attribute: self.attribute,
            is_passed: self.is_passed,
            passing_criteria: match self.passing_criteria {
                Some(text) => Some(text@),
                None => None,
            },
            notes: self.notes@,
        }
    }
}

/// The views of a run of students, in order.
pub open spec fn student_views(students: Seq<Student>) -> Seq<StudentView> {
    Seq::new(students.len(), |i: int| students[i]@)
}

/// Some student has this identifier.
pub open spec fn has_student(students: Seq<StudentView>, id: Seq<char>) -> bool {
    exists|i: int| 0 <= i < students.len() && students[i].id == id
}

/// Where the student with this identifier stands.
pub open spec fn student_index(students: Seq<StudentView>, id: Seq<char>) -> int {
    choose|i: int| 0 <= i < students.len() && students[i].id == id
}

/// No two students share an identifier, and every identifier is in upper
/// case.
pub open spec fn roster_consistent(students: Seq<StudentView>) -> bool {
    &&& forall|i: int, j: int| 0 <= i < j < students.len() ==> students[i].id != students[j].id
    &&& forall|i: int| 0 <= i < students.len() ==> upper_of(students[i].id) == students[i].id
}

/// A student as first enrolled: not passed, no criteria.
pub open spec fn fresh_student(
    id: Seq<char>,
    name: Seq<char>,
    enrollment: EnrollmentStatus,
    attribute: StudentAttribute,
    notes: Seq<char>,
) -> StudentView {
    StudentView {
        id: upper_of(id),
        name,
        enrollment,
        attribute,
        is_passed: false,
        passing_criteria: None,
        notes,
    }
}

/// The student with the standing that `criteria` gives.
pub open spec fn with_criteria(student: StudentView, criteria: Criteria) -> StudentView {
    StudentView {
        is_passed: criteria.spec_is_passed(),
        passing_criteria: criteria_label(criteria),
        ..student
    }
}

/// The roster in which the student `id` has the standing that `criteria`
/// gives, and every other student is as before.
pub open spec fn with_standing(students: Seq<StudentView>, id: Seq<char>, criteria: Criteria) -> Seq<
    StudentView,
> {
    Seq::new(
        students.len(),
        |i: int|
            if students[i].id == id {
                with_criteria(students[i], criteria)
            } else {
                students[i]
            },
    )
}

/// Changes asked for to one student. A part that is `None` is left as it
/// is.
#[derive(Debug)]
pub struct Amendment {
    pub name: Option<String>,
    /// The label of the new enrolment status.
    pub enrollment_status: Option<String>,
    /// The label of the new attribute.
    pub student_attribute: Option<String>,
    pub notes: Option<String>,
}

/// An amendment as plain values.
pub struct AmendmentView {
    pub name: Option<Seq<char>>,
    pub enrollment_status: Option<Seq<char>>,
    pub student_attribute: Option<Seq<char>>,
    pub notes: Option<Seq<char>>,
}

impl View for Amendment {
    type V = AmendmentView;

    open spec fn view(&self) -> AmendmentView {
        AmendmentView {
            name: optional_text(self.name),
            enrollment_status: optional_text(self.enrollment_status),
            student_attribute: optional_text(self.student_attribute),
            notes: optional_text(self.notes),
        }
    }
}

/// Why an amendment was turned away.
#[derive(Clone, Copy, Debug, PartialEq, Eq, Structural)]
pub enum AmendError {
    /// No student has this identifier.
    UnknownStudent,
    /// The label names no enrolment status.
    UnknownStatus,
    /// The label names no attribute.
    UnknownAttribute,
}

/// The enrolment status after an amendment: as before when no label is
/// given or the label is that of the present status, else the status that
/// the label names.
pub open spec fn amended_enrollment(current: EnrollmentStatus, label: Option<Seq<char>>) -> Result<
    EnrollmentStatus,
    AmendError,
> {
    match label {
        None => Ok(current),
        Some(label) => if label == current.label() {
            Ok(current)
        } else {
            match enrollment_of(label) {
                Some(status) => Ok(status),
                None => Err(AmendError::UnknownStatus),
            }
        },
    }
}

/// The attribute after an amendment: as before when no label is given or
/// the label is that of the present attribute, else the attribute that the
/// label names.
pub open spec fn amended_attribute(current: StudentAttribute, label: Option<Seq<char>>) -> Result<
    StudentAttribute,
    AmendError,
> {
    match label {
        None => Ok(current),
        Some(label) => if label == current.label() {
            Ok(current)
        } else {
            match attribute_of(label) {
                Some(attribute) => Ok(attribute),
                None => Err(AmendError::UnknownAttribute),
            }
        },
    }
}

/// The student after an amendment. The standing is not touched.
pub open spec fn amended(student: StudentView, amendment: AmendmentView) -> Result<
    StudentView,
    AmendError,
> {
    match amended_enrollment(student.enrollment, amendment.enrollment_status) {
        Err(e) => Err(e),
        Ok(enrollment) => match amended_attribute(student.attribute, amendment.student_attribute) {
            Err(e) => Err(e),
            Ok(attribute) => Ok(
                StudentView {
                    name: match amendment.name {
                        Some(name) => name,
                        None => student.name,
                    },
                    enrollment,
                    attribute,
                    notes: amended_notes(student.notes, amendment.notes),
                    ..student
                },
            ),
        },
    }
}

/// Why the roster refused a student.
#[derive(Clone, Copy, Debug, PartialEq, Eq, Structural)]
pub enum RosterError {
    /// A student with this identifier exists already.
    Conflict,
    /// The identifier is empty.
    EmptyId,
}

/// The students that exist, in the order of enrolment.
pub struct Roster {
    students: Vec<Student>,
}

impl View for Roster {
    type V = Seq<StudentView>;

    closed spec fn view(&self) -> Seq<StudentView> {
        student_views(self.students@)
    }
}

impl Roster {
    /// What every roster satisfies: see [`roster_consistent`].
    pub open spec fn wf(&self) -> bool {
        roster_consistent(self@)
    }

    /// A roster without students.
    pub fn new() -> (r: Roster)
        ensures
            r.wf(),
            r@ == Seq::<StudentView>::empty(),
    {
        let r = Roster { students: Vec::new() };
        assert(r@ =~= Seq::<StudentView>::empty());
        r
    }

    /// The number of students.
    pub fn len(&self) -> (r: usize)
        ensures
            r == self@.len(),
    {
        self.students.len()
    }

    /// The student at position `index`, in the order of enrolment.
    pub fn student(&self, index: usize) -> (r: Option<&Student>)
        ensures
            r is Some <==> index < self@.len(),
            r is Some ==> r->0@ == self@[index as int],
    {
        if index < self.students.len() {
            Some(&self.students[index])
        } else {
            None
        }
    }

    /// Where the student with exactly this identifier stands.
    pub(crate) fn position_of(&self, id: &String) -> (r: Option<usize>)
        ensures
            r is Some <==> has_student(self@, id@),
            r is Some ==> r->0 < self@.len() && self@[r->0 as int].id == id@,
    {
        let mut i: usize = 0;
        while i < self.students.len()
            invariant
                i <= self.students.len(),
                forall|j: int| 0 <= j < i ==> self@[j].id != id@,
            decreases self.students.len() - i,
        {
            if self.students[i].id == *id {
                return Some(i);
            }
            i += 1;
        }
        None
    }

    /// Whether a student has this identifier, letter case aside.
    pub fn contains(&self, id: &str) -> (r: bool)
        ensures
            r == has_student(self@, upper_of(id@)),
    {
        let key = to_upper(id);
        self.position_of(&key).is_some()
    }

    /// The student with this identifier, letter case aside.
    pub fn get(&self, id: &str) -> (r: Option<&Student>)
        requires
            self.wf(),
        ensures
            r is Some <==> has_student(self@, upper_of(id@)),
            r is Some ==> r->0@ == self@[student_index(self@, upper_of(id@))],
    {
        let key = to_upper(id);
        match self.position_of(&key) {
            Some(i) => Some(&self.students[i]),
            None => None,
        }
    }

    /// Enrols a student under the upper-case form of `id`.
    pub fn enroll(
        &mut self,
        id: &str,
        name: String,
        enrollment: EnrollmentStatus,
        attribute: StudentAttribute,
        notes: String,
    ) -> (r: Result<(), RosterError>)
        requires
            old(self).wf(),
        ensures
            final(self).wf(),
            r == (if id@.len() == 0 {
                Err::<(), RosterError>(RosterError::EmptyId)
            } else if has_student(old(self)@, upper_of(id@)) {
                Err(RosterError::Conflict)
            } else {
                Ok(())
            }),
            r is Ok ==> final(self)@ == old(self)@.push(
                fresh_student(id@, name@, enrollment, attribute, notes@),
            ),
            r is Err ==> final(self)@ == old(self)@,
    {
        if id.unicode_len() == 0 {
            return Err(RosterError::EmptyId);
        }
        let key = to_upper(id);
        if self.position_of(&key).is_some() {
            return Err(RosterError::Conflict);
        }
        proof {
            lemma_upper_idempotent(id@);
        }
        self.students.push(
            Student {
                id: key,
                name,
                enrollment,
                attribute,
                is_passed: false,
                passing_criteria: None,
                notes,
            },
        );
        assert(self@ =~= old(self)@.push(
            fresh_student(id@, name@, enrollment, attribute, notes@),
        ));
        Ok(())
    }

    /// Takes the student with this identifier, letter case aside, off the
    /// roster. Says whether there was one.
    pub fn remove(&mut self, id: &str) -> (r: bool)
        requires
            old(self).wf(),
        ensures
            final(self).wf(),
            r == has_student(old(self)@, upper_of(id@)),
            r ==> final(self)@ == old(self)@.remove(student_index(old(self)@, upper_of(id@))),
            !r ==> final(self)@ == old(self)@,
    {
        let key = to_upper(id);
        match self.position_of(&key) {
            Some(i) => {
                self.students.remove(i);
                assert(self@ =~= old(self)@.remove(i as int));
                true
            },
            None => false,
        }
    }

    /// Changes name, enrolment status, attribute and notes of the student
    /// `id`, letter case aside, as the amendment asks. Says whether anything
    /// changed. When the amendment is turned away, nothing changes.
    pub fn amend(&mut self, id: &str, amendment: &Amendment) -> (r: Result<bool, AmendError>)
        requires
            old(self).wf(),
        ensures
            final(self).wf(),
            final(self)@.len() == old(self)@.len(),
            forall|i: int| 0 <= i < old(self)@.len() ==> final(self)@[i].id == old(self)@[i].id,
            match r {
                Ok(changed) => {
                    let at = student_index(old(self)@, upper_of(id@));
                    &&& has_student(old(self)@, upper_of(id@))
                    &&& amended(old(self)@[at], amendment@) is Ok
                    &&& final(self)@ == old(self)@.update(
                        at,
                        amended(old(self)@[at], amendment@)->Ok_0,
                    )
                    &&& changed == (final(self)@ != old(self)@)
                },
                Err(e) => {
                    &&& final(self)@ == old(self)@
                    &&& e == (if !has_student(old(self)@, upper_of(id@)) {
                        AmendError::UnknownStudent
                    } else {
                        amended(
                            old(self)@[student_index(old(self)@, upper_of(id@))],
                            amendment@,
                        )->Err_0
                    })
                    &&& has_student(old(self)@, upper_of(id@)) ==> amended(
                        old(self)@[student_index(old(self)@, upper_of(id@))],
                        amendment@,
                    ) is Err
                },
            },
    {
        let key = to_upper(id);
        let at = match self.position_of(&key) {
            Some(at) => at,
            None => {
                return Err(AmendError::UnknownStudent);
            },
        };
        let current = &self.students[at];
        let enrollment = match &amendment.enrollment_status {
            None => current.enrollment,
            Some(label) => {
                if same_text(label.as_str(), current.enrollment.to_label()) {
                    current.enrollment
                } else {
                    match EnrollmentStatus::from_label(label.as_str()) {
                        Some(status) => status,
                        None => {
                            return Err(AmendError::UnknownStatus);
                        },
                    }
                }
            },
        };
        let attribute = match &amendment.student_attribute {
            None => current.attribute,
            Some(label) => {
                if same_text(label.as_str(), current.attribute.to_label()) {
                    current.attribute
                } else {
                    match StudentAttribute::from_label(label.as_str()) {
                        Some(attribute) => attribute,
                        None => {
                            return Err(AmendError::UnknownAttribute);
                        },
                    }
                }
            },
        };
        let name = match &amendment.name {
            Some(name) => name.clone(),
            None => current.name.clone(),
        };
        let notes = amend_notes(&current.notes, &amendment.notes);
        let changed = name != current.name || enrollment != current.enrollment || attribute
            != current.attribute || notes != current.notes;
        let mut students = Vec::new();
        std::mem::swap(&mut students, &mut self.students);
        let mut student = students.remove(at);
        student.name = name;
        student.enrollment = enrollment;
        student.attribute = attribute;
        student.notes = notes;
        students.insert(at, student);
        self.students = students;
        proof {
            let target = amended(old(self)@[at as int], amendment@)->Ok_0;
            assert(self@ =~= old(self)@.update(at as int, target));
            if changed {
                assert(self@[at as int] != old(self)@[at as int]);
            } else {
                assert(self@ =~= old(self)@);
            }
        }
        Ok(changed)
    }

    /// Writes down the standing that `criteria` gives for the student with
    /// exactly this identifier, replacing what was there. Says whether
    /// there is such a student.
    pub(crate) fn record_standing(&mut self, id: &String, criteria: Criteria) -> (r: bool)
        requires
            old(self).wf(),
        ensures
            final(self).wf(),
            r == has_student(old(self)@, id@),
            final(self)@ == with_standing(old(self)@, id@, criteria),
    {
        match self.position_of(id) {
            Some(i) => {
                let label = criteria.label();
                let passed = criteria.is_passed();
                let mut students = Vec::new();
                std::mem::swap(&mut students, &mut self.students);
                let mut student = students.remove(i);
                student.is_passed = passed;
                student.passing_criteria = label;
                students.insert(i, student);
                self.students = students;
                assert(self@ =~= with_standing(old(self)@, id@, criteria));
                true
            },
            None => {
                assert(self@ =~= with_standing(old(self)@, id@, criteria));
                false
            },
        }
    }
}

} // verus!
