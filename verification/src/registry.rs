//! The session registry: which exam sessions exist, and under which key.

use crate::calendar::Date;
use crate::records::{
    session_views, ExamSession, ExamSessionView, ExamType, SessionKey, MAX_SESSION_NOTES,
};
use crate::text::{amend_notes, amended_notes, optional_text};
use vstd::prelude::*;
use vstd::utf8::encode_utf8;

verus! {

/// Why the registry refused a session.
#[derive(Clone, Copy, Debug, PartialEq, Eq, Structural)]
pub enum RegistryError {
    /// A session with this date and type, or with this key, exists already.
    Conflict,
    /// The notes are longer than [`MAX_SESSION_NOTES`] bytes.
    NotesTooLong,
    /// The date is no day of the calendar.
    InvalidDate,
    /// No key is left to give out.
    Exhausted,
    /// No session has this key.
    UnknownKey,
}

/// Some session has this date and type.
pub open spec fn has_identity(sessions: Seq<ExamSessionView>, date: Date, kind: ExamType) -> bool {
    exists|i: int| 0 <= i < sessions.len() && sessions[i].date == date && sessions[i].kind == kind
}

/// Some session has this key.
pub open spec fn has_session_key(sessions: Seq<ExamSessionView>, key: int) -> bool {
    exists|i: int| 0 <= i < sessions.len() && sessions[i].key == key
}

/// Where the session with this key stands.
pub open spec fn session_index(sessions: Seq<ExamSessionView>, key: int) -> int {
    choose|i: int| 0 <= i < sessions.len() && sessions[i].key == key
}

/// The key of the session with this date and type, if there is one.
pub open spec fn resolve_of(sessions: Seq<ExamSessionView>, date: Date, kind: ExamType) -> Option<
    int,
> {
    if has_identity(sessions, date, kind) {
        let i = choose|i: int|
            0 <= i < sessions.len() && sessions[i].date == date && sessions[i].kind == kind;
        Some(sessions[i].key)
    } else {
        None
    }
}

/// The date of the session with this key, if there is one.
pub open spec fn date_of_key(sessions: Seq<ExamSessionView>, key: int) -> Option<Date> {
    if has_session_key(sessions, key) {
        Some(sessions[session_index(sessions, key)].date)
    } else {
        None
    }
}

/// The largest key in use, or zero when none is positive.
pub open spec fn largest_key(sessions: Seq<ExamSessionView>) -> int
    decreases sessions.len(),
{
    if sessions.len() == 0 {
        0
    } else {
        let before = largest_key(sessions.drop_last());
        if sessions.last().key > before {
            sessions.last().key
        } else {
            before
        }
    }
}

/// No two sessions share a key or a date and type; every key is a 32-bit
/// number, every date is a day of the calendar and every note fits.
pub open spec fn registry_consistent(sessions: Seq<ExamSessionView>) -> bool {
    &&& forall|i: int, j: int|
        0 <= i < j < sessions.len() ==> sessions[i].key != sessions[j].key
    &&& forall|i: int, j: int|
        0 <= i < j < sessions.len() ==> !(sessions[i].date == sessions[j].date
            && sessions[i].kind == sessions[j].kind)
    &&& forall|i: int|
        0 <= i < sessions.len() ==> {
            &&& i32::MIN <= (#[trigger] sessions[i]).key <= i32::MAX
            &&& sessions[i].date.is_valid()
            &&& encode_utf8(sessions[i].notes).len() <= MAX_SESSION_NOTES
        }
}

/// What `create` and `restore` answer for a session with these parts, seen
/// against the sessions that exist.
pub open spec fn admission_of(
    sessions: Seq<ExamSessionView>,
    key: int,
    date: Date,
    kind: ExamType,
    notes: Seq<char>,
) -> Result<(), RegistryError> {
    if encode_utf8(notes).len() > MAX_SESSION_NOTES {
        Err(RegistryError::NotesTooLong)
    } else if !date.is_valid() {
        Err(RegistryError::InvalidDate)
    } else if has_identity(sessions, date, kind) {
        Err(RegistryError::Conflict)
    } else if key > i32::MAX {
        Err(RegistryError::Exhausted)
    } else if has_session_key(sessions, key) {
        Err(RegistryError::Conflict)
    } else {
        Ok(())
    }
}

/// The session after a change of day, type or notes. A part that is `None`
/// is left as it is.
pub open spec fn amended_session(
    session: ExamSessionView,
    date: Option<Date>,
    kind: Option<ExamType>,
    notes: Option<Seq<char>>,
) -> ExamSessionView {
    ExamSessionView {
        key: session.key,
        date: match date {
            Some(date) => date,
            None => session.date,
        },
        kind: match kind {
            Some(kind) => kind,
            None => session.kind,
        },
        notes: amended_notes(session.notes, notes),
    }
}

/// What the registry answers to a change of the session with key `key`,
/// seen against the sessions that exist: the notes must fit, the day must
/// exist, and no other session may be held on that day by that type.
pub open spec fn amendment_of(
    sessions: Seq<ExamSessionView>,
    key: int,
    date: Option<Date>,
    kind: Option<ExamType>,
    notes: Option<Seq<char>>,
) -> Result<ExamSessionView, RegistryError> {
    if !has_session_key(sessions, key) {
        Err(RegistryError::UnknownKey)
    } else {
        let current = sessions[session_index(sessions, key)];
        let target = amended_session(current, date, kind, notes);
        if encode_utf8(target.notes).len() > MAX_SESSION_NOTES {
            Err(RegistryError::NotesTooLong)
        } else if !target.date.is_valid() {
            Err(RegistryError::InvalidDate)
        } else if (target.date != current.date || target.kind != current.kind) && has_identity(
            sessions,
            target.date,
            target.kind,
        ) {
            Err(RegistryError::Conflict)
        } else {
            Ok(target)
        }
    }
}

/// The exam sessions that exist, in the order of registration.
pub struct Registry {
    sessions: Vec<ExamSession>,
}

impl View for Registry {
    type V = Seq<ExamSessionView>;

    closed spec fn view(&self) -> Seq<ExamSessionView> {
        session_views(self.sessions@)
    }
}

impl Registry {
    /// What every registry satisfies: see [`registry_consistent`].
    pub open spec fn wf(&self) -> bool {
        registry_consistent(self@)
    }

    /// A registry without sessions.
    pub fn new() -> (r: Registry)
        ensures
            r.wf(),
            r@ == Seq::<ExamSessionView>::empty(),
    {
        let r = Registry { sessions: Vec::new() };
        assert(r@ =~= Seq::<ExamSessionView>::empty());
        r
    }

    /// The number of sessions.
    pub fn len(&self) -> (r: usize)
        ensures
            r == self@.len(),
    {
        self.sessions.len()
    }

    /// The session at position `index`, in the order of registration.
    pub fn session(&self, index: usize) -> (r: Option<&ExamSession>)
        ensures
            r is Some <==> index < self@.len(),
            r is Some ==> r->0@ == self@[index as int],
    {
        if index < self.sessions.len() {
            Some(&self.sessions[index])
        } else {
            None
        }
    }

    fn position_of_identity(&self, date: &Date, kind: ExamType) -> (r: Option<usize>)
        ensures
            r is Some <==> has_identity(self@, *date, kind),
            r is Some ==> r->0 < self@.len() && self@[r->0 as int].date == *date
                && self@[r->0 as int].kind == kind,
    {
        let mut i: usize = 0;
        while i < self.sessions.len()
            invariant
                i <= self.sessions.len(),
                forall|j: int| 0 <= j < i ==> !(self@[j].date == *date && self@[j].kind == kind),
            decreases self.sessions.len() - i,
        {
            if self.sessions[i].date == *date && self.sessions[i].kind == kind {
                return Some(i);
            }
            i += 1;
        }
        None
    }

    fn position_of_key(&self, key: SessionKey) -> (r: Option<usize>)
        ensures
            r is Some <==> has_session_key(self@, key as int),
            r is Some ==> r->0 < self@.len() && self@[r->0 as int].key == key,
    {
        let mut i: usize = 0;
        while i < self.sessions.len()
            invariant
                i <= self.sessions.len(),
                forall|j: int| 0 <= j < i ==> self@[j].key != key,
            decreases self.sessions.len() - i,
        {
            if self.sessions[i].key == key {
                return Some(i);
            }
            i += 1;
        }
        None
    }

    /// The key of the session held on `date` by `kind`.
    pub fn resolve(&self, date: &Date, kind: ExamType) -> (r: Option<SessionKey>)
        requires
            self.wf(),
        ensures
            r is Some <==> has_identity(self@, *date, kind),
            match r {
                Some(key) => resolve_of(self@, *date, kind) == Some(key as int),
                None => resolve_of(self@, *date, kind) is None,
            },
    {
        match self.position_of_identity(date, kind) {
            Some(i) => Some(self.sessions[i].key),
            None => None,
        }
    }

    /// Whether a session has this key.
    pub fn contains_key(&self, key: SessionKey) -> (r: bool)
        ensures
            r == has_session_key(self@, key as int),
    {
        self.position_of_key(key).is_some()
    }

    /// The session with this key.
    pub fn get(&self, key: SessionKey) -> (r: Option<&ExamSession>)
        requires
            self.wf(),
        ensures
            r is Some <==> has_session_key(self@, key as int),
            r is Some ==> r->0@ == self@[session_index(self@, key as int)],
    {
        match self.position_of_key(key) {
            Some(i) => Some(&self.sessions[i]),
            None => None,
        }
    }

    /// The date of the session with this key.
    pub fn date_of(&self, key: SessionKey) -> (r: Option<Date>)
        requires
            self.wf(),
        ensures
            r == date_of_key(self@, key as int),
    {
        match self.position_of_key(key) {
            Some(i) => Some(self.sessions[i].date),
            None => None,
        }
    }

    fn next_key(&self) -> (r: i64)
        ensures
            r == largest_key(self@) + 1,
            forall|i: int| 0 <= i < self@.len() ==> self@[i].key < r,
    {
        let mut largest: i32 = 0;
        let mut i: usize = 0;
        while i < self.sessions.len()
            invariant
                i <= self.sessions.len(),
                largest == largest_key(self@.take(i as int)),
                forall|j: int| 0 <= j < i ==> self@[j].key <= largest,
            decreases self.sessions.len() - i,
        {
            proof {
                assert(self@.take(i + 1).drop_last() =~= self@.take(i as int));
            }
            if self.sessions[i].key > largest {
                largest = self.sessions[i].key;
            }
            i += 1;
        }
        proof {
            assert(self@.take(self@.len() as int) =~= self@);
        }
        largest as i64 + 1
    }

    fn take_in(&mut self, key: i64, date: Date, kind: ExamType, notes: String) -> (r: Result<
        (),
        RegistryError,
    >)
        requires
            old(self).wf(),
            i32::MIN <= key,
        ensures
            final(self).wf(),
            r == admission_of(old(self)@, key as int, date, kind, notes@),
            r is Ok ==> final(self)@ == old(self)@.push(
                ExamSessionView { key: key as int, date, kind, notes: notes@ },
            ),
            r is Err ==> final(self)@ == old(self)@,
    {
        if notes.as_str().as_bytes().len() > MAX_SESSION_NOTES {
            return Err(RegistryError::NotesTooLong);
        }
        if !date.check() {
            return Err(RegistryError::InvalidDate);
        }
        if self.position_of_identity(&date, kind).is_some() {
            return Err(RegistryError::Conflict);
        }
        if key > i32::MAX as i64 {
            return Err(RegistryError::Exhausted);
        }
        if self.position_of_key(key as i32).is_some() {
            return Err(RegistryError::Conflict);
        }
        self.sessions.push(ExamSession { key: key as i32, date, kind, notes });
        assert(self@ =~= old(self)@.push(
            ExamSessionView { key: key as int, date, kind, notes: notes@ },
        ));
        Ok(())
    }

    /// Registers a new session and gives it the key after the largest one in
    /// use.
    pub fn create(&mut self, date: Date, kind: ExamType, notes: String) -> (r: Result<
        SessionKey,
        RegistryError,
    >)
        requires
            old(self).wf(),
        ensures
            final(self).wf(),
            match r {
                Ok(key) => {
                    &&& key == largest_key(old(self)@) + 1
                    &&& admission_of(old(self)@, key as int, date, kind, notes@) is Ok
                    &&& final(self)@ == old(self)@.push(
                        ExamSessionView { key: key as int, date, kind, notes: notes@ },
                    )
                },
                Err(e) => {
                    &&& admission_of(old(self)@, largest_key(old(self)@) + 1, date, kind, notes@)
                        == Err::<(), RegistryError>(e)
                    &&& final(self)@ == old(self)@
                },
            },
    {
        let key = self.next_key();
        match self.take_in(key, date, kind, notes) {
            Ok(()) => Ok(key as i32),
            Err(e) => Err(e),
        }
    }

    /// Takes in a session that already has a key, as when the registry is
    /// filled from what was stored earlier.
    pub fn restore(&mut self, session: ExamSession) -> (r: Result<(), RegistryError>)
        requires
            old(self).wf(),
        ensures
            final(self).wf(),
            r == admission_of(
                old(self)@,
                session@.key,
                session@.date,
                session@.kind,
                session@.notes,
            ),
            r is Ok ==> final(self)@ == old(self)@.push(session@),
            r is Err ==> final(self)@ == old(self)@,
    {
        self.take_in(session.key as i64, session.date, session.kind, session.notes)
    }

    /// Changes day, type and notes of the session with key `key`. A part
    /// that is `None` is left as it is. Says whether anything changed. When
    /// the change is turned away, nothing changes.
    pub fn amend(
        &mut self,
        key: SessionKey,
        date: Option<Date>,
        kind: Option<ExamType>,
        notes: Option<String>,
    ) -> (r: Result<bool, RegistryError>)
        requires
            old(self).wf(),
        ensures
            final(self).wf(),
            final(self)@.len() == old(self)@.len(),
            forall|i: int| 0 <= i < old(self)@.len() ==> final(self)@[i].key == old(self)@[i].key,
            match r {
                Ok(changed) => {
                    let target = amendment_of(
                        old(self)@,
                        key as int,
                        date,
                        kind,
                        optional_text(notes),
                    );
                    &&& target is Ok
                    &&& final(self)@ == old(self)@.update(
                        session_index(old(self)@, key as int),
                        target->Ok_0,
                    )
                    &&& changed == (final(self)@ != old(self)@)
                },
                Err(e) => {
                    &&& amendment_of(old(self)@, key as int, date, kind, optional_text(notes))
                        == Err::<ExamSessionView, RegistryError>(e)
                    &&& final(self)@ == old(self)@
                },
            },
    {
        let at = match self.position_of_key(key) {
            Some(at) => at,
            None => {
                return Err(RegistryError::UnknownKey);
            },
        };
        let current = &self.sessions[at];
        let new_date = match date {
            Some(date) => date,
            None => current.date,
        };
        let new_kind = match kind {
            Some(kind) => kind,
            None => current.kind,
        };
        let new_notes = amend_notes(&current.notes, &notes);
        if new_notes.as_str().as_bytes().len() > MAX_SESSION_NOTES {
            return Err(RegistryError::NotesTooLong);
        }
        if !new_date.check() {
            return Err(RegistryError::InvalidDate);
        }
        let moved = new_date != current.date || new_kind != current.kind;
        if moved && self.position_of_identity(&new_date, new_kind).is_some() {
            return Err(RegistryError::Conflict);
        }
        let changed = moved || new_notes != current.notes;
        let ghost target = amended_session(old(self)@[at as int], date, kind, optional_text(notes));
        let mut sessions = Vec::new();
        std::mem::swap(&mut sessions, &mut self.sessions);
        sessions.set(at, ExamSession { key, date: new_date, kind: new_kind, notes: new_notes });
        self.sessions = sessions;
        proof {
            assert(self@ =~= old(self)@.update(at as int, target));
            if changed {
                assert(self@[at as int] != old(self)@[at as int]);
            } else {
                assert(self@ =~= old(self)@);
            }
            assert forall|i: int, j: int| 0 <= i < j < self@.len() implies !(self@[i].date
                == self@[j].date && self@[i].kind == self@[j].kind) by {
                if moved {
                    if i == at {
                        assert(!(old(self)@[j].date == new_date && old(self)@[j].kind == new_kind));
                    }
                    if j == at {
                        assert(!(old(self)@[i].date == new_date && old(self)@[i].kind == new_kind));
                    }
                }
            }
        }
        Ok(changed)
    }

    /// Takes the session with this key out of the registry. Says whether
    /// there was one.
    pub fn remove(&mut self, key: SessionKey) -> (r: bool)
        requires
            old(self).wf(),
        ensures
            final(self).wf(),
            r == has_session_key(old(self)@, key as int),
            r ==> final(self)@ == old(self)@.remove(session_index(old(self)@, key as int)),
            !r ==> final(self)@ == old(self)@,
    {
        match self.position_of_key(key) {
            Some(i) => {
                self.sessions.remove(i);
                assert(self@ =~= old(self)@.remove(i as int));
                true
            },
            None => false,
        }
    }
}

} // verus!
