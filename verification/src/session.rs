use vstd::prelude::*;
use crate::error::AppError;

verus! {

/// Lifecycle state of a debugging session.
#[derive(Clone, Copy, Debug, PartialEq, Eq, Structural)]
pub enum GDBSessionStatus {
    Created,
    Running,
    Stopped,
    Terminated,
}

/// Public information about a debugging session.
#[derive(Clone, Debug)]
pub struct GDBSession {
    pub id: String,
    pub status: GDBSessionStatus,
    pub created_at: u64,
}

/// What the registry knows of one session, as mathematical values.
pub struct SessionRecord {
    pub id: Seq<char>,
    pub status: GDBSessionStatus,
    pub created_at: u64,
    pub exited: bool,
    pub started: bool,
}

/// No two records share an identifier.
pub open spec fn unique_ids(s: Seq<SessionRecord>) -> bool {
    forall|i: int, j: int| 0 <= i < s.len() && 0 <= j < s.len() && i != j ==> s[i].id != s[j].id
}

/// The position of the record with identifier `id`, searching from the end; -1 if none.
pub open spec fn index_of(s: Seq<SessionRecord>, id: Seq<char>) -> int
    decreases s.len(),
{
    if s.len() == 0 {
        -1
    } else if s.last().id == id {
        s.len() - 1
    } else {
        index_of(s.drop_last(), id)
    }
}

/// The record with identifier `id`, if any.
pub open spec fn lookup(s: Seq<SessionRecord>, id: Seq<char>) -> Option<SessionRecord> {
    let i = index_of(s, id);
    if i >= 0 { Some(s[i]) } else { None }
}

/// Registers `r`, replacing any record with the same identifier.
pub open spec fn spec_insert(s: Seq<SessionRecord>, r: SessionRecord) -> Seq<SessionRecord> {
    let i = index_of(s, r.id);
    if i >= 0 { s.update(i, r) } else { s.push(r) }
}

/// Drops the record with identifier `id`, if any.
pub open spec fn spec_remove(s: Seq<SessionRecord>, id: Seq<char>) -> Seq<SessionRecord> {
    let i = index_of(s, id);
    if i >= 0 { s.remove(i) } else { s }
}

/// Sets the status of the record with identifier `id`, if any.
pub open spec fn spec_set_status(s: Seq<SessionRecord>, id: Seq<char>, st: GDBSessionStatus) -> Seq<SessionRecord> {
    let i = index_of(s, id);
    if i >= 0 { s.update(i, SessionRecord { status: st, ..s[i] }) } else { s }
}

/// Sets whether the program of the session with identifier `id` has exited, if any.
pub open spec fn spec_set_exited(s: Seq<SessionRecord>, id: Seq<char>, exited: bool) -> Seq<SessionRecord> {
    let i = index_of(s, id);
    if i >= 0 { s.update(i, SessionRecord { exited, ..s[i] }) } else { s }
}

/// The status reported for a record: a session whose program has exited is terminated.
pub open spec fn reported_status(r: SessionRecord) -> GDBSessionStatus {
    if r.exited { GDBSessionStatus::Terminated } else { r.status }
}

/// A program is running: it has been started and has not exited since.
pub open spec fn running(r: SessionRecord) -> bool {
    r.started && !r.exited
}

/// A session exists and its program is running.
pub open spec fn spec_is_active(s: Seq<SessionRecord>, id: Seq<char>) -> bool {
    lookup(s, id) matches Some(r) && running(r)
}

/// Records that the run command of the session with identifier `id` was answered: the
/// program has been started and the session's status is `Running`. The exit flag is left
/// as it is, so an exit reported meanwhile stands. Nothing happens for an unknown
/// identifier.
pub open spec fn spec_start(s: Seq<SessionRecord>, id: Seq<char>) -> Seq<SessionRecord> {
    let i = index_of(s, id);
    if i >= 0 {
        s.update(i, SessionRecord { status: GDBSessionStatus::Running, started: true, ..s[i] })
    } else {
        s
    }
}

/// Records that GDB reported a program of the session with identifier `id` starting (a
/// process run in any way, or attached to): the program is live and has not exited. The
/// status is left as it is. Nothing happens for an unknown identifier.
pub open spec fn spec_program_live(s: Seq<SessionRecord>, id: Seq<char>) -> Seq<SessionRecord> {
    let i = index_of(s, id);
    if i >= 0 { s.update(i, SessionRecord { exited: false, started: true, ..s[i] }) } else { s }
}

/// The record of a freshly created session; `attached` tells whether GDB was attached to
/// a running process, whose program is then live from the start.
pub open spec fn created_record(id: Seq<char>, created_at: u64, attached: bool) -> SessionRecord {
    SessionRecord { id, status: GDBSessionStatus::Created, created_at, exited: false, started: attached }
}

/// The message of the error for an unknown session.
pub open spec fn not_found_text(id: Seq<char>) -> Seq<char> {
    "Session "@ + id + " does not exist"@
}

/// The message of the error for a command that needs a live program.
pub open spec fn exited_text(context: Seq<char>) -> Seq<char> {
    "Cannot "@ + context
        + " -- the program has exited. Use start_debugging to run it again, or close_session and create_session to start fresh."@
}

/// A lower-case hexadecimal digit.
pub open spec fn is_lower_hex(c: char) -> bool {
    ('0' <= c && c <= '9') || ('a' <= c && c <= 'f')
}

/// The hyphenated lower-case text form of a UUID: 8-4-4-4-12 hexadecimal digits.
pub open spec fn is_hyphenated_uuid(s: Seq<char>) -> bool {
    &&& s.len() == 36
    &&& forall|i: int|
        0 <= i < 36 ==> if i == 8 || i == 13 || i == 18 || i == 23 {
            #[trigger] s[i] == '-'
        } else {
            is_lower_hex(s[i])
        }
}

/// The text form of a random (version 4) UUID: the version digit is '4' and the variant
/// digit one of '8', '9', 'a', 'b'.
pub open spec fn is_v4_uuid(s: Seq<char>) -> bool {
    &&& is_hyphenated_uuid(s)
    &&& s[14] == '4'
    &&& (s[19] == '8' || s[19] == '9' || s[19] == 'a' || s[19] == 'b')
}

/// A fresh random session identifier: `uuid::Uuid::new_v4()` rendered through its
/// `Display` impl, which writes the hyphenated lower-case form; `new_v4` fixes the
/// version and variant bits. What value comes out is chance; only its shape is stated.
/// Like the allocator, `new_v4` panics only when the operating system's random source
/// fails, which no input can rule out.
#[verifier::external_body]
fn new_session_id() -> (id: String)
    ensures
        is_v4_uuid(id@),
{
    uuid::Uuid::new_v4().to_string()
}

proof fn lemma_index_of(s: Seq<SessionRecord>, id: Seq<char>)
    ensures
        -1 <= index_of(s, id) < s.len(),
        index_of(s, id) >= 0 ==> s[index_of(s, id)].id == id,
        index_of(s, id) < 0 ==> forall|j: int| 0 <= j < s.len() ==> s[j].id != id,
        unique_ids(s) ==> forall|j: int| 0 <= j < s.len() && s[j].id == id ==> index_of(s, id) == j,
    decreases s.len(),
{
    if s.len() > 0 {
        lemma_index_of(s.drop_last(), id);
        if s.last().id != id {
            assert forall|j: int| 0 <= j < s.len() - 1 implies s.drop_last()[j] == s[j] by {}
        }
    }
}

/// Builds the error for an unknown session.
fn not_found(id: &str) -> (e: AppError)
    ensures
        e matches AppError::NotFound(m) && m@ == not_found_text(id@),
{
    let mut m = String::from_str("Session ");
    m.append(id);
    m.append(" does not exist");
    AppError::NotFound(m)
}

/// Fails with `ProgramExited` when the program of a session has exited; `context` names
/// what was attempted.
pub fn check_program_alive(exited: bool, context: &str) -> (r: Result<(), AppError>)
    ensures
        !exited <==> r is Ok,
        exited ==> (r matches Err(AppError::ProgramExited(m)) && m@ == exited_text(context@)),
{
    if exited {
        let mut m = String::from_str("Cannot ");
        m.append(context);
        m.append(
            " -- the program has exited. Use start_debugging to run it again, or close_session and create_session to start fresh.",
        );
        Err(AppError::ProgramExited(m))
    } else {
        Ok(())
    }
}

/// The state the GDB session manager starts in: a registry with no sessions. A server
/// builds its one manager from this when it starts.
pub fn init_gdb_manager<H>() -> (t: SessionTable<H>)
    ensures
        t.wf(),
        t.records() == Seq::<SessionRecord>::empty(),
{
    SessionTable::new()
}

/// One registered session: its public information, whether its program has exited, and
/// the handle through which it is driven.
pub struct SessionEntry<H> {
    info: GDBSession,
    program_exited: bool,
    program_started: bool,
    handle: H,
}

/// The registry of debugging sessions, keyed by session identifier.
pub struct SessionTable<H> {
    entries: Vec<SessionEntry<H>>,
}

impl<H> SessionEntry<H> {
    /// The record this entry stands for.
    pub closed spec fn record(&self) -> SessionRecord {
        SessionRecord {
            id: self.info.id@,
            status: self.info.status,
            created_at: self.info.created_at,
            exited: self.program_exited,
            started: self.program_started,
        }
    }
}

impl<H> SessionTable<H> {
    /// The sessions, in registration order.
    pub closed spec fn records(&self) -> Seq<SessionRecord> {
        Seq::new(self.entries@.len(), |i: int| self.entries@[i].record())
    }

    /// The handles, in the same order as `records`.
    pub closed spec fn handles(&self) -> Seq<H> {
        Seq::new(self.entries@.len(), |i: int| self.entries@[i].handle)
    }

    /// The handle of the session with identifier `id`, if any.
    pub open spec fn handle_of(&self, id: Seq<char>) -> Option<H> {
        let i = index_of(self.records(), id);
        if i >= 0 { Some(self.handles()[i]) } else { None }
    }

    /// Well-formedness: identifiers are unique.
    pub open spec fn wf(&self) -> bool {
        &&& unique_ids(self.records())
        &&& self.handles().len() == self.records().len()
    }

    /// An empty registry.
    pub fn new() -> (t: Self)
        ensures
            t.wf(),
            t.records() == Seq::<SessionRecord>::empty(),
    {
        let t = SessionTable { entries: Vec::new() };
        assert(t.records() =~= Seq::<SessionRecord>::empty());
        t
    }

    /// The position of the session with identifier `id`.
    fn find(&self, id: &str) -> (r: Option<usize>)
        requires
            self.wf(),
        ensures
            match r {
                Some(i) => i as int == index_of(self.records(), id@) && i < self.records().len()
                    && self.records()[i as int].id == id@,
                None => index_of(self.records(), id@) < 0,
            },
    {
        proof {
            lemma_index_of(self.records(), id@);
        }
        let key = id.to_owned();
        let mut i = self.entries.len();
        proof {
            assert(self.records().take(i as int) =~= self.records());
        }
        while i > 0
            invariant
                i <= self.entries@.len(),
                self.records().len() == self.entries@.len(),
                key@ == id@,
                index_of(self.records(), id@) == index_of(self.records().take(i as int), id@),
            decreases i,
        {
            let ghost s = self.records().take(i as int);
            assert(s.drop_last() =~= self.records().take(i - 1));
            assert(s.last() == self.entries@[i - 1].record());
            if self.entries[i - 1].info.id == key {
                return Some(i - 1);
            }
            i = i - 1;
        }
        None
    }

    /// Registers a session under `id` with status `Created`, replacing any session that
    /// had the same identifier; `attached` tells whether GDB was attached to a running
    /// process.
    pub fn insert(&mut self, id: String, created_at: u64, attached: bool, handle: H)
        requires
            old(self).wf(),
        ensures
            final(self).wf(),
            final(self).records() == spec_insert(old(self).records(), created_record(id@, created_at, attached)),
            final(self).handles() == (if index_of(old(self).records(), id@) >= 0 {
                old(self).handles().update(index_of(old(self).records(), id@), handle)
            } else {
                old(self).handles().push(handle)
            }),
    {
        let ghost old_records = self.records();
        let ghost old_handles = self.handles();
        let ghost rec = created_record(id@, created_at, attached);
        proof {
            lemma_index_of(old_records, id@);
        }
        let found = self.find(id.as_str());
        let entry = SessionEntry {
            info: GDBSession { id, status: GDBSessionStatus::Created, created_at },
            program_exited: false,
            program_started: attached,
            handle,
        };
        assert(entry.record() == rec);
        match found {
            Some(i) => {
                self.entries.set(i, entry);
                assert(self.records() =~= old_records.update(i as int, rec));
                assert(self.handles() =~= old_handles.update(i as int, handle));
            },
            None => {
                self.entries.push(entry);
                assert(self.records() =~= old_records.push(rec));
                assert(self.handles() =~= old_handles.push(handle));
            },
        }
    }

    /// Creates a session: draws a fresh identifier, registers it with status `Created`
    /// and returns the identifier.
    pub fn create(&mut self, created_at: u64, attached: bool, handle: H) -> (id: String)
        requires
            old(self).wf(),
        ensures
            is_v4_uuid(id@),
            final(self).wf(),
            final(self).records() == spec_insert(old(self).records(), created_record(id@, created_at, attached)),
            final(self).handle_of(id@) == Some(handle),
    {
        let id = new_session_id();
        let key = id.clone();
        self.insert(key, created_at, attached, handle);
        proof {
            lemma_index_of(self.records(), id@);
            law_insert_then_lookup(old(self).records(), created_record(id@, created_at, attached));
            lemma_index_of(old(self).records(), id@);
            assert(key@ == id@);
        }
        id
    }

    /// The information of every session, in registration order, as it was recorded
    /// (the status is not adjusted for programs that have exited).
    pub fn get_all(&self) -> (r: Vec<GDBSession>)
        requires
            self.wf(),
        ensures
            r@.len() == self.records().len(),
            forall|i: int| 0 <= i < r@.len() ==> {
                &&& (#[trigger] r@[i]).id@ == self.records()[i].id
                &&& r@[i].status == self.records()[i].status
                &&& r@[i].created_at == self.records()[i].created_at
            },
    {
        let mut out: Vec<GDBSession> = Vec::new();
        let mut i: usize = 0;
        while i < self.entries.len()
            invariant
                i <= self.entries@.len(),
                self.records().len() == self.entries@.len(),
                out@.len() == i,
                forall|j: int| 0 <= j < i ==> {
                    &&& (#[trigger] out@[j]).id@ == self.records()[j].id
                    &&& out@[j].status == self.records()[j].status
                    &&& out@[j].created_at == self.records()[j].created_at
                },
            decreases self.entries@.len() - i,
        {
            let e = &self.entries[i];
            out.push(GDBSession { id: e.info.id.clone(), status: e.info.status, created_at: e.info.created_at });
            i = i + 1;
        }
        out
    }

    /// The information of one session; a session whose program has exited is reported
    /// as terminated.
    pub fn get(&self, id: &str) -> (r: Result<GDBSession, AppError>)
        requires
            self.wf(),
        ensures
            match lookup(self.records(), id@) {
                None => r matches Err(AppError::NotFound(m)) && m@ == not_found_text(id@),
                Some(rec) => r matches Ok(info) && info.id@ == rec.id && info.status == reported_status(rec)
                    && info.created_at == rec.created_at,
            },
    {
        match self.find(id) {
            None => Err(not_found(id)),
            Some(i) => {
                let e = &self.entries[i];
                let status = if e.program_exited { GDBSessionStatus::Terminated } else { e.info.status };
                Ok(GDBSession { id: e.info.id.clone(), status, created_at: e.info.created_at })
            },
        }
    }

    /// Whether the program of a session is running: it has been started and has not
    /// exited since.
    pub fn is_active(&self, id: &str) -> (r: Result<bool, AppError>)
        requires
            self.wf(),
        ensures
            match lookup(self.records(), id@) {
                None => r matches Err(AppError::NotFound(m)) && m@ == not_found_text(id@),
                Some(rec) => r == Ok::<bool, AppError>(running(rec)),
            },
    {
        match self.find(id) {
            None => Err(not_found(id)),
            Some(i) => Ok(self.entries[i].program_started && !self.entries[i].program_exited),
        }
    }

    /// The handle of a session; when `alive_context` names what is being attempted, the
    /// program of the session must not have exited.
    pub fn handle(&self, id: &str, alive_context: Option<&str>) -> (r: Result<&H, AppError>)
        requires
            self.wf(),
        ensures
            match lookup(self.records(), id@) {
                None => r matches Err(AppError::NotFound(m)) && m@ == not_found_text(id@),
                Some(rec) => match alive_context {
                    Some(ctx) if rec.exited => r matches Err(AppError::ProgramExited(m)) && m@ == exited_text(ctx@),
                    _ => r matches Ok(h) && Some(*h) == self.handle_of(id@),
                },
            },
    {
        match self.find(id) {
            None => Err(not_found(id)),
            Some(i) => {
                if let Some(ctx) = alive_context {
                    let alive = check_program_alive(self.entries[i].program_exited, ctx);
                    if let Err(e) = alive {
                        return Err(e);
                    }
                }
                Ok(&self.entries[i].handle)
            },
        }
    }

    /// Unregisters a session and hands back its handle.
    pub fn remove(&mut self, id: &str) -> (r: Option<H>)
        requires
            old(self).wf(),
        ensures
            final(self).wf(),
            final(self).records() == spec_remove(old(self).records(), id@),
            r == old(self).handle_of(id@),
            final(self).handles() == (if index_of(old(self).records(), id@) >= 0 {
                old(self).handles().remove(index_of(old(self).records(), id@))
            } else {
                old(self).handles()
            }),
    {
        let ghost old_records = self.records();
        let ghost old_handles = self.handles();
        match self.find(id) {
            None => None,
            Some(i) => {
                let e = self.entries.remove(i);
                assert(self.records() =~= old_records.remove(i as int));
                assert(self.handles() =~= old_handles.remove(i as int));
                Some(e.handle)
            },
        }
    }

    /// Sets the status of a session, if it exists.
    pub fn set_status(&mut self, id: &str, status: GDBSessionStatus)
        requires
            old(self).wf(),
        ensures
            final(self).wf(),
            final(self).records() == spec_set_status(old(self).records(), id@, status),
            final(self).handles() == old(self).handles(),
    {
        let ghost old_records = self.records();
        let ghost old_handles = self.handles();
        match self.find(id) {
            None => {},
            Some(i) => {
                let mut e = self.entries.remove(i);
                e.info.status = status;
                self.entries.insert(i, e);
                assert(self.records() =~= spec_set_status(old_records, id@, status));
                assert(self.handles() =~= old_handles);
            },
        }
    }

    /// Records that the run command of a session was answered: its program has been
    /// started and the status is `Running`; whether it has exited since is kept. Nothing
    /// changes for an unknown session.
    pub fn mark_started(&mut self, id: &str)
        requires
            old(self).wf(),
        ensures
            final(self).wf(),
            final(self).records() == spec_start(old(self).records(), id@),
            final(self).handles() == old(self).handles(),
    {
        let ghost old_records = self.records();
        let ghost old_handles = self.handles();
        match self.find(id) {
            None => {},
            Some(i) => {
                let mut e = self.entries.remove(i);
                e.info.status = GDBSessionStatus::Running;
                e.program_started = true;
                self.entries.insert(i, e);
                assert(self.records() =~= spec_start(old_records, id@));
                assert(self.handles() =~= old_handles);
            },
        }
    }

    /// Records that GDB reported a program of a session starting, however it was
    /// started or attached to: the program is live and has not exited. The status is
    /// kept. Nothing changes for an unknown session.
    pub fn mark_program_live(&mut self, id: &str)
        requires
            old(self).wf(),
        ensures
            final(self).wf(),
            final(self).records() == spec_program_live(old(self).records(), id@),
            final(self).handles() == old(self).handles(),
    {
        let ghost old_records = self.records();
        let ghost old_handles = self.handles();
        match self.find(id) {
            None => {},
            Some(i) => {
                let mut e = self.entries.remove(i);
                e.program_exited = false;
                e.program_started = true;
                self.entries.insert(i, e);
                assert(self.records() =~= spec_program_live(old_records, id@));
                assert(self.handles() =~= old_handles);
            },
        }
    }

    /// Records whether the program of a session has exited, if the session exists.
    pub fn set_exited(&mut self, id: &str, exited: bool)
        requires
            old(self).wf(),
        ensures
            final(self).wf(),
            final(self).records() == spec_set_exited(old(self).records(), id@, exited),
            final(self).handles() == old(self).handles(),
    {
        let ghost old_records = self.records();
        let ghost old_handles = self.handles();
        match self.find(id) {
            None => {},
            Some(i) => {
                let mut e = self.entries.remove(i);
                e.program_exited = exited;
                self.entries.insert(i, e);
                assert(self.records() =~= spec_set_exited(old_records, id@, exited));
                assert(self.handles() =~= old_handles);
            },
        }
    }
}

/// Registering a session makes it the one found under its identifier, with exactly the
/// registered record, and leaves every other identifier's session as it was.
pub proof fn law_insert_then_lookup(s: Seq<SessionRecord>, r: SessionRecord)
    requires
        unique_ids(s),
    ensures
        unique_ids(spec_insert(s, r)),
        lookup(spec_insert(s, r), r.id) == Some(r),
        index_of(spec_insert(s, r), r.id) == (if index_of(s, r.id) >= 0 { index_of(s, r.id) } else { s.len() as int }),
        forall|id: Seq<char>| id != r.id ==> #[trigger] lookup(spec_insert(s, r), id) == lookup(s, id),
{
    lemma_index_of(s, r.id);
    let t = spec_insert(s, r);
    assert(unique_ids(t));
    lemma_index_of(t, r.id);
    let j = if index_of(s, r.id) >= 0 { index_of(s, r.id) } else { s.len() as int };
    assert(t[j] == r);
    assert forall|id: Seq<char>| id != r.id implies #[trigger] lookup(t, id) == lookup(s, id) by {
        lemma_index_of(s, id);
        lemma_index_of(t, id);
        if index_of(s, id) >= 0 {
            assert(t[index_of(s, id)] == s[index_of(s, id)]);
        }
    }
}

proof fn lemma_unique_update(s: Seq<SessionRecord>, i: int, r: SessionRecord)
    requires
        unique_ids(s),
        0 <= i < s.len(),
        r.id == s[i].id,
    ensures
        unique_ids(s.update(i, r)),
        forall|id: Seq<char>| #[trigger] index_of(s.update(i, r), id) == index_of(s, id),
{
    let t = s.update(i, r);
    assert forall|id: Seq<char>| #[trigger] index_of(t, id) == index_of(s, id) by {
        lemma_index_of(s, id);
        lemma_index_of(t, id);
        if index_of(s, id) >= 0 {
            assert(t[index_of(s, id)].id == id);
        }
        if index_of(t, id) >= 0 {
            assert(s[index_of(t, id)].id == id);
        }
    }
}

/// Closing a session makes its identifier unknown and leaves every other identifier's
/// session as it was.
pub proof fn law_remove_then_lookup(s: Seq<SessionRecord>, id: Seq<char>)
    requires
        unique_ids(s),
    ensures
        unique_ids(spec_remove(s, id)),
        lookup(spec_remove(s, id), id) is None,
        forall|other: Seq<char>| other != id ==> #[trigger] lookup(spec_remove(s, id), other) == lookup(s, other),
{
    lemma_index_of(s, id);
    let t = spec_remove(s, id);
    let i = index_of(s, id);
    if i >= 0 {
        assert forall|a: int, b: int| 0 <= a < t.len() && 0 <= b < t.len() && a != b implies t[a].id != t[b].id by {
            let sa = if a < i { a } else { a + 1 };
            let sb = if b < i { b } else { b + 1 };
            assert(t[a] == s[sa]);
            assert(t[b] == s[sb]);
        }
        assert forall|j: int| 0 <= j < t.len() implies t[j].id != id by {
            let sj = if j < i { j } else { j + 1 };
            assert(t[j] == s[sj]);
        }
    }
    lemma_index_of(t, id);
    assert forall|other: Seq<char>| other != id implies #[trigger] lookup(t, other) == lookup(s, other) by {
        lemma_index_of(s, other);
        lemma_index_of(t, other);
        if i >= 0 {
            let k = index_of(s, other);
            if k >= 0 {
                let tk = if k < i { k } else { k - 1 };
                assert(t[tk] == s[k]);
            }
            let m = index_of(t, other);
            if m >= 0 {
                let sm = if m < i { m } else { m + 1 };
                assert(t[m] == s[sm]);
            }
        }
    }
}

/// Closing a session that was just created, under an identifier that was not in use,
/// gives back exactly the registry that was there before.
pub proof fn law_remove_undoes_insert(s: Seq<SessionRecord>, r: SessionRecord)
    requires
        unique_ids(s),
        lookup(s, r.id) is None,
    ensures
        spec_remove(spec_insert(s, r), r.id) == s,
{
    lemma_index_of(s, r.id);
    law_insert_then_lookup(s, r);
    assert(spec_insert(s, r) == s.push(r));
    assert(s.push(r).remove(s.len() as int) =~= s);
}

/// Once the program of a session has exited, the session is no longer active and is
/// reported as terminated; clearing the flag makes it active again exactly when its
/// program had been started. Other sessions are untouched either way.
pub proof fn law_exit_flag(s: Seq<SessionRecord>, id: Seq<char>)
    requires
        unique_ids(s),
    ensures
        !spec_is_active(spec_set_exited(s, id, true), id),
        lookup(s, id) is Some ==> reported_status(lookup(spec_set_exited(s, id, true), id)->Some_0)
            == GDBSessionStatus::Terminated,
        spec_is_active(spec_set_exited(s, id, false), id) <==> (lookup(s, id) matches Some(r) && r.started),
        forall|other: Seq<char>| other != id ==> {
            &&& #[trigger] lookup(spec_set_exited(s, id, true), other) == lookup(s, other)
            &&& lookup(spec_set_exited(s, id, false), other) == lookup(s, other)
        },
{
    lemma_index_of(s, id);
    let i = index_of(s, id);
    if i >= 0 {
        lemma_unique_update(s, i, SessionRecord { exited: true, ..s[i] });
        lemma_unique_update(s, i, SessionRecord { exited: false, ..s[i] });
        assert forall|other: Seq<char>| other != id implies {
            &&& #[trigger] lookup(spec_set_exited(s, id, true), other) == lookup(s, other)
            &&& lookup(spec_set_exited(s, id, false), other) == lookup(s, other)
        } by {
            lemma_index_of(s, other);
        }
    }
}

/// Setting the status of a session changes that session's status and nothing else.
pub proof fn law_set_status(s: Seq<SessionRecord>, id: Seq<char>, st: GDBSessionStatus)
    requires
        unique_ids(s),
    ensures
        unique_ids(spec_set_status(s, id, st)),
        lookup(spec_set_status(s, id, st), id) == (match lookup(s, id) {
            Some(r) => Some(SessionRecord { status: st, ..r }),
            None => None,
        }),
        forall|other: Seq<char>| other != id ==> #[trigger] lookup(spec_set_status(s, id, st), other) == lookup(s, other),
{
    lemma_index_of(s, id);
    let i = index_of(s, id);
    if i >= 0 {
        lemma_unique_update(s, i, SessionRecord { status: st, ..s[i] });
        assert forall|other: Seq<char>| other != id implies #[trigger] lookup(spec_set_status(s, id, st), other) == lookup(s, other) by {
            lemma_index_of(s, other);
        }
    }
}

/// A freshly created session is active exactly when GDB was attached to a running
/// process; otherwise its program has not been started yet.
pub proof fn law_created_active(s: Seq<SessionRecord>, id: Seq<char>, created_at: u64, attached: bool)
    requires
        unique_ids(s),
    ensures
        spec_is_active(spec_insert(s, created_record(id, created_at, attached)), id) == attached,
{
    law_insert_then_lookup(s, created_record(id, created_at, attached));
}

/// Starting a known session as start_debugging does (clear the exit flag, run, record
/// the answer) leaves it active with status `Running`; if an exit is reported between
/// the clearing and the answer, it stays inactive. Other sessions are untouched.
pub proof fn law_start(s: Seq<SessionRecord>, id: Seq<char>)
    requires
        unique_ids(s),
    ensures
        unique_ids(spec_start(s, id)),
        lookup(s, id) is Some ==> {
            let t = spec_start(spec_set_exited(s, id, false), id);
            &&& spec_is_active(t, id)
            &&& lookup(t, id)->Some_0.status == GDBSessionStatus::Running
            &&& reported_status(lookup(t, id)->Some_0) == GDBSessionStatus::Running
            &&& lookup(t, id)->Some_0.created_at == lookup(s, id)->Some_0.created_at
            &&& !spec_is_active(spec_start(spec_set_exited(spec_set_exited(s, id, false), id, true), id), id)
        },
        lookup(s, id) is None ==> spec_start(s, id) == s,
        forall|other: Seq<char>| other != id ==> {
            &&& #[trigger] lookup(spec_start(s, id), other) == lookup(s, other)
            &&& lookup(spec_start(spec_set_exited(s, id, false), id), other) == lookup(s, other)
        },
{
    lemma_index_of(s, id);
    let i = index_of(s, id);
    if i >= 0 {
        let r0 = SessionRecord { exited: false, ..s[i] };
        let s0 = s.update(i, r0);
        lemma_unique_update(s, i, r0);
        lemma_unique_update(s, i, SessionRecord { status: GDBSessionStatus::Running, started: true, ..s[i] });
        lemma_unique_update(s0, i, SessionRecord { status: GDBSessionStatus::Running, started: true, ..r0 });
        let r1 = SessionRecord { exited: true, ..r0 };
        let s1 = s0.update(i, r1);
        lemma_unique_update(s0, i, r1);
        lemma_unique_update(s1, i, SessionRecord { status: GDBSessionStatus::Running, started: true, ..r1 });
        assert forall|other: Seq<char>| other != id implies {
            &&& #[trigger] lookup(spec_start(s, id), other) == lookup(s, other)
            &&& lookup(spec_start(spec_set_exited(s, id, false), id), other) == lookup(s, other)
        } by {
            lemma_index_of(s, other);
        }
    }
}

/// A program GDB reports as started makes its session active, whatever happened
/// before; its status and other sessions are untouched.
pub proof fn law_program_live(s: Seq<SessionRecord>, id: Seq<char>)
    requires
        unique_ids(s),
    ensures
        unique_ids(spec_program_live(s, id)),
        lookup(s, id) is Some <==> spec_is_active(spec_program_live(s, id), id),
        lookup(s, id) is Some ==> {
            let r = lookup(s, id)->Some_0;
            let t = lookup(spec_program_live(s, id), id)->Some_0;
            &&& t.id == r.id
            &&& t.status == r.status
            &&& t.created_at == r.created_at
            &&& !t.exited
            &&& t.started
        },
        forall|other: Seq<char>| other != id ==> #[trigger] lookup(spec_program_live(s, id), other) == lookup(s, other),
{
    lemma_index_of(s, id);
    let i = index_of(s, id);
    if i >= 0 {
        lemma_unique_update(s, i, SessionRecord { exited: false, started: true, ..s[i] });
        assert forall|other: Seq<char>| other != id implies #[trigger] lookup(spec_program_live(s, id), other) == lookup(s, other) by {
            lemma_index_of(s, other);
        }
    }
}

/// The status reported for a session is the one recorded for it, unless its program
/// has exited, in which case it is `Terminated`.
pub proof fn law_reported_status(r: SessionRecord)
    ensures
        !r.exited ==> reported_status(r) == r.status,
        r.exited ==> reported_status(r) == GDBSessionStatus::Terminated,
{
}

/// After the status of a session is set (as start_debugging and stop_debugging do),
/// looking the session up reports that status, unless its program has exited.
pub proof fn law_reported_after_set_status(s: Seq<SessionRecord>, id: Seq<char>, st: GDBSessionStatus)
    requires
        unique_ids(s),
    ensures
        lookup(s, id) matches Some(r) ==> reported_status(lookup(spec_set_status(s, id, st), id)->Some_0)
            == (if r.exited { GDBSessionStatus::Terminated } else { st }),
{
    law_set_status(s, id, st);
}

/// No operation on a session's status or program changes which sessions exist, nor the
/// identifier or creation time of any of them.
pub proof fn law_identity_kept(s: Seq<SessionRecord>, id: Seq<char>, x: Seq<char>, st: GDBSessionStatus, exited: bool)
    requires
        unique_ids(s),
    ensures
        ({
            let ops = seq![
                spec_set_status(s, id, st),
                spec_set_exited(s, id, exited),
                spec_start(s, id),
                spec_program_live(s, id),
            ];
            forall|k: int| 0 <= k < 4 ==> {
                &&& (lookup(#[trigger] ops[k], x) is Some <==> lookup(s, x) is Some)
                &&& (lookup(s, x) is Some ==> lookup(ops[k], x)->Some_0.id == lookup(s, x)->Some_0.id
                    && lookup(ops[k], x)->Some_0.created_at == lookup(s, x)->Some_0.created_at)
            }
        }),
{
    lemma_index_of(s, id);
    lemma_index_of(s, x);
    let i = index_of(s, id);
    if i >= 0 {
        lemma_unique_update(s, i, SessionRecord { status: st, ..s[i] });
        lemma_unique_update(s, i, SessionRecord { exited, ..s[i] });
        lemma_unique_update(s, i, SessionRecord { status: GDBSessionStatus::Running, started: true, ..s[i] });
        lemma_unique_update(s, i, SessionRecord { exited: false, started: true, ..s[i] });
    }
    let ops = seq![
        spec_set_status(s, id, st),
        spec_set_exited(s, id, exited),
        spec_start(s, id),
        spec_program_live(s, id),
    ];
    assert forall|k: int| 0 <= k < 4 implies {
        &&& (lookup(#[trigger] ops[k], x) is Some <==> lookup(s, x) is Some)
        &&& (lookup(s, x) is Some ==> lookup(ops[k], x)->Some_0.id == lookup(s, x)->Some_0.id
            && lookup(ops[k], x)->Some_0.created_at == lookup(s, x)->Some_0.created_at)
    } by {
        if i >= 0 && index_of(s, x) >= 0 {
            assert(ops[k][index_of(s, x)].id == s[index_of(s, x)].id);
            assert(ops[k][index_of(s, x)].created_at == s[index_of(s, x)].created_at);
        }
    }
}

/// What each operation does to the record of the session it names: setting the exit
/// flag changes only that flag; recording the answer to a run command sets the status to
/// `Running` and marks the program started, keeping the exit flag; setting the status
/// changes only the status.
pub proof fn law_session_field_effects(s: Seq<SessionRecord>, id: Seq<char>, st: GDBSessionStatus, exited: bool)
    requires
        unique_ids(s),
    ensures
        lookup(s, id) matches Some(r) ==> {
            let a = lookup(spec_set_exited(s, id, exited), id)->Some_0;
            let b = lookup(spec_start(s, id), id)->Some_0;
            let c = lookup(spec_set_status(s, id, st), id)->Some_0;
            &&& a.id == r.id && a.status == r.status && a.created_at == r.created_at
                && a.started == r.started && a.exited == exited
            &&& b.id == r.id && b.status == GDBSessionStatus::Running && b.created_at == r.created_at
                && b.started && b.exited == r.exited
            &&& c.id == r.id && c.status == st && c.created_at == r.created_at
                && c.started == r.started && c.exited == r.exited
        },
{
    lemma_index_of(s, id);
    let i = index_of(s, id);
    if i >= 0 {
        lemma_unique_update(s, i, SessionRecord { exited, ..s[i] });
        lemma_unique_update(s, i, SessionRecord { status: GDBSessionStatus::Running, started: true, ..s[i] });
        lemma_unique_update(s, i, SessionRecord { status: st, ..s[i] });
    }
}

} // verus!
