//! The session registry: the table of running mirroring subprocesses.  It
//! owns every tracked session exclusively; `remove` is the only
//! ownership-transfer operation.  The registry itself is a plain value with
//! full functional contracts over its map view; the surrounding application
//! serializes access with one lock held for the duration of each operation,
//! so any concurrent history is equivalent to a sequence of these calls.

use vstd::prelude::*;
use crate::text::{dec_digits, digit_char, eq_str, u64_to_dec, concat_str};

verus! {

/// One tracked mirroring session: its identifier, the device it mirrors, the
/// identifier of the operating-system process doing the work, and when it
/// started.
#[derive(Debug, Clone, PartialEq, Eq)]
pub struct Session {
    pub session_id: String,
    pub device_id: String,
    pub pid: u64,
    pub started_at: String,
}

/// Mathematical image of a `Session`.
pub struct SessionView {
    pub session_id: Seq<char>,
    pub device_id: Seq<char>,
    pub pid: u64,
    pub started_at: Seq<char>,
}

impl View for Session {
    type V = SessionView;

    open spec fn view(&self) -> SessionView {
        SessionView {
            session_id: self.session_id@,
            device_id: self.device_id@,
            pid: self.pid,
            started_at: self.started_at@,
        }
    }
}

/// The lifecycle state a session report carries.
#[derive(Debug, Clone, Copy, PartialEq, Eq, Structural)]
pub enum SessionStatus {
    Running,
    Stopped,
    Error,
}

/// A read-only session report, the shape handed to callers that list
/// sessions.
#[derive(Debug, Clone, PartialEq, Eq)]
pub struct MirrorSession {
    pub session_id: String,
    pub device_id: String,
    pub status: SessionStatus,
    pub started_at: String,
}

/// What a non-blocking poll of a tracked process reported: still running,
/// exited, or nothing determinable (the query itself failed).
#[derive(Debug, Clone, Copy, PartialEq, Eq, Structural)]
pub enum PollStatus {
    Running,
    Exited,
    Unknown,
}

/// How an attempt to kill a session's process ended.
#[derive(Debug, Clone, PartialEq, Eq)]
pub enum KillOutcome {
    Killed,
    AlreadyExited,
    Failed(String),
}

/// The map a session table denotes: each id to its session.
pub open spec fn sessions_map(s: Seq<Session>) -> Map<Seq<char>, SessionView>
    decreases s.len(),
{
    if s.len() == 0 {
        Map::empty()
    } else {
        sessions_map(s.drop_last()).insert(s.last()@.session_id, s.last()@)
    }
}

/// No two entries carry the same id.
pub open spec fn distinct_ids(s: Seq<Session>) -> bool {
    forall|i: int, j: int|
        0 <= i < j < s.len() ==> (#[trigger] s[i])@.session_id != (#[trigger] s[j])@.session_id
}

pub proof fn lemma_sessions_map_props(s: Seq<Session>)
    ensures
        sessions_map(s).dom().finite(),
        forall|id: Seq<char>| #[trigger]
            sessions_map(s).dom().contains(id) <==> exists|i: int|
                0 <= i < s.len() && (#[trigger] s[i])@.session_id == id,
        distinct_ids(s) ==> sessions_map(s).dom().len() == s.len(),
        distinct_ids(s) ==> forall|i: int|
            0 <= i < s.len() ==> sessions_map(s)[(#[trigger] s[i])@.session_id] == s[i]@,
    decreases s.len(),
{
    if s.len() > 0 {
        let pre = s.drop_last();
        lemma_sessions_map_props(pre);
        assert forall|id: Seq<char>| #[trigger] sessions_map(s).dom().contains(id) implies exists|
            i: int,
        | 0 <= i < s.len() && (#[trigger] s[i])@.session_id == id by {
            if id == s.last()@.session_id {
                assert(s[s.len() - 1]@.session_id == id);
            } else {
                let i = choose|i: int| 0 <= i < pre.len() && (#[trigger] pre[i])@.session_id == id;
                assert(s[i]@.session_id == id);
            }
        }
        assert forall|id: Seq<char>| (exists|i: int|
            0 <= i < s.len() && (#[trigger] s[i])@.session_id == id) implies #[trigger] sessions_map(
            s,
        ).dom().contains(id) by {
            let i = choose|i: int| 0 <= i < s.len() && (#[trigger] s[i])@.session_id == id;
            if i < s.len() - 1 {
                assert(pre[i]@.session_id == id);
                assert(sessions_map(pre).dom().contains(id));
            }
        }
        if distinct_ids(s) {
            assert forall|i: int, j: int| 0 <= i < j < pre.len() implies (#[trigger] pre[i])@.session_id
                != (#[trigger] pre[j])@.session_id by {
                assert(s[i] == pre[i]);
                assert(s[j] == pre[j]);
            }
            assert(!sessions_map(pre).dom().contains(s.last()@.session_id)) by {
                if sessions_map(pre).dom().contains(s.last()@.session_id) {
                    let i = choose|i: int|
                        0 <= i < pre.len() && (#[trigger] pre[i])@.session_id
                            == s.last()@.session_id;
                    assert(s[i]@.session_id == s[s.len() - 1]@.session_id);
                }
            }
            assert(sessions_map(s).dom() =~= sessions_map(pre).dom().insert(
                s.last()@.session_id,
            ));
            vstd::set::axiom_set_insert_len(sessions_map(pre).dom(), s.last()@.session_id);
            assert forall|i: int| 0 <= i < s.len() implies sessions_map(s)[(
            #[trigger] s[i])@.session_id] == s[i]@ by {
                if i < s.len() - 1 {
                    assert(pre[i] == s[i]);
                    assert(sessions_map(pre)[pre[i]@.session_id] == pre[i]@);
                    assert(s[i]@.session_id != s.last()@.session_id);
                }
            }
        }
    }
}

/// The registry: a table of sessions with pairwise distinct ids, denoting a
/// map from session id to session.
pub struct SessionRegistry {
    sessions: Vec<Session>,
}

impl View for SessionRegistry {
    type V = Map<Seq<char>, SessionView>;

    closed spec fn view(&self) -> Map<Seq<char>, SessionView> {
        sessions_map(self.sessions@)
    }
}

impl SessionRegistry {
    /// The registry's internal well-formedness: ids are distinct, so the
    /// table and its map view carry exactly the same information.
    pub closed spec fn wf(&self) -> bool {
        distinct_ids(self.sessions@)
    }

    /// An empty registry: nothing is tracked.
    pub fn new() -> (r: SessionRegistry)
        ensures
            r.wf(),
            r@ == Map::<Seq<char>, SessionView>::empty(),
    {
        let r = SessionRegistry { sessions: Vec::new() };
        proof {
            assert(r@ =~= Map::<Seq<char>, SessionView>::empty());
        }
        r
    }

    /// How many sessions are tracked.
    pub fn active_count(&self) -> (r: usize)
        requires
            self.wf(),
        ensures
            r == self@.dom().len(),
    {
        proof {
            lemma_sessions_map_props(self.sessions@);
        }
        self.sessions.len()
    }

    /// Position of the entry with this id, if any.
    fn find_index(&self, session_id: &str) -> (r: Option<usize>)
        ensures
            match r {
                Some(i) => i < self.sessions@.len() && self.sessions@[i as int]@.session_id
                    == session_id@,
                None => forall|j: int|
                    0 <= j < self.sessions@.len() ==> (#[trigger] self.sessions@[j])@.session_id
                        != session_id@,
            },
    {
        let mut i: usize = 0;
        while i < self.sessions.len()
            invariant
                0 <= i <= self.sessions@.len(),
                forall|j: int| 0 <= j < i ==> (#[trigger] self.sessions@[j])@.session_id
                    != session_id@,
            decreases self.sessions@.len() - i,
        {
            if eq_str(self.sessions[i].session_id.as_str(), session_id) {
                return Some(i);
            }
            i += 1;
        }
        None
    }

    /// Whether a session with this id is tracked.  This consults the table
    /// only — a process may already have exited without `cleanup` having
    /// observed it yet.
    pub fn is_running(&self, session_id: &str) -> (r: bool)
        requires
            self.wf(),
        ensures
            r == self@.dom().contains(session_id@),
    {
        proof {
            lemma_sessions_map_props(self.sessions@);
        }
        match self.find_index(session_id) {
            Some(_) => true,
            None => {
                proof {
                    if self@.dom().contains(session_id@) {
                        let i = choose|i: int|
                            0 <= i < self.sessions@.len() && (
                            #[trigger] self.sessions@[i])@.session_id == session_id@;
                    }
                }
                false
            },
        }
    }

    /// Inserts a session under its id, replacing any entry already carrying
    /// that id: the caller derives ids from process identifiers, so a repeat
    /// means the old entry is stale and last-write-wins is wanted.
    pub fn add(&mut self, session: Session)
        requires
            old(self).wf(),
        ensures
            final (self).wf(),
            final (self)@ == old(self)@.insert(session@.session_id, session@),
    {
        proof {
            lemma_sessions_map_props(self.sessions@);
        }
        let ghost orig = self.sessions@;
        match self.find_index(session.session_id.as_str()) {
            Some(i) => {
                let _stale = self.sessions.remove(i);
                proof {
                    lemma_remove_preserves(orig, i as int);
                    lemma_sessions_map_props(orig.remove(i as int));
                }
                self.sessions.push(session);
                proof {
                    let trimmed = orig.remove(i as int);
                    assert(self.sessions@.drop_last() =~= trimmed);
                    lemma_distinct_push(trimmed, session);
                    assert(sessions_map(self.sessions@) =~= sessions_map(orig).insert(
                        session@.session_id,
                        session@,
                    ));
                }
            },
            None => {
                self.sessions.push(session);
                proof {
                    assert(self.sessions@.drop_last() =~= orig);
                    lemma_distinct_push(orig, session);
                }
            },
        }
    }

    /// Atomically detaches the session with this id and hands it to the
    /// caller, who from then on owns the process's lifecycle; removing an
    /// unknown id changes nothing.
    pub fn remove(&mut self, session_id: &str) -> (r: Option<Session>)
        requires
            old(self).wf(),
        ensures
            final (self).wf(),
            match r {
                Some(s) => old(self)@.dom().contains(session_id@) && s@ == old(
                    self,
                )@[session_id@] && final (self)@ == old(self)@.remove(session_id@),
                None => !old(self)@.dom().contains(session_id@) && final (self)@ == old(self)@,
            },
    {
        proof {
            lemma_sessions_map_props(self.sessions@);
        }
        let ghost orig = self.sessions@;
        match self.find_index(session_id) {
            Some(i) => {
                let s = self.sessions.remove(i);
                proof {
                    lemma_remove_preserves(orig, i as int);
                    assert(sessions_map(self.sessions@) =~= sessions_map(orig).remove(
                        session_id@,
                    ));
                }
                Some(s)
            },
            None => {
                proof {
                    if self@.dom().contains(session_id@) {
                        let i = choose|i: int|
                            0 <= i < orig.len() && (#[trigger] orig[i])@.session_id == session_id@;
                    }
                }
                None
            },
        }
    }
}

impl SessionRegistry {
    /// The tracked session ids, each exactly once.
    pub fn list_session_ids(&self) -> (r: Vec<String>)
        requires
            self.wf(),
        ensures
            r@.len() == self@.dom().len(),
            forall|i: int| 0 <= i < r@.len() ==> self@.dom().contains(#[trigger] r@[i]@),
            forall|i: int, j: int| 0 <= i < j < r@.len() ==> r@[i]@ != r@[j]@,
            forall|id: Seq<char>| #[trigger]
                self@.dom().contains(id) ==> exists|i: int| 0 <= i < r@.len() && r@[i]@ == id,
    {
        proof {
            lemma_sessions_map_props(self.sessions@);
        }
        let mut out: Vec<String> = Vec::new();
        let mut i: usize = 0;
        while i < self.sessions.len()
            invariant
                0 <= i <= self.sessions@.len(),
                out@.len() == i,
                forall|k: int| 0 <= k < i ==> out@[k]@ == (
                #[trigger] self.sessions@[k])@.session_id,
            decreases self.sessions@.len() - i,
        {
            out.push(self.sessions[i].session_id.clone());
            i += 1;
        }
        proof {
            assert forall|i: int| 0 <= i < out@.len() implies self@.dom().contains(
                #[trigger] out@[i]@,
            ) by {
                assert((self.sessions@[i])@.session_id == out@[i]@);
            }
            assert forall|a: int, b: int| 0 <= a < b < out@.len() implies out@[a]@ != out@[b]@ by {
                assert(self.sessions@[a]@.session_id != self.sessions@[b]@.session_id);
            }
            assert forall|id: Seq<char>| #[trigger] self@.dom().contains(id) implies exists|i: int|
                0 <= i < out@.len() && out@[i]@ == id by {
                let k = choose|k: int|
                    0 <= k < self.sessions@.len() && (#[trigger] self.sessions@[k])@.session_id
                        == id;
                assert(out@[k]@ == id);
            }
        }
        out
    }

    /// The device and start time of a tracked session, read-only.
    pub fn describe(&self, session_id: &str) -> (r: Option<(String, String)>)
        requires
            self.wf(),
        ensures
            match r {
                Some(p) => self@.dom().contains(session_id@) && p.0@ == self@[session_id@].device_id
                    && p.1@ == self@[session_id@].started_at,
                None => !self@.dom().contains(session_id@),
            },
    {
        proof {
            lemma_sessions_map_props(self.sessions@);
        }
        match self.find_index(session_id) {
            Some(i) => {
                let s = &self.sessions[i];
                Some((s.device_id.clone(), s.started_at.clone()))
            },
            None => {
                proof {
                    if self@.dom().contains(session_id@) {
                        let i = choose|i: int|
                            0 <= i < self.sessions@.len() && (
                            #[trigger] self.sessions@[i])@.session_id == session_id@;
                    }
                }
                None
            },
        }
    }

    /// A report of every tracked session, each marked running: presence in
    /// the table is what "running" means here.
    pub fn active_sessions(&self) -> (r: Vec<MirrorSession>)
        requires
            self.wf(),
        ensures
            r@.len() == self@.dom().len(),
            forall|i: int|
                0 <= i < r@.len() ==> {
                    let m = #[trigger] r@[i];
                    &&& self@.dom().contains(m.session_id@)
                    &&& m.device_id@ == self@[m.session_id@].device_id
                    &&& m.started_at@ == self@[m.session_id@].started_at
                    &&& m.status == SessionStatus::Running
                },
            forall|i: int, j: int| 0 <= i < j < r@.len() ==> r@[i].session_id@
                != r@[j].session_id@,
            forall|id: Seq<char>| #[trigger]
                self@.dom().contains(id) ==> exists|i: int|
                    0 <= i < r@.len() && r@[i].session_id@ == id,
    {
        proof {
            lemma_sessions_map_props(self.sessions@);
        }
        let mut out: Vec<MirrorSession> = Vec::new();
        let mut i: usize = 0;
        while i < self.sessions.len()
            invariant
                0 <= i <= self.sessions@.len(),
                out@.len() == i,
                forall|k: int|
                    0 <= k < i ==> {
                        let m = #[trigger] out@[k];
                        &&& m.session_id@ == self.sessions@[k]@.session_id
                        &&& m.device_id@ == self.sessions@[k]@.device_id
                        &&& m.started_at@ == self.sessions@[k]@.started_at
                        &&& m.status == SessionStatus::Running
                    },
            decreases self.sessions@.len() - i,
        {
            let s = &self.sessions[i];
            out.push(
                MirrorSession {
                    session_id: s.session_id.clone(),
                    device_id: s.device_id.clone(),
                    status: SessionStatus::Running,
                    started_at: s.started_at.clone(),
                },
            );
            i += 1;
        }
        proof {
            assert forall|a: int, b: int| 0 <= a < b < out@.len() implies out@[a].session_id@
                != out@[b].session_id@ by {
                assert(self.sessions@[a]@.session_id != self.sessions@[b]@.session_id);
            }
            assert forall|id: Seq<char>| #[trigger] self@.dom().contains(id) implies exists|i: int|
                0 <= i < out@.len() && out@[i].session_id@ == id by {
                let k = choose|k: int|
                    0 <= k < self.sessions@.len() && (#[trigger] self.sessions@[k])@.session_id
                        == id;
                assert(out@[k].session_id@ == id);
            }
        }
        out
    }
}

/// The views of a poll report: each observed id with what the poll said.
pub open spec fn poll_views(obs: Seq<(String, PollStatus)>) -> Seq<(Seq<char>, PollStatus)> {
    obs.map_values(|p: (String, PollStatus)| (p.0@, p.1))
}

/// Some observation reported this id's process as exited or undeterminable;
/// either way the registry must stop tracking it, since keeping an entry
/// whose process cannot be confirmed alive would leak it forever.
pub open spec fn observed_dead(obs: Seq<(Seq<char>, PollStatus)>, id: Seq<char>) -> bool {
    exists|k: int| 0 <= k < obs.len() && obs[k].0 == id && obs[k].1 != PollStatus::Running
}

impl SessionRegistry {
    /// Reconciles the table with a poll of every tracked process: sessions
    /// whose process exited, or whose poll failed, stop being tracked;
    /// sessions the poll confirmed running, and sessions not polled at all,
    /// stay untouched.
    pub fn cleanup(&mut self, observations: &Vec<(String, PollStatus)>)
        requires
            old(self).wf(),
        ensures
            final (self).wf(),
            forall|id: Seq<char>| #[trigger]
                final (self)@.dom().contains(id) <==> old(self)@.dom().contains(id)
                    && !observed_dead(poll_views(observations@), id),
            forall|id: Seq<char>| #[trigger]
                final (self)@.dom().contains(id) ==> final (self)@[id] == old(self)@[id],
    {
        let ghost pv = poll_views(observations@);
        let mut k: usize = 0;
        while k < observations.len()
            invariant
                0 <= k <= observations@.len(),
                pv == poll_views(observations@),
                pv.len() == observations@.len(),
                self.wf(),
                forall|id: Seq<char>| #[trigger]
                    self@.dom().contains(id) <==> old(self)@.dom().contains(id) && !observed_dead(
                        pv.take(k as int),
                        id,
                    ),
                forall|id: Seq<char>| #[trigger]
                    self@.dom().contains(id) ==> self@[id] == old(self)@[id],
            decreases observations@.len() - k,
        {
            let ghost pre = self@;
            proof {
                assert(pv[k as int] == (observations@[k as int].0@, observations@[k as int].1));
            }
            let dead = match observations[k].1 {
                PollStatus::Running => false,
                PollStatus::Exited => true,
                PollStatus::Unknown => true,
            };
            if dead {
                let _ = self.remove(observations[k].0.as_str());
            }
            proof {
                let kk = k as int;
                assert forall|id: Seq<char>| #[trigger] self@.dom().contains(id) <==> (old(
                    self,
                )@.dom().contains(id) && !observed_dead(pv.take(kk + 1), id)) by {
                    if observed_dead(pv.take(kk + 1), id) {
                        let j = choose|j: int|
                            0 <= j < kk + 1 && (#[trigger] pv.take(kk + 1)[j]).0 == id && pv.take(
                                kk + 1,
                            )[j].1 != PollStatus::Running;
                        if j < kk {
                            assert(pv.take(kk)[j] == pv.take(kk + 1)[j]);
                            assert(observed_dead(pv.take(kk), id));
                        } else {
                            assert(pv[kk].0 == id && pv[kk].1 != PollStatus::Running);
                        }
                    }
                    if observed_dead(pv.take(kk), id) {
                        let j = choose|j: int|
                            0 <= j < kk && (#[trigger] pv.take(kk)[j]).0 == id && pv.take(kk)[j].1
                                != PollStatus::Running;
                        assert(pv.take(kk + 1)[j] == pv.take(kk)[j]);
                        assert(observed_dead(pv.take(kk + 1), id));
                    }
                    if dead && id == pv[kk].0 {
                        assert(pv.take(kk + 1)[kk].0 == id && pv.take(kk + 1)[kk].1
                            != PollStatus::Running);
                        assert(observed_dead(pv.take(kk + 1), id));
                    }
                }
            }
            k += 1;
        }
        proof {
            assert(pv.take(observations@.len() as int) =~= pv);
        }
    }

    /// Drains the whole table and hands every tracked session to the caller,
    /// who attempts to kill each process best-effort; whatever those attempts
    /// yield, nothing is tracked afterwards.
    pub fn stop_all(&mut self) -> (r: Vec<Session>)
        requires
            old(self).wf(),
        ensures
            final (self).wf(),
            final (self)@ == Map::<Seq<char>, SessionView>::empty(),
            r@.len() == old(self)@.dom().len(),
            forall|i: int|
                0 <= i < r@.len() ==> old(self)@.dom().contains((#[trigger] r@[i])@.session_id)
                    && r@[i]@ == old(self)@[r@[i]@.session_id],
            forall|i: int, j: int| 0 <= i < j < r@.len() ==> r@[i]@.session_id
                != r@[j]@.session_id,
            forall|id: Seq<char>| #[trigger]
                old(self)@.dom().contains(id) ==> exists|i: int|
                    0 <= i < r@.len() && r@[i]@.session_id == id,
    {
        proof {
            lemma_sessions_map_props(self.sessions@);
        }
        let mut drained: Vec<Session> = Vec::new();
        core::mem::swap(&mut self.sessions, &mut drained);
        proof {
            assert(self@ =~= Map::<Seq<char>, SessionView>::empty());
        }
        drained
    }

    /// Finishes the stop-one protocol.  The caller has already detached the
    /// session with `remove` and attempted to kill its process; a kill that
    /// failed only because the process was already gone counts as success.
    /// Any other failure re-registers the session before the error is
    /// reported: losing track of a possibly-alive process would be worse
    /// than a failed stop, so ownership is never dropped on an ambiguous
    /// outcome.
    pub fn settle_stop(&mut self, session: Session, outcome: KillOutcome) -> (r: Result<
        (),
        String,
    >)
        requires
            old(self).wf(),
        ensures
            final (self).wf(),
            match outcome {
                KillOutcome::Killed => r is Ok && final (self)@ == old(self)@,
                KillOutcome::AlreadyExited => r is Ok && final (self)@ == old(self)@,
                KillOutcome::Failed(e) => (r matches Err(m) && m@ == "Failed to stop session: "@
                    + e@ && final (self)@ == old(self)@.insert(session@.session_id, session@)),
            },
    {
        match outcome {
            KillOutcome::Killed => Ok(()),
            KillOutcome::AlreadyExited => Ok(()),
            KillOutcome::Failed(e) => {
                self.add(session);
                Err(concat_str("Failed to stop session: ", e.as_str()))
            },
        }
    }
}

/// The identifier a session gets: the device id and the process id, joined
/// with a dash.
pub open spec fn spec_session_id(device_id: Seq<char>, pid: u64) -> Seq<char> {
    device_id + seq!['-'] + dec_digits(pid as nat)
}

pub fn make_session_id(device_id: &str, pid: u64) -> (r: String)
    ensures
        r@ == spec_session_id(device_id@, pid),
{
    let mut s = concat_str(device_id, "-");
    let digits = u64_to_dec(pid);
    s.append(digits.as_str());
    proof {
        reveal_strlit("-");
        assert(s@ =~= spec_session_id(device_id@, pid));
    }
    s
}

proof fn lemma_dec_digits_shape(n: nat)
    ensures
        dec_digits(n).len() >= 1,
        forall|j: int| 0 <= j < dec_digits(n).len() ==> dec_digits(n)[j] != '-',
    decreases n,
{
    if n >= 10 {
        lemma_dec_digits_shape(n / 10);
    }
}

proof fn lemma_dec_digits_injective(m: nat, n: nat)
    requires
        dec_digits(m) == dec_digits(n),
    ensures
        m == n,
    decreases m,
{
    lemma_dec_digits_shape(m);
    lemma_dec_digits_shape(n);
    if m < 10 && n < 10 {
        assert(dec_digits(m)[0] == digit_char(m as int));
        assert(dec_digits(n)[0] == digit_char(n as int));
    } else if m < 10 {
        assert(dec_digits(n).len() >= 2);
        assert(dec_digits(m).len() == 1);
    } else if n < 10 {
        assert(dec_digits(m).len() >= 2);
        assert(dec_digits(n).len() == 1);
    } else {
        assert(dec_digits(m).last() == digit_char((m % 10) as int));
        assert(dec_digits(n).last() == digit_char((n % 10) as int));
        assert(m % 10 == n % 10);
        assert(dec_digits(m).drop_last() =~= dec_digits(m / 10));
        assert(dec_digits(n).drop_last() =~= dec_digits(n / 10));
        lemma_dec_digits_injective(m / 10, n / 10);
    }
}

/// Two sessions receive the same identifier only for the same device and the
/// same process: while a process lives (and so its id is not reused by the
/// system), its session id is unique in the registry.
pub proof fn lemma_session_id_injective(d1: Seq<char>, p1: u64, d2: Seq<char>, p2: u64)
    requires
        spec_session_id(d1, p1) == spec_session_id(d2, p2),
    ensures
        d1 == d2,
        p1 == p2,
{
    let s = spec_session_id(d1, p1);
    lemma_dec_digits_shape(p1 as nat);
    lemma_dec_digits_shape(p2 as nat);
    assert(s[d1.len() as int] == '-');
    assert(s[d2.len() as int] == '-');
    assert forall|j: int| d1.len() < j < s.len() implies s[j] != '-' by {
        assert(s[j] == dec_digits(p1 as nat)[j - d1.len() - 1]);
    }
    assert forall|j: int| d2.len() < j < s.len() implies s[j] != '-' by {
        assert(s[j] == dec_digits(p2 as nat)[j - d2.len() - 1]);
    }
    assert(d1.len() == d2.len());
    assert forall|j: int| 0 <= j < d1.len() implies d1[j] == d2[j] by {
        assert(s[j] == d1[j]);
        assert(spec_session_id(d2, p2)[j] == d2[j]);
    }
    assert(d1 =~= d2);
    assert forall|j: int| 0 <= j < dec_digits(p1 as nat).len() implies dec_digits(p1 as nat)[j]
        == dec_digits(p2 as nat)[j] by {
        assert(s[d1.len() + 1 + j] == dec_digits(p1 as nat)[j]);
        assert(spec_session_id(d2, p2)[d2.len() + 1 + j] == dec_digits(p2 as nat)[j]);
    }
    assert(dec_digits(p1 as nat) =~= dec_digits(p2 as nat));
    lemma_dec_digits_injective(p1 as nat, p2 as nat);
}

/// One registry operation, as a mathematical value: what one concurrent
/// caller does.
pub enum RegistryOp {
    Add(SessionView),
    Remove(Seq<char>),
}

/// The id an operation touches.
pub open spec fn op_id(op: RegistryOp) -> Seq<char> {
    match op {
        RegistryOp::Add(s) => s.session_id,
        RegistryOp::Remove(id) => id,
    }
}

/// What one operation does to the registry's map view — exactly what the
/// contracts of `add` and `remove` state.
pub open spec fn apply_op(
    m: Map<Seq<char>, SessionView>,
    op: RegistryOp,
) -> Map<Seq<char>, SessionView> {
    match op {
        RegistryOp::Add(s) => m.insert(s.session_id, s),
        RegistryOp::Remove(id) => m.remove(id),
    }
}

pub open spec fn apply_ops(
    m: Map<Seq<char>, SessionView>,
    ops: Seq<RegistryOp>,
) -> Map<Seq<char>, SessionView>
    decreases ops.len(),
{
    if ops.len() == 0 {
        m
    } else {
        apply_ops(apply_op(m, ops.first()), ops.drop_first())
    }
}

/// Concurrent callers working on disjoint session ids: since every operation
/// holds the registry's lock for its whole duration, any concurrent history
/// is some sequence of operations, and when those operations touch pairwise
/// distinct ids the final table holds exactly the sessions that were added
/// and never removed, each with its own value, with every untouched entry
/// intact — regardless of the interleaving order.
pub proof fn lemma_disjoint_ops_outcome(m: Map<Seq<char>, SessionView>, ops: Seq<RegistryOp>)
    requires
        forall|i: int, j: int| 0 <= i < j < ops.len() ==> op_id(#[trigger] ops[i]) != op_id(
            #[trigger] ops[j],
        ),
    ensures
        forall|k: int|
            0 <= k < ops.len() ==> match #[trigger] ops[k] {
                RegistryOp::Add(s) => apply_ops(m, ops).dom().contains(s.session_id)
                    && apply_ops(m, ops)[s.session_id] == s,
                RegistryOp::Remove(id) => !apply_ops(m, ops).dom().contains(id),
            },
        forall|id: Seq<char>|
            (forall|k: int| 0 <= k < ops.len() ==> op_id(#[trigger] ops[k]) != id) ==> ((
            #[trigger] apply_ops(m, ops).dom().contains(id) <==> m.dom().contains(id)) && (
            m.dom().contains(id) ==> apply_ops(m, ops)[id] == m[id])),
    decreases ops.len(),
{
    if ops.len() > 0 {
        let first = ops.first();
        let m1 = apply_op(m, first);
        let rest = ops.drop_first();
        assert forall|i: int, j: int| 0 <= i < j < rest.len() implies op_id(#[trigger] rest[i])
            != op_id(#[trigger] rest[j]) by {
            assert(rest[i] == ops[i + 1]);
            assert(rest[j] == ops[j + 1]);
        }
        lemma_disjoint_ops_outcome(m1, rest);
        assert(apply_ops(m, ops) == apply_ops(m1, rest));
        assert forall|k: int| 0 <= k < rest.len() implies op_id(#[trigger] rest[k]) != op_id(
            first,
        ) by {
            assert(rest[k] == ops[k + 1]);
            assert(ops[0] == first);
        }
        assert forall|k: int| 0 <= k < ops.len() implies match #[trigger] ops[k] {
            RegistryOp::Add(s) => apply_ops(m, ops).dom().contains(s.session_id) && apply_ops(
                m,
                ops,
            )[s.session_id] == s,
            RegistryOp::Remove(id) => !apply_ops(m, ops).dom().contains(id),
        } by {
            if k == 0 {
                assert(forall|j: int|
                    0 <= j < rest.len() ==> op_id(#[trigger] rest[j]) != op_id(first));
                let id0 = op_id(first);
                assert(apply_ops(m1, rest).dom().contains(id0) <==> m1.dom().contains(id0));
                if m1.dom().contains(id0) {
                    assert(apply_ops(m1, rest)[id0] == m1[id0]);
                }
                match first {
                    RegistryOp::Add(s) => {
                        assert(m1.dom().contains(s.session_id));
                        assert(m1[s.session_id] == s);
                    },
                    RegistryOp::Remove(id) => {
                        assert(!m1.dom().contains(id));
                    },
                }
            } else {
                assert(ops[k] == rest[k - 1]);
            }
        }
        assert forall|id: Seq<char>|
            (forall|k: int| 0 <= k < ops.len() ==> op_id(#[trigger] ops[k]) != id) implies ((
        #[trigger] apply_ops(m, ops).dom().contains(id) <==> m.dom().contains(id)) && (
        m.dom().contains(id) ==> apply_ops(m, ops)[id] == m[id])) by {
            assert(op_id(ops[0]) != id);
            assert forall|j: int| 0 <= j < rest.len() implies op_id(#[trigger] rest[j]) != id by {
                assert(rest[j] == ops[j + 1]);
            }
            assert(apply_ops(m1, rest).dom().contains(id) <==> m1.dom().contains(id));
            assert(m1.dom().contains(id) <==> m.dom().contains(id));
            if m.dom().contains(id) {
                assert(m1[id] == m[id]);
                assert(apply_ops(m1, rest)[id] == m1[id]);
            }
        }
    }
}

/// Appending a fresh entry keeps ids distinct.
proof fn lemma_distinct_push(s: Seq<Session>, x: Session)
    requires
        distinct_ids(s),
        forall|j: int| 0 <= j < s.len() ==> (#[trigger] s[j])@.session_id != x@.session_id,
    ensures
        distinct_ids(s.push(x)),
{
    let t = s.push(x);
    assert forall|i: int, j: int| 0 <= i < j < t.len() implies (#[trigger] t[i])@.session_id != (
    #[trigger] t[j])@.session_id by {
        if j < s.len() {
            assert(t[i] == s[i] && t[j] == s[j]);
        } else {
            assert(t[j] == x);
            assert(t[i] == s[i]);
        }
    }
}

/// Removing the entry at `i` removes exactly its id from the denoted map,
/// when ids are distinct.
proof fn lemma_remove_preserves(s: Seq<Session>, i: int)
    requires
        distinct_ids(s),
        0 <= i < s.len(),
    ensures
        distinct_ids(s.remove(i)),
        sessions_map(s.remove(i)) == sessions_map(s).remove(s[i]@.session_id),
    decreases s.len(),
{
    let rem = s.remove(i);
    assert forall|a: int, b: int| 0 <= a < b < rem.len() implies (#[trigger] rem[a])@.session_id
        != (#[trigger] rem[b])@.session_id by {
        let a0 = if a < i {
            a
        } else {
            a + 1
        };
        let b0 = if b < i {
            b
        } else {
            b + 1
        };
        assert(rem[a] == s[a0] && rem[b] == s[b0]);
    }
    if i == s.len() - 1 {
        assert(rem =~= s.drop_last());
        lemma_sessions_map_props(s.drop_last());
        assert(!sessions_map(s.drop_last()).dom().contains(s[i]@.session_id)) by {
            if sessions_map(s.drop_last()).dom().contains(s[i]@.session_id) {
                let j = choose|j: int|
                    0 <= j < s.drop_last().len() && (#[trigger] s.drop_last()[j])@.session_id
                        == s[i]@.session_id;
                assert(s[j]@.session_id == s[i]@.session_id);
            }
        }
        assert(sessions_map(rem) =~= sessions_map(s).remove(s[i]@.session_id));
    } else {
        let pre = s.drop_last();
        assert forall|a: int, b: int| 0 <= a < b < pre.len() implies (
        #[trigger] pre[a])@.session_id != (#[trigger] pre[b])@.session_id by {
            assert(pre[a] == s[a] && pre[b] == s[b]);
        }
        lemma_remove_preserves(pre, i);
        assert(rem =~= pre.remove(i).push(s.last()));
        assert(rem.drop_last() =~= pre.remove(i));
        assert(rem.last() == s.last());
        assert(sessions_map(rem) == sessions_map(pre.remove(i)).insert(
            s.last()@.session_id,
            s.last()@,
        ));
        assert(s[i]@.session_id != s.last()@.session_id);
        assert(sessions_map(rem) =~= sessions_map(s).remove(s[i]@.session_id));
    }
}

} // verus!
