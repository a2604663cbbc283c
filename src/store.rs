use vstd::prelude::*;

use crate::context::SessionContext;
use crate::env::EnvVars;
use crate::error::ShellTunnelError;
use crate::id::{IdCounter, SessionId};
use crate::state::SessionState;
use crate::text::wall_clock_millis;

verus! {

/// What a session was created from.
#[derive(Debug)]
pub struct SessionConfig {
    pub shell: Option<String>,
    pub working_dir: Option<String>,
    pub env: EnvVars,
}

impl SessionConfig {
    /// No shell, no working directory, no variables.
    pub fn new() -> (r: SessionConfig)
        ensures
            r.shell is None,
            r.working_dir is None,
            r.env.wf(),
            r.env@ == Map::<Seq<char>, Seq<char>>::empty(),
    {
        SessionConfig { shell: None, working_dir: None, env: EnvVars::new() }
    }
}

impl Default for SessionConfig {
    fn default() -> (r: SessionConfig)
        ensures
            r.shell is None,
            r.working_dir is None,
            r.env@ == Map::<Seq<char>, Seq<char>>::empty(),
    {
        SessionConfig::new()
    }
}

/// A session record: identity, lifecycle state, history, and coarse timestamps
/// (milliseconds of the wall clock).
#[derive(Debug)]
pub struct Session {
    pub id: SessionId,
    pub state: SessionState,
    pub config: SessionConfig,
    pub context: SessionContext,
    pub created_at: u64,
    pub last_activity: u64,
}

/// The working-directory hint of a config, as a sequence.
pub open spec fn config_cwd(c: &SessionConfig) -> Option<Seq<char>> {
    match c.working_dir {
        Some(w) => Some(w@),
        None => None,
    }
}

impl Session {
    /// A fresh record in state `Created`, its history seeded with the config's directory.
    pub fn new(id: SessionId, config: SessionConfig) -> (r: Session)
        ensures
            r.id == id,
            r.state == SessionState::Created,
            r.context.wf(),
            r.context.cwd_view() == config_cwd(&config),
            r.context.count_view() == 0,
            r.context.exit_code_view() is None,
            r.created_at == r.last_activity,
            r.config == config,
    {
        let now = wall_clock_millis();
        let context = match &config.working_dir {
            Some(w) => SessionContext::with_cwd(w.as_str()),
            None => SessionContext::new(),
        };
        Session { id, state: SessionState::Created, config, context, created_at: now, last_activity: now }
    }

    /// Marks the session active now; the activity time never goes back.
    pub fn touch(&mut self)
        ensures
            final(self).id == old(self).id,
            final(self).state == old(self).state,
            final(self).context == old(self).context,
            final(self).config == old(self).config,
            final(self).created_at == old(self).created_at,
            final(self).last_activity >= old(self).last_activity,
    {
        let now = wall_clock_millis();
        if now > self.last_activity {
            self.last_activity = now;
        }
    }

    /// Milliseconds from the last activity to `now` (0 if `now` is earlier).
    pub fn idle_at(&self, now: u64) -> (r: u64)
        ensures
            now >= self.last_activity ==> r == now - self.last_activity,
            now < self.last_activity ==> r == 0,
    {
        if now >= self.last_activity {
            now - self.last_activity
        } else {
            0
        }
    }

    /// Milliseconds from the last activity to `now` (0 if `now` is earlier).
    pub open spec fn idle_spec(&self, now: u64) -> u64 {
        if now >= self.last_activity {
            (now - self.last_activity) as u64
        } else {
            0
        }
    }

    /// Milliseconds since the last activity, by the wall clock: `idle_at` of the time
    /// the clock gave.
    pub fn idle_duration(&self) -> (r: u64)
        ensures
            exists|now: u64| r == self.idle_spec(now),
    {
        let now = wall_clock_millis();
        let r = self.idle_at(now);
        assert(r == self.idle_spec(now));
        r
    }
}

/// Two records agree on everything observable.
pub open spec fn same_session(a: &Session, b: &Session) -> bool {
    &&& a.id == b.id
    &&& a.state == b.state
    &&& a.created_at == b.created_at
    &&& a.last_activity == b.last_activity
    &&& a.context.same_as(&b.context)
    &&& config_cwd(&a.config) == config_cwd(&b.config)
    &&& opt_view(&a.config.shell) == opt_view(&b.config.shell)
    &&& a.config.env@ == b.config.env@
}

pub open spec fn opt_view(o: &Option<String>) -> Option<Seq<char>> {
    match o {
        Some(s) => Some(s@),
        None => None,
    }
}

fn copy_opt(o: &Option<String>) -> (r: Option<String>)
    ensures
        opt_view(&r) == opt_view(o),
{
    match o {
        Some(s) => Some(s.clone()),
        None => None,
    }
}

impl Session {
    /// An independent copy of the record.
    pub fn snapshot(&self) -> (r: Session)
        ensures
            same_session(&r, self),
    {
        Session {
            id: self.id,
            state: self.state,
            config: SessionConfig {
                shell: copy_opt(&self.config.shell),
                working_dir: copy_opt(&self.config.working_dir),
                env: self.config.env.snapshot(),
            },
            context: self.context.snapshot(),
            created_at: self.created_at,
            last_activity: self.last_activity,
        }
    }
}

/// Index `i` of `s` holds the session with raw id `k`.
pub open spec fn id_at(s: Seq<Session>, k: u64, i: int) -> bool {
    0 <= i < s.len() && s[i].id.0 == k
}

pub open spec fn has_id(s: Seq<Session>, k: u64) -> bool {
    exists|i: int| id_at(s, k, i)
}

pub open spec fn ids_unique(s: Seq<Session>) -> bool {
    forall|i: int, j: int| 0 <= i < s.len() && 0 <= j < s.len() && i != j ==> s[i].id.0 != s[j].id.0
}

/// The registry's sessions keyed by raw id.
pub open spec fn session_map(s: Seq<Session>) -> Map<u64, Session> {
    Map::new(|k: u64| has_id(s, k), |k: u64| s[choose|i: int| id_at(s, k, i)])
}

proof fn lemma_map_at(s: Seq<Session>, k: u64, i: int)
    requires
        ids_unique(s),
        id_at(s, k, i),
    ensures
        session_map(s).contains_key(k),
        session_map(s)[k] == s[i],
{
    let j = choose|j: int| id_at(s, k, j);
    assert(id_at(s, k, j));
}

proof fn lemma_map_len(s: Seq<Session>)
    requires
        ids_unique(s),
    ensures
        session_map(s).len() == s.len(),
        session_map(s).dom().finite(),
{
    let keys = Seq::new(s.len(), |i: int| s[i].id.0);
    assert(keys.no_duplicates());
    assert(session_map(s).dom() =~= keys.to_set()) by {
        assert forall|k: u64| session_map(s).dom().contains(k) <==> keys.to_set().contains(k) by {
            if has_id(s, k) {
                let i = choose|i: int| id_at(s, k, i);
                assert(keys[i] == k);
            }
            if keys.to_set().contains(k) {
                let i = choose|i: int| 0 <= i < keys.len() && keys[i] == k;
                assert(id_at(s, k, i));
            }
        }
    }
    keys.unique_seq_to_set();
}

proof fn lemma_map_remove(s: Seq<Session>, i: int)
    requires
        ids_unique(s),
        0 <= i < s.len(),
    ensures
        ids_unique(s.remove(i)),
        session_map(s.remove(i)) == session_map(s).remove(s[i].id.0),
{
    let t = s.remove(i);
    let k = s[i].id.0;
    assert forall|q: u64| #[trigger] session_map(t).contains_key(q) == session_map(s).remove(k).contains_key(q)
        && (session_map(t).contains_key(q) ==> session_map(t)[q] == session_map(s).remove(k)[q]) by {
        if has_id(t, q) {
            let j = choose|j: int| id_at(t, q, j);
            let oj = if j < i { j } else { j + 1 };
            assert(id_at(s, q, oj));
            lemma_map_at(t, q, j);
            lemma_map_at(s, q, oj);
        }
        if q != k && has_id(s, q) {
            let j = choose|j: int| id_at(s, q, j);
            let nj = if j < i { j } else { j - 1 };
            assert(id_at(t, q, nj));
        }
    }
    assert(session_map(t) =~= session_map(s).remove(k));
}

proof fn lemma_map_update(s: Seq<Session>, i: int, v: Session)
    requires
        ids_unique(s),
        0 <= i < s.len(),
        v.id == s[i].id,
    ensures
        ids_unique(s.update(i, v)),
        session_map(s.update(i, v)) == session_map(s).insert(v.id.0, v),
{
    let t = s.update(i, v);
    let k = v.id.0;
    lemma_map_at(t, k, i);
    assert forall|q: u64| #[trigger] session_map(t).contains_key(q) == session_map(s).insert(k, v).contains_key(q)
        && (session_map(t).contains_key(q) ==> session_map(t)[q] == session_map(s).insert(k, v)[q]) by {
        if q != k && has_id(t, q) {
            let j = choose|j: int| id_at(t, q, j);
            assert(id_at(s, q, j));
            lemma_map_at(t, q, j);
            lemma_map_at(s, q, j);
        }
        if q != k && has_id(s, q) {
            let j = choose|j: int| id_at(s, q, j);
            assert(id_at(t, q, j));
        }
        if q == k {
            assert(id_at(s, k, i));
        }
    }
    assert(session_map(t) =~= session_map(s).insert(k, v));
}

proof fn lemma_map_push(s: Seq<Session>, v: Session)
    requires
        ids_unique(s),
        !has_id(s, v.id.0),
    ensures
        ids_unique(s.push(v)),
        session_map(s.push(v)) == session_map(s).insert(v.id.0, v),
{
    let t = s.push(v);
    let k = v.id.0;
    let n = s.len() as int;
    assert(ids_unique(t)) by {
        assert forall|j: int| 0 <= j < n implies t[j].id.0 != k by {
            assert(!id_at(s, k, j));
        }
    }
    lemma_map_at(t, k, n);
    assert forall|q: u64| #[trigger] session_map(t).contains_key(q) == session_map(s).insert(k, v).contains_key(q)
        && (session_map(t).contains_key(q) ==> session_map(t)[q] == session_map(s).insert(k, v)[q]) by {
        if q != k && has_id(t, q) {
            let j = choose|j: int| id_at(t, q, j);
            assert(j != n);
            assert(id_at(s, q, j));
            lemma_map_at(t, q, j);
            lemma_map_at(s, q, j);
        }
        if q != k && has_id(s, q) {
            let j = choose|j: int| id_at(s, q, j);
            assert(id_at(t, q, j));
        }
    }
    assert(session_map(t) =~= session_map(s).insert(k, v));
}

/// The registry: sessions keyed by id, each id handed out once.
#[derive(Debug)]
pub struct SessionStore {
    sessions: Vec<Session>,
    counter: IdCounter,
}

/// `new` is `old` with one more session under a fresh id, in state `Created`.
pub open spec fn created(old: Map<u64, Session>, new: Map<u64, Session>, id: SessionId) -> bool {
    &&& !old.contains_key(id.0)
    &&& new.dom() == old.dom().insert(id.0)
    &&& forall|k: u64| old.contains_key(k) ==> new[k] == old[k]
    &&& new[id.0].id == id
    &&& new[id.0].state == SessionState::Created
}

impl SessionStore {
    /// The sessions keyed by raw id.
    pub closed spec fn view(&self) -> Map<u64, Session> {
        session_map(self.sessions@)
    }

    /// The raw value of the next id to be handed out.
    pub closed spec fn next_raw(&self) -> u64 {
        self.counter.next_value()
    }

    pub closed spec fn wf(&self) -> bool {
        &&& ids_unique(self.sessions@)
        &&& forall|i: int| 0 <= i < self.sessions@.len() ==> self.sessions@[i].id.0 < self.counter.next_value()
        &&& self.counter.next_value() >= 1
    }

    pub fn new() -> (r: SessionStore)
        ensures
            r.wf(),
            r@ == Map::<u64, Session>::empty(),
            r.next_raw() == 1,
    {
        let r = SessionStore { sessions: Vec::new(), counter: IdCounter::new() };
        assert(r@ =~= Map::<u64, Session>::empty());
        r
    }

    /// A well-formed registry holds finitely many sessions.
    pub proof fn lemma_finite(&self)
        requires
            self.wf(),
        ensures
            self@.dom().finite(),
    {
        self.lemma_len();
    }

    proof fn lemma_len(&self)
        requires
            self.wf(),
        ensures
            self@.dom().finite(),
            self@.len() == self.sessions@.len(),
    {
        lemma_map_len(self.sessions@);
    }

    fn find(&self, id: &SessionId) -> (r: Option<usize>)
        ensures
            r is Some ==> id_at(self.sessions@, id.0, r->0 as int),
            r is None ==> !has_id(self.sessions@, id.0),
    {
        let mut i: usize = 0;
        while i < self.sessions.len()
            invariant
                forall|j: int| 0 <= j < i ==> !id_at(self.sessions@, id.0, j),
            decreases self.sessions.len() - i,
        {
            if self.sessions[i].id.0 == id.0 {
                return Some(i);
            }
            i = i + 1;
        }
        None
    }

    /// Registers a new session under a fresh id; fails only once the id space is spent.
    pub fn create(&mut self, config: SessionConfig) -> (r: Result<SessionId, ShellTunnelError>)
        requires
            old(self).wf(),
        ensures
            final(self).wf(),
            r is Ok ==> final(self).next_raw() == old(self).next_raw() + 1 && r->Ok_0.0 == old(self).next_raw(),
            r is Err ==> final(self).next_raw() == old(self).next_raw(),
            r is Ok ==> created(old(self)@, final(self)@, r->Ok_0),
            r is Ok ==> final(self)@[r->Ok_0.0].context.cwd_view() == config_cwd(&config),
            r is Ok ==> final(self)@.len() == old(self)@.len() + 1,
            r is Err ==> final(self)@ == old(self)@,
            r is Err <==> old(self).next_raw() == u64::MAX,
    {
        proof {
            self.lemma_len();
        }
        let id = match SessionId::new(&mut self.counter) {
            Some(id) => id,
            None => {
                return Err(ShellTunnelError::SessionExists(String::from_str("session id space exhausted")));
            },
        };
        let session = Session::new(id, config);
        let ghost old_s = self.sessions@;
        proof {
            if has_id(old_s, id.0) {
                let j = choose|j: int| id_at(old_s, id.0, j);
                assert(old_s[j].id.0 < id.0);
            }
            lemma_map_push(old_s, session);
        }
        self.sessions.push(session);
        proof {
            assert(self.sessions@ =~= old_s.push(session));
            lemma_map_len(self.sessions@);
            lemma_map_at(self.sessions@, id.0, old_s.len() as int);
            assert(self@.dom() =~= old(self)@.dom().insert(id.0));
        }
        Ok(id)
    }

    /// A copy of the session, if registered.
    pub fn get(&self, id: &SessionId) -> (r: Option<Session>)
        requires
            self.wf(),
        ensures
            r is Some <==> self@.contains_key(id.0),
            r is Some ==> same_session(&r->0, &self@[id.0]),
    {
        match self.find(id) {
            Some(i) => {
                proof {
                    lemma_map_at(self.sessions@, id.0, i as int);
                }
                Some(self.sessions[i].snapshot())
            },
            None => None,
        }
    }

    pub fn contains(&self, id: &SessionId) -> (r: bool)
        requires
            self.wf(),
        ensures
            r == self@.contains_key(id.0),
    {
        match self.find(id) {
            Some(i) => {
                proof {
                    lemma_map_at(self.sessions@, id.0, i as int);
                }
                true
            },
            None => false,
        }
    }

    /// Replaces the session by what `f` makes of it (the id stays), or fails with
    /// `SessionNotFound` when the id is not registered.
    pub fn update<F>(&mut self, id: &SessionId, f: F) -> (r: Result<(), ShellTunnelError>)
        where
            F: FnOnce(Session) -> Session,
        requires
            old(self).wf(),
            forall|s: Session| f.requires((s,)),
        ensures
            final(self).wf(),
            final(self).next_raw() == old(self).next_raw(),
            r is Err <==> !old(self)@.contains_key(id.0),
            r is Err ==> final(self)@ == old(self)@ && r->Err_0 is SessionNotFound,
            r is Ok ==> final(self)@.dom() == old(self)@.dom(),
            r is Ok ==> forall|k: u64| k != id.0 && old(self)@.contains_key(k) ==> final(self)@[k] == old(self)@[k],
            r is Ok ==> exists|s: Session| f.ensures((old(self)@[id.0],), s) && final(self)@[id.0] == (Session { id: *id, ..s }),
    {
        match self.find(id) {
            Some(i) => {
                proof {
                    lemma_map_at(self.sessions@, id.0, i as int);
                }
                let ghost old_s = self.sessions@;
                let current = self.sessions.remove(i);
                let mut next = f(current);
                let ghost produced = next;
                next.id = *id;
                self.sessions.insert(i, next);
                proof {
                    assert(self.sessions@ =~= old_s.update(i as int, next));
                    lemma_map_update(old_s, i as int, next);
                    assert(self@ == old(self)@.insert(id.0, next));
                    assert(self@.dom() =~= old(self)@.dom());
                    assert(next == (Session { id: *id, ..produced }));
                }
                Ok(())
            },
            None => Err(ShellTunnelError::SessionNotFound(id.to_string())),
        }
    }

    /// Takes the session out of the registry, handing it back if it was there.
    pub fn remove(&mut self, id: &SessionId) -> (r: Option<Session>)
        requires
            old(self).wf(),
        ensures
            final(self).wf(),
            final(self).next_raw() == old(self).next_raw(),
            final(self)@ == old(self)@.remove(id.0),
            r is Some <==> old(self)@.contains_key(id.0),
            r is Some ==> r->0 == old(self)@[id.0],
            r is Some ==> final(self)@.len() == old(self)@.len() - 1,
            final(self)@.dom().finite(),
    {
        proof {
            self.lemma_len();
        }
        match self.find(id) {
            Some(i) => {
                let ghost old_s = self.sessions@;
                proof {
                    lemma_map_at(old_s, id.0, i as int);
                    lemma_map_remove(old_s, i as int);
                }
                let s = self.sessions.remove(i);
                proof {
                    assert(self.sessions@ =~= old_s.remove(i as int));
                }
                Some(s)
            },
            None => {
                assert(old(self)@.remove(id.0) =~= old(self)@);
                None
            },
        }
    }

    pub fn count(&self) -> (r: usize)
        requires
            self.wf(),
        ensures
            r as nat == self@.len(),
    {
        proof {
            self.lemma_len();
        }
        self.sessions.len()
    }

    /// Every registered id, once each.
    pub fn list_ids(&self) -> (r: Vec<SessionId>)
        requires
            self.wf(),
        ensures
            r@.len() == self@.len(),
            forall|i: int, j: int| 0 <= i < r@.len() && 0 <= j < r@.len() && i != j ==> r@[i] != r@[j],
            forall|i: int| 0 <= i < r@.len() ==> self@.contains_key((#[trigger] r@[i]).0),
            forall|k: u64| self@.contains_key(k) ==> exists|i: int| 0 <= i < r@.len() && (#[trigger] r@[i]).0 == k,
    {
        proof {
            self.lemma_len();
        }
        let mut r: Vec<SessionId> = Vec::new();
        let mut i: usize = 0;
        while i < self.sessions.len()
            invariant
                self.wf(),
                i <= self.sessions@.len(),
                r@.len() == i,
                forall|j: int| 0 <= j < i ==> (#[trigger] r@[j]) == self.sessions@[j].id,
            decreases self.sessions.len() - i,
        {
            r.push(self.sessions[i].id);
            i = i + 1;
        }
        proof {
            assert forall|j: int| 0 <= j < r@.len() implies self@.contains_key((#[trigger] r@[j]).0) by {
                lemma_map_at(self.sessions@, r@[j].0, j);
            }
            assert forall|k: u64| self@.contains_key(k) implies exists|i: int| 0 <= i < r@.len() && (#[trigger] r@[i]).0 == k by {
                let j = choose|j: int| id_at(self.sessions@, k, j);
                assert(r@[j].0 == k);
            }
        }
        r
    }

    /// Removes every session that `predicate` accepts, returning how many went.
    pub fn remove_matching<F>(&mut self, predicate: F) -> (r: usize)
        where
            F: Fn(&Session) -> bool,
        requires
            old(self).wf(),
            forall|s: &Session| predicate.requires((s,)),
        ensures
            final(self).wf(),
            final(self).next_raw() == old(self).next_raw(),
            final(self)@.dom().subset_of(old(self)@.dom()),
            forall|k: u64| #[trigger] final(self)@.contains_key(k) ==> final(self)@[k] == old(self)@[k]
                && predicate.ensures((&old(self)@[k],), false),
            forall|k: u64| old(self)@.contains_key(k) && !final(self)@.contains_key(k)
                ==> predicate.ensures((&old(self)@[k],), true),
            r as nat == old(self)@.len() - final(self)@.len(),
    {
        proof {
            self.lemma_len();
        }
        let ghost start = self@;
        let start_len: usize = self.sessions.len();
        let mut i: usize = 0;
        while i < self.sessions.len()
            invariant
                self.wf(),
                i <= self.sessions@.len(),
                start_len >= self.sessions@.len(),
                start_len == start.len(),
                self.counter == old(self).counter,
                self@.dom().subset_of(start.dom()),
                forall|k: u64| #[trigger] self@.contains_key(k) ==> self@[k] == start[k],
                forall|j: int| 0 <= j < i ==> predicate.ensures((&self.sessions@[j],), false),
                forall|k: u64| start.contains_key(k) && !self@.contains_key(k)
                    ==> predicate.ensures((&start[k],), true),
                forall|s: &Session| predicate.requires((s,)),
            decreases self.sessions.len() - i,
        {
            if predicate(&self.sessions[i]) {
                let ghost old_s = self.sessions@;
                let ghost gone = old_s[i as int];
                proof {
                    lemma_map_at(old_s, gone.id.0, i as int);
                    lemma_map_remove(old_s, i as int);
                }
                self.sessions.remove(i);
                proof {
                    assert(self.sessions@ =~= old_s.remove(i as int));
                    assert forall|j: int| 0 <= j < i implies predicate.ensures((&self.sessions@[j],), false) by {
                        assert(self.sessions@[j] == old_s[j]);
                    }
                }
            } else {
                i = i + 1;
            }
        }
        proof {
            lemma_map_len(self.sessions@);
            assert forall|k: u64| #[trigger] self@.contains_key(k) implies self@[k] == start[k]
                && predicate.ensures((&start[k],), false) by {
                let j = choose|j: int| id_at(self.sessions@, k, j);
                lemma_map_at(self.sessions@, k, j);
            }
        }
        start_len - self.sessions.len()
    }
}

impl SessionStore {
    /// Starts a command in a session: it must be registered (else `SessionNotFound`) and
    /// able to execute (else `NotExecutable` with its state); it then becomes `Active`.
    pub fn begin_execution(&mut self, id: &SessionId) -> (r: Result<(), ShellTunnelError>)
        requires
            old(self).wf(),
        ensures
            final(self).wf(),
            final(self).next_raw() == old(self).next_raw(),
            !old(self)@.contains_key(id.0) ==> r is Err && r->Err_0 is SessionNotFound,
            old(self)@.contains_key(id.0) && !old(self)@[id.0].state.can_execute_spec() ==> r
                == Err::<(), ShellTunnelError>(ShellTunnelError::NotExecutable(old(self)@[id.0].state)),
            r is Err ==> final(self)@ == old(self)@,
            r is Ok <==> old(self)@.contains_key(id.0) && old(self)@[id.0].state.can_execute_spec(),
            r is Ok ==> final(self)@.dom() == old(self)@.dom(),
            r is Ok ==> final(self)@[id.0].state == SessionState::Active,
            r is Ok ==> final(self)@[id.0].last_activity >= old(self)@[id.0].last_activity,
            r is Ok ==> final(self)@[id.0].context == old(self)@[id.0].context,
            r is Ok ==> forall|k: u64| k != id.0 && old(self)@.contains_key(k) ==> final(self)@[k] == old(self)@[k],
    {
        match self.find(id) {
            Some(i) => {
                proof {
                    lemma_map_at(self.sessions@, id.0, i as int);
                }
                let st = self.sessions[i].state;
                if !st.can_execute() {
                    return Err(ShellTunnelError::NotExecutable(st));
                }
                let ghost old_s = self.sessions@;
                let mut cur = self.sessions.remove(i);
                let _ = cur.state.transition_to(SessionState::Active);
                cur.touch();
                self.sessions.insert(i, cur);
                proof {
                    assert(self.sessions@ =~= old_s.update(i as int, cur));
                    lemma_map_update(old_s, i as int, cur);
                    assert(self@.dom() =~= old(self)@.dom());
                }
                Ok(())
            },
            None => Err(ShellTunnelError::SessionNotFound(id.to_string())),
        }
    }

    /// Ends a command in a session: an `Active` session goes back to `Idle`, and the
    /// command and its exit code are recorded in its history.
    pub fn finish_execution(&mut self, id: &SessionId, command: &str, exit_code: Option<i32>) -> (r: Result<(), ShellTunnelError>)
        requires
            old(self).wf(),
        ensures
            final(self).wf(),
            final(self).next_raw() == old(self).next_raw(),
            r is Err <==> !old(self)@.contains_key(id.0),
            r is Err ==> final(self)@ == old(self)@ && r->Err_0 is SessionNotFound,
            r is Ok ==> final(self)@.dom() == old(self)@.dom(),
            r is Ok ==> final(self)@[id.0].state == (if old(self)@[id.0].state == SessionState::Active {
                SessionState::Idle
            } else {
                old(self)@[id.0].state
            }),
            r is Ok ==> final(self)@[id.0].context.last_command_view() == Some(command@),
            r is Ok ==> final(self)@[id.0].last_activity >= old(self)@[id.0].last_activity,
            r is Ok ==> final(self)@[id.0].context.exit_code_view() == exit_code,
            r is Ok ==> final(self)@[id.0].context.count_view() == crate::context::bumped(old(self)@[id.0].context.count_view()),
            r is Ok ==> forall|k: u64| k != id.0 && old(self)@.contains_key(k) ==> final(self)@[k] == old(self)@[k],
    {
        match self.find(id) {
            Some(i) => {
                proof {
                    lemma_map_at(self.sessions@, id.0, i as int);
                }
                let ghost old_s = self.sessions@;
                let mut cur = self.sessions.remove(i);
                let _ = cur.state.transition_to(SessionState::Idle);
                cur.touch();
                cur.context.record_execution(command, exit_code);
                self.sessions.insert(i, cur);
                proof {
                    assert(self.sessions@ =~= old_s.update(i as int, cur));
                    lemma_map_update(old_s, i as int, cur);
                    assert(self@.dom() =~= old(self)@.dom());
                }
                Ok(())
            },
            None => Err(ShellTunnelError::SessionNotFound(id.to_string())),
        }
    }
}

/// Two creations in a row hand out two different ids, and both sessions are then present.
pub proof fn lemma_creations_distinct(
    s0: Map<u64, Session>,
    s1: Map<u64, Session>,
    s2: Map<u64, Session>,
    a: SessionId,
    b: SessionId,
)
    requires
        created(s0, s1, a),
        created(s1, s2, b),
    ensures
        a != b,
        s2.contains_key(a.0),
        s2.contains_key(b.0),
{
    assert(s1.dom().contains(a.0));
}

/// After a registered session is removed, looking it up finds nothing and the count
/// is one less.
pub proof fn lemma_remove_then_get(m: Map<u64, Session>, id: u64)
    requires
        m.dom().finite(),
        m.contains_key(id),
    ensures
        !m.remove(id).contains_key(id),
        m.remove(id).len() == m.len() - 1,
{
}

} // verus!
