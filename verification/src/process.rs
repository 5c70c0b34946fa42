//! Session lifecycle management for the spawn-per-turn process model.
//!
//! A session is a logical conversation thread. No process exists until a
//! prompt is submitted; each submission spawns one fresh child process,
//! whose output is decoded by [`crate::parser`] while a reader drains it.
//! The registry here is the decision core of that protocol: it validates
//! submissions, builds the child's argument vector, tracks each session's
//! status, resumption token and accumulated cost, and hands the caller the
//! process handles it must kill. The caller performs the spawning, reading
//! and killing, and reports what happened back through [`ProcessManager`]'s
//! methods; every decision those methods take is verified here.
//!
//! Writes for a session that has been terminated (or never existed) are
//! discarded: [`ProcessManager::absorb_message`] and
//! [`ProcessManager::finish_turn`] leave the registry unchanged when the
//! session is gone, so a reader racing a terminate cannot resurrect state.

use vstd::prelude::*;
use crate::decode::MessageModel;
use crate::decode::StreamMessage;
use vstd::string::StringExecFns;

verus! {

/// Errors from session and process management.
#[derive(Debug, Clone)]
pub enum ProcessError {
    SessionNotFound(String),
    SpawnFailed(String),
    SessionExists(String),
    SessionBusy,
    InvalidWorkingDir(String),
    ProcessTerminated,
}

impl ProcessError {
    /// The wording of each error, as callers report it.
    pub open spec fn message_spec(&self) -> Seq<char> {
        match self {
            ProcessError::SessionNotFound(s) => "Session not found: "@ + s@,
            ProcessError::SpawnFailed(s) => "Failed to spawn process: "@ + s@,
            ProcessError::SessionExists(s) => "Session already exists: "@ + s@,
            ProcessError::SessionBusy => "Session is busy processing another prompt"@,
            ProcessError::InvalidWorkingDir(s) => "Invalid working directory: "@ + s@,
            ProcessError::ProcessTerminated => "Process terminated unexpectedly"@,
        }
    }

    /// Renders the error as text.
    pub fn message(&self) -> (r: String)
        ensures
            r@ == self.message_spec(),
    {
        match self {
            ProcessError::SessionNotFound(s) => String::from_str("Session not found: ").concat(
                s.as_str(),
            ),
            ProcessError::SpawnFailed(s) => String::from_str("Failed to spawn process: ").concat(
                s.as_str(),
            ),
            ProcessError::SessionExists(s) => String::from_str("Session already exists: ").concat(
                s.as_str(),
            ),
            ProcessError::SessionBusy => String::from_str(
                "Session is busy processing another prompt",
            ),
            ProcessError::InvalidWorkingDir(s) => String::from_str(
                "Invalid working directory: ",
            ).concat(s.as_str()),
            ProcessError::ProcessTerminated => String::from_str("Process terminated unexpectedly"),
        }
    }
}

/// Error type handed to the command surface.
#[derive(Debug, Clone)]
pub struct SessionError {
    pub message: String,
}

impl SessionError {
    /// Wraps a process error the way the command surface reports it.
    pub fn from_process(e: &ProcessError) -> (r: SessionError)
        ensures
            r.message@ == e.message_spec(),
    {
        SessionError { message: e.message() }
    }
}

/// Result of creating a session.
#[derive(Debug, Clone)]
pub struct CreateSessionResult {
    pub session_id: String,
}

/// Status of a session.
#[derive(Debug, Clone, Copy, PartialEq, Eq, Structural)]
pub enum SessionStatus {
    Idle,
    Thinking,
    Error,
    Terminated,
}

/// Configuration fixed when a session is created.
#[derive(Debug)]
pub struct SessionConfig {
    pub working_dir: String,
    pub model: String,
    pub allowed_tools: Vec<String>,
}

/// Mathematical image of [`SessionConfig`].
pub struct ConfigModel {
    pub working_dir: Seq<char>,
    pub model: Seq<char>,
    pub allowed_tools: Seq<Seq<char>>,
}

impl DeepView for SessionConfig {
    type V = ConfigModel;

    open spec fn deep_view(&self) -> ConfigModel {
        ConfigModel {
            working_dir: self.working_dir@,
            model: self.model@,
            allowed_tools: self.allowed_tools.deep_view(),
        }
    }
}

impl Clone for SessionConfig {
    /// Clones field by field, preserving the configuration exactly.
    fn clone(&self) -> (r: Self)
        ensures
            r.deep_view() == self.deep_view(),
    {
        let r = SessionConfig {
            working_dir: self.working_dir.clone(),
            model: self.model.clone(),
            allowed_tools: clone_string_vec(&self.allowed_tools),
        };
        proof {
            assert(r.deep_view().allowed_tools =~= self.deep_view().allowed_tools);
        }
        r
    }
}

fn clone_string_vec(v: &Vec<String>) -> (r: Vec<String>)
    ensures
        r@ == v@,
{
    let mut r: Vec<String> = Vec::new();
    let n = v.len();
    let mut i: usize = 0;
    while i < n
        invariant
            i <= n == v@.len(),
            r@ =~= v@.take(i as int),
        decreases n - i,
    {
        r.push(v[i].clone());
        proof {
            assert(r@ =~= v@.take(i + 1));
        }
        i = i + 1;
    }
    proof {
        assert(v@.take(n as int) =~= v@);
    }
    r
}

/// A point-in-time snapshot of one session.
#[derive(Debug)]
pub struct SessionInfo {
    pub id: String,
    /// The external tool's own session token, captured from the first
    /// turn's output and supplied on later turns to resume the thread.
    pub claude_session_id: Option<String>,
    pub working_dir: String,
    pub model: String,
    pub status: SessionStatus,
    pub created_at: u64,
    pub prompt_count: u32,
    pub total_cost_micros: u64,
}

/// Mathematical image of [`SessionInfo`].
pub struct InfoModel {
    pub id: Seq<char>,
    pub claude_session_id: Option<Seq<char>>,
    pub working_dir: Seq<char>,
    pub model: Seq<char>,
    pub status: SessionStatus,
    pub created_at: u64,
    pub prompt_count: u32,
    pub total_cost_micros: u64,
}

impl DeepView for SessionInfo {
    type V = InfoModel;

    open spec fn deep_view(&self) -> InfoModel {
        InfoModel {
            id: self.id@,
            claude_session_id: self.claude_session_id.deep_view(),
            working_dir: self.working_dir@,
            model: self.model@,
            status: self.status,
            created_at: self.created_at,
            prompt_count: self.prompt_count,
            total_cost_micros: self.total_cost_micros,
        }
    }
}

impl Clone for SessionInfo {
    /// Clones field by field, preserving the snapshot exactly.
    fn clone(&self) -> (r: Self)
        ensures
            r.deep_view() == self.deep_view(),
    {
        SessionInfo {
            id: self.id.clone(),
            claude_session_id: match &self.claude_session_id {
                Some(s) => Some(s.clone()),
                None => None,
            },
            working_dir: self.working_dir.clone(),
            model: self.model.clone(),
            status: self.status,
            created_at: self.created_at,
            prompt_count: self.prompt_count,
            total_cost_micros: self.total_cost_micros,
        }
    }
}

/// One registered session: its snapshot fields, its fixed configuration,
/// and the handle of the at most one live child process working for it.
struct Session {
    info: SessionInfo,
    config: SessionConfig,
    active_handle: Option<u64>,
}

/// Mathematical image of one registered session.
pub struct SessionModel {
    pub info: InfoModel,
    pub config: ConfigModel,
    pub active_handle: Option<u64>,
}

impl DeepView for Session {
    type V = SessionModel;

    closed spec fn deep_view(&self) -> SessionModel {
        SessionModel {
            info: self.info.deep_view(),
            config: self.config.deep_view(),
            active_handle: self.active_handle,
        }
    }
}

/// Index of the first session with this id, or `m.len()` if none has it.
pub open spec fn idx_of(m: Seq<SessionModel>, id: Seq<char>) -> int
    decreases m.len(),
{
    if m.len() == 0 {
        0
    } else if m[0].info.id == id {
        0
    } else {
        1 + idx_of(m.drop_first(), id)
    }
}

pub open spec fn contains_id(m: Seq<SessionModel>, id: Seq<char>) -> bool {
    idx_of(m, id) < m.len()
}

/// The first session with this id.
pub open spec fn found(m: Seq<SessionModel>, id: Seq<char>) -> SessionModel
    recommends
        contains_id(m, id),
{
    m[idx_of(m, id)]
}

/// No two sessions share an id.
pub open spec fn distinct_ids(m: Seq<SessionModel>) -> bool {
    forall|i: int, j: int| 0 <= i < j < m.len() ==> m[i].info.id != m[j].info.id
}

/// The state of a session immediately after creation.
pub open spec fn fresh_session(config: ConfigModel, id: Seq<char>, created_at: u64) -> SessionModel {
    SessionModel {
        info: InfoModel {
            id: id,
            claude_session_id: None,
            working_dir: config.working_dir,
            model: config.model,
            status: SessionStatus::Idle,
            created_at: created_at,
            prompt_count: 0,
            total_cost_micros: 0,
        },
        config: config,
        active_handle: None,
    }
}

/// A session as a turn begins: Thinking, one more turn, owning the handle.
pub open spec fn started(s: SessionModel, handle: u64) -> SessionModel {
    SessionModel {
        info: InfoModel {
            id: s.info.id,
            claude_session_id: s.info.claude_session_id,
            working_dir: s.info.working_dir,
            model: s.info.model,
            status: SessionStatus::Thinking,
            created_at: s.info.created_at,
            prompt_count: if s.info.prompt_count == u32::MAX {
                u32::MAX
            } else {
                (s.info.prompt_count + 1) as u32
            },
            total_cost_micros: s.info.total_cost_micros,
        },
        config: s.config,
        active_handle: Some(handle),
    }
}

/// A session after its turn ends or is interrupted: Idle, no handle.
pub open spec fn reset_turn(s: SessionModel) -> SessionModel {
    SessionModel {
        info: InfoModel {
            id: s.info.id,
            claude_session_id: s.info.claude_session_id,
            working_dir: s.info.working_dir,
            model: s.info.model,
            status: SessionStatus::Idle,
            created_at: s.info.created_at,
            prompt_count: s.info.prompt_count,
            total_cost_micros: s.info.total_cost_micros,
        },
        config: s.config,
        active_handle: None,
    }
}

/// A session with its status overwritten.
pub open spec fn with_status(s: SessionModel, status: SessionStatus) -> SessionModel {
    SessionModel {
        info: InfoModel {
            id: s.info.id,
            claude_session_id: s.info.claude_session_id,
            working_dir: s.info.working_dir,
            model: s.info.model,
            status: status,
            created_at: s.info.created_at,
            prompt_count: s.info.prompt_count,
            total_cost_micros: s.info.total_cost_micros,
        },
        config: s.config,
        active_handle: s.active_handle,
    }
}

/// How one observed stream message changes a session: the first system
/// message's token is recorded once and never overwritten, and each
/// result's cost is added to the running total.
pub open spec fn absorb_session(s: SessionModel, msg: MessageModel) -> SessionModel {
    match msg {
        MessageModel::System { session_id: tok } => match tok {
            Some(t) => if s.info.claude_session_id is None {
                SessionModel {
                    info: InfoModel {
                        id: s.info.id,
                        claude_session_id: Some(t),
                        working_dir: s.info.working_dir,
                        model: s.info.model,
                        status: s.info.status,
                        created_at: s.info.created_at,
                        prompt_count: s.info.prompt_count,
                        total_cost_micros: s.info.total_cost_micros,
                    },
                    config: s.config,
                    active_handle: s.active_handle,
                }
            } else {
                s
            },
            None => s,
        },
        MessageModel::TurnResult { cost_micros: c, duration_ms: _ } => match c {
            Some(cost) => SessionModel {
                info: InfoModel {
                    id: s.info.id,
                    claude_session_id: s.info.claude_session_id,
                    working_dir: s.info.working_dir,
                    model: s.info.model,
                    status: s.info.status,
                    created_at: s.info.created_at,
                    prompt_count: s.info.prompt_count,
                    total_cost_micros: if s.info.total_cost_micros + cost > u64::MAX {
                        u64::MAX
                    } else {
                        (s.info.total_cost_micros + cost) as u64
                    },
                },
                config: s.config,
                active_handle: s.active_handle,
            },
            None => s,
        },
        _ => s,
    }
}

/// The registry after the reader task's end-of-stream reset for `id`:
/// unchanged when the session is gone.
pub open spec fn finished(m: Seq<SessionModel>, id: Seq<char>) -> Seq<SessionModel> {
    if contains_id(m, id) {
        m.update(idx_of(m, id), reset_turn(found(m, id)))
    } else {
        m
    }
}

/// The registry after one observed message for `id`: unchanged when the
/// session is gone.
pub open spec fn absorbed(m: Seq<SessionModel>, id: Seq<char>, msg: MessageModel) -> Seq<
    SessionModel,
> {
    if contains_id(m, id) {
        m.update(idx_of(m, id), absorb_session(found(m, id), msg))
    } else {
        m
    }
}

/// The argument vector for one spawned turn: the prompt, the structured
/// output mode, the resumption token when one is known, the model, and the
/// capability allow-list when it is non-empty.
pub open spec fn arg_list(s: SessionModel, prompt: Seq<char>) -> Seq<Seq<char>> {
    match s.info.claude_session_id {
        Some(tok) => if s.config.allowed_tools.len() > 0 {
            seq![
                "-p"@,
                prompt,
                "--output-format"@,
                "stream-json"@,
                "--resume"@,
                tok,
                "--model"@,
                s.config.model,
                "--allowedTools"@,
                comma_join(s.config.allowed_tools),
            ]
        } else {
            seq![
                "-p"@,
                prompt,
                "--output-format"@,
                "stream-json"@,
                "--resume"@,
                tok,
                "--model"@,
                s.config.model,
            ]
        },
        None => if s.config.allowed_tools.len() > 0 {
            seq![
                "-p"@,
                prompt,
                "--output-format"@,
                "stream-json"@,
                "--model"@,
                s.config.model,
                "--allowedTools"@,
                comma_join(s.config.allowed_tools),
            ]
        } else {
            seq!["-p"@, prompt, "--output-format"@, "stream-json"@, "--model"@, s.config.model]
        },
    }
}

/// The parts joined by single commas.
pub open spec fn comma_join(parts: Seq<Seq<char>>) -> Seq<char>
    decreases parts.len(),
{
    if parts.len() == 0 {
        Seq::empty()
    } else if parts.len() == 1 {
        parts[0]
    } else {
        comma_join(parts.drop_last()) + ","@ + parts.last()
    }
}

/// The handles of all live processes, in registry order.
pub open spec fn live_handles(m: Seq<SessionModel>) -> Seq<u64>
    decreases m.len(),
{
    if m.len() == 0 {
        seq![]
    } else {
        match m[0].active_handle {
            Some(h) => seq![h] + live_handles(m.drop_first()),
            None => live_handles(m.drop_first()),
        }
    }
}

/// The registry of logical sessions.
///
/// Its abstract state is the sequence of registered sessions in creation
/// order.
pub struct ProcessManager {
    sessions: Vec<Session>,
}

impl View for ProcessManager {
    type V = Seq<SessionModel>;

    closed spec fn view(&self) -> Seq<SessionModel> {
        self.sessions.deep_view()
    }
}


proof fn lemma_idx_of_props(m: Seq<SessionModel>, id: Seq<char>)
    ensures
        0 <= idx_of(m, id) <= m.len(),
        idx_of(m, id) < m.len() ==> m[idx_of(m, id)].info.id == id,
        forall|j: int| 0 <= j < idx_of(m, id) ==> m[j].info.id != id,
    decreases m.len(),
{
    if m.len() > 0 && m[0].info.id != id {
        lemma_idx_of_props(m.drop_first(), id);
        assert forall|j: int| 0 <= j < idx_of(m, id) implies m[j].info.id != id by {
            if j > 0 {
                assert(m.drop_first()[j - 1] == m[j]);
            }
        }
        if idx_of(m, id) < m.len() {
            assert(m.drop_first()[idx_of(m.drop_first(), id)] == m[idx_of(m, id)]);
        }
    }
}

/// An exec scan that stops at `k` has found the first occurrence.
proof fn lemma_idx_of_scan(m: Seq<SessionModel>, id: Seq<char>, k: int)
    requires
        0 <= k <= m.len(),
        forall|j: int| 0 <= j < k ==> m[j].info.id != id,
        k < m.len() ==> m[k].info.id == id,
    ensures
        idx_of(m, id) == k,
    decreases m.len(),
{
    if m.len() > 0 && k > 0 {
        assert(forall|j: int| 0 <= j < m.len() - 1 ==> m.drop_first()[j] == m[j + 1]);
        lemma_idx_of_scan(m.drop_first(), id, k - 1);
    }
}

/// A new id lands at the end.
pub proof fn lemma_idx_of_push(m: Seq<SessionModel>, id: Seq<char>, s: SessionModel)
    requires
        !contains_id(m, id),
        s.info.id == id,
    ensures
        idx_of(m.push(s), id) == m.len(),
        contains_id(m.push(s), id),
        found(m.push(s), id) == s,
{
    lemma_idx_of_props(m, id);
    assert(forall|j: int| 0 <= j < m.len() ==> m.push(s)[j] == m[j]);
    lemma_idx_of_scan(m.push(s), id, m.len() as int);
}

/// Updating a session without changing its id leaves every lookup index
/// as it was.
pub proof fn lemma_idx_of_update(m: Seq<SessionModel>, id: Seq<char>, k: int, s: SessionModel)
    requires
        0 <= k < m.len(),
        s.info.id == m[k].info.id,
    ensures
        idx_of(m.update(k, s), id) == idx_of(m, id),
    decreases m.len(),
{
    lemma_idx_of_props(m, id);
    lemma_idx_of_props(m.update(k, s), id);
    let i = idx_of(m, id);
    if i < m.len() {
        assert(forall|j: int| 0 <= j < m.len() ==> m.update(k, s)[j].info.id == m[j].info.id);
        lemma_idx_of_scan(m.update(k, s), id, i);
    } else {
        assert(forall|j: int| 0 <= j < m.len() ==> m.update(k, s)[j].info.id == m[j].info.id);
        lemma_idx_of_scan(m.update(k, s), id, m.len() as int);
    }
}

/// After removing the only session with an id, no session has it.
pub proof fn lemma_remove_id(m: Seq<SessionModel>, id: Seq<char>)
    requires
        distinct_ids(m),
        contains_id(m, id),
    ensures
        !contains_id(m.remove(idx_of(m, id)), id),
        forall|j: int|
            0 <= j < m.remove(idx_of(m, id)).len() ==> m.remove(idx_of(m, id))[j].info.id != id,
        distinct_ids(m.remove(idx_of(m, id))),
{
    lemma_idx_of_props(m, id);
    let k = idx_of(m, id);
    let m2 = m.remove(k);
    assert forall|j: int| 0 <= j < m2.len() implies m2[j].info.id != id by {
        if j < k {
            assert(m2[j] == m[j]);
        } else {
            assert(m2[j] == m[j + 1]);
        }
    }
    assert forall|i: int, j: int| 0 <= i < j < m2.len() implies m2[i].info.id != m2[j].info.id by {
        if j < k {
        } else if i < k {
            assert(m2[i] == m[i] && m2[j] == m[j + 1]);
        } else {
            assert(m2[i] == m[i + 1] && m2[j] == m[j + 1]);
        }
    }
    lemma_idx_of_props(m2, id);
    if contains_id(m2, id) {
        assert(false);
    }
}

/// Updating a session without changing its id preserves distinctness.
pub proof fn lemma_distinct_update(m: Seq<SessionModel>, k: int, s: SessionModel)
    requires
        distinct_ids(m),
        0 <= k < m.len(),
        s.info.id == m[k].info.id,
    ensures
        distinct_ids(m.update(k, s)),
{
    assert(forall|j: int| 0 <= j < m.len() ==> m.update(k, s)[j].info.id == m[j].info.id);
}

/// Appending a fresh id preserves distinctness.
pub proof fn lemma_distinct_push(m: Seq<SessionModel>, s: SessionModel)
    requires
        distinct_ids(m),
        !contains_id(m, s.info.id),
    ensures
        distinct_ids(m.push(s)),
{
    lemma_idx_of_props(m, s.info.id);
    assert forall|i: int, j: int|
        0 <= i < j < m.push(s).len() implies m.push(s)[i].info.id != m.push(s)[j].info.id by {
        if j < m.len() {
        } else {
            assert(m.push(s)[i] == m[i]);
            assert(m.push(s)[j] == s);
        }
    }
}


proof fn lemma_live_handles_push(t: Seq<SessionModel>, s: SessionModel)
    ensures
        live_handles(t.push(s)) == live_handles(t) + (match s.active_handle {
            Some(h) => seq![h],
            None => Seq::<u64>::empty(),
        }),
    decreases t.len(),
{
    if t.len() == 0 {
        let single = t.push(s);
        assert(single[0] == s);
        assert(single.drop_first() =~= Seq::<SessionModel>::empty());
        assert(live_handles(single.drop_first()) == Seq::<u64>::empty());
        assert(live_handles(t) == Seq::<u64>::empty());
        match s.active_handle {
            Some(h) => {
                assert(live_handles(single) == seq![h] + Seq::<u64>::empty());
                assert(seq![h] + Seq::<u64>::empty() =~= seq![h]);
                assert(Seq::<u64>::empty() + seq![h] =~= seq![h]);
            },
            None => {
                assert(live_handles(single) == Seq::<u64>::empty());
                assert(Seq::<u64>::empty() + Seq::<u64>::empty() =~= Seq::<u64>::empty());
            },
        }
    } else {
        assert(t.push(s)[0] == t[0]);
        assert(t.push(s).drop_first() =~= t.drop_first().push(s));
        lemma_live_handles_push(t.drop_first(), s);
        match t[0].active_handle {
            Some(h0) => {
                assert(seq![h0] + (live_handles(t.drop_first()) + (match s.active_handle {
                    Some(h) => seq![h],
                    None => Seq::<u64>::empty(),
                })) =~= (seq![h0] + live_handles(t.drop_first())) + (match s.active_handle {
                    Some(h) => seq![h],
                    None => Seq::<u64>::empty(),
                }));
            },
            None => {},
        }
    }
}

impl ProcessManager {
    /// Create a new, empty registry.
    pub fn new() -> (r: Self)
        ensures
            r@ == Seq::<SessionModel>::empty(),
            distinct_ids(r@),
    {
        let r = ProcessManager { sessions: Vec::new() };
        proof {
            assert(r@ =~= Seq::<SessionModel>::empty());
        }
        r
    }

    /// Index of the session with this id, scanning in creation order.
    fn find_index(&self, session_id: &str) -> (r: Option<usize>)
        ensures
            (match r {
                Some(k) => k == idx_of(self@, session_id@) && k < self@.len() && self@[
                    k as int
                ].info.id == session_id@,
                None => !contains_id(self@, session_id@),
            }),
    {
        let sid = session_id.to_owned();
        let n = self.sessions.len();
        let mut i: usize = 0;
        while i < n
            invariant
                i <= n == self.sessions@.len(),
                sid@ == session_id@,
                forall|j: int| 0 <= j < i ==> self@[j].info.id != session_id@,
            decreases n - i,
        {
            if self.sessions[i].info.id.eq(&sid) {
                proof {
                    lemma_idx_of_scan(self@, session_id@, i as int);
                }
                return Some(i);
            }
            i = i + 1;
        }
        proof {
            lemma_idx_of_scan(self@, session_id@, n as int);
        }
        None
    }

    /// Create a new logical session from what the environment reported:
    /// whether the working directory exists, the generated identifier, and
    /// the clock reading. No process is spawned.
    pub fn create_session_with(
        &mut self,
        config: SessionConfig,
        dir_ok: bool,
        id: String,
        created_at: u64,
    ) -> (r: Result<String, ProcessError>)
        ensures
            distinct_ids(old(self)@) ==> distinct_ids(final(self)@),
            !dir_ok ==> final(self)@ == old(self)@ && (r matches Err(
                ProcessError::InvalidWorkingDir(p),
            ) && p@ == config.working_dir@),
            dir_ok && contains_id(old(self)@, id@) ==> final(self)@ == old(self)@ && (r matches Err(
                ProcessError::SessionExists(e),
            ) && e@ == id@),
            dir_ok && !contains_id(old(self)@, id@) ==> (r matches Ok(rid) && rid@ == id@) && final(self)@ == old(self)@.push(fresh_session(config.deep_view(), id@, created_at)),
    {
        let ghost cm = config.deep_view();
        if !dir_ok {
            return Err(ProcessError::InvalidWorkingDir(config.working_dir));
        }
        match self.find_index(id.as_str()) {
            Some(_) => {
                return Err(ProcessError::SessionExists(id));
            },
            None => {},
        }
        let ghost before = self@;
        let info = SessionInfo {
            id: id.clone(),
            claude_session_id: None,
            working_dir: config.working_dir.clone(),
            model: config.model.clone(),
            status: SessionStatus::Idle,
            created_at: created_at,
            prompt_count: 0,
            total_cost_micros: 0,
        };
        let sess = Session { info: info, config: config, active_handle: None };
        let ghost sm = sess.deep_view();
        self.sessions.push(sess);
        proof {
            assert(sm == fresh_session(cm, id@, created_at));
            assert(self@ =~= before.push(sm));
            if distinct_ids(before) {
                lemma_distinct_push(before, sm);
            }
        }
        Ok(id)
    }

    /// Create a new logical session: checks that the configured working
    /// directory exists, generates a fresh identifier and registers the
    /// session as Idle. No process is spawned.
    pub fn create_session(&mut self, config: SessionConfig) -> (r: Result<String, ProcessError>)
        ensures
            distinct_ids(old(self)@) ==> distinct_ids(final(self)@),
            (match r {
                Ok(rid) => !contains_id(old(self)@, rid@) && exists|t: u64|
                    final(self)@ == old(self)@.push(
                        #[trigger] fresh_session(config.deep_view(), rid@, t),
                    ),
                Err(ProcessError::InvalidWorkingDir(p)) => final(self)@ == old(self)@ && p@
                    == config.working_dir@,
                Err(ProcessError::SessionExists(_)) => final(self)@ == old(self)@,
                Err(_) => false,
            }),
    {
        let dir_ok = dir_exists(config.working_dir.as_str());
        let ghost cm = config.deep_view();
        let id = fresh_session_id();
        let created_at = now_secs();
        match self.create_session_with(config, dir_ok, id, created_at) {
            Ok(rid) => {
                proof {
                    assert(self@ == old(self)@.push(fresh_session(cm, rid@, created_at)));
                }
                Ok(rid)
            },
            Err(e) => Err(e),
        }
    }

    /// Validate a prompt submission and build the argument vector for the
    /// turn's child process. The registry is not changed: the caller spawns
    /// the process and then reports it through [`Self::start_turn`].
    pub fn send_prompt(&self, session_id: &str, prompt: &str) -> (r: Result<
        Vec<String>,
        ProcessError,
    >)
        ensures
            (match r {
                Ok(args) => contains_id(self@, session_id@) && found(
                    self@,
                    session_id@,
                ).info.status != SessionStatus::Thinking && args.deep_view() == arg_list(
                    found(self@, session_id@),
                    prompt@,
                ),
                Err(ProcessError::SessionNotFound(e)) => !contains_id(self@, session_id@) && e@
                    == session_id@,
                Err(ProcessError::SessionBusy) => contains_id(self@, session_id@) && found(
                    self@,
                    session_id@,
                ).info.status == SessionStatus::Thinking,
                Err(_) => false,
            }),
    {
        let k = match self.find_index(session_id) {
            None => {
                return Err(ProcessError::SessionNotFound(session_id.to_owned()));
            },
            Some(k) => k,
        };
        if self.sessions[k].info.status == SessionStatus::Thinking {
            return Err(ProcessError::SessionBusy);
        }
        let mut args: Vec<String> = Vec::new();
        args.push(String::from_str("-p"));
        args.push(prompt.to_owned());
        args.push(String::from_str("--output-format"));
        args.push(String::from_str("stream-json"));
        match &self.sessions[k].info.claude_session_id {
            Some(tok) => {
                args.push(String::from_str("--resume"));
                args.push(tok.clone());
            },
            None => {},
        }
        args.push(String::from_str("--model"));
        args.push(self.sessions[k].config.model.clone());
        if self.sessions[k].config.allowed_tools.len() > 0 {
            args.push(String::from_str("--allowedTools"));
            args.push(join_tools(&self.sessions[k].config.allowed_tools));
        }
        proof {
            assert(args.deep_view() =~= arg_list(found(self@, session_id@), prompt@));
        }
        Ok(args)
    }

    /// Record that the turn's child process was spawned: the session turns
    /// Thinking, its turn counter advances, and it owns the handle.
    pub fn start_turn(&mut self, session_id: &str, handle: u64) -> (r: Result<(), ProcessError>)
        ensures
            distinct_ids(old(self)@) ==> distinct_ids(final(self)@),
            (match r {
                Ok(_) => contains_id(old(self)@, session_id@) && found(
                    old(self)@,
                    session_id@,
                ).info.status != SessionStatus::Thinking && final(self)@ == old(self)@.update(
                    idx_of(old(self)@, session_id@),
                    started(found(old(self)@, session_id@), handle),
                ),
                Err(ProcessError::SessionBusy) => contains_id(old(self)@, session_id@) && found(
                    old(self)@,
                    session_id@,
                ).info.status == SessionStatus::Thinking && final(self)@ == old(self)@,
                Err(ProcessError::SessionNotFound(e)) => !contains_id(old(self)@, session_id@)
                    && e@ == session_id@ && final(self)@ == old(self)@,
                Err(_) => false,
            }),
    {
        let k = match self.find_index(session_id) {
            None => {
                return Err(ProcessError::SessionNotFound(session_id.to_owned()));
            },
            Some(k) => k,
        };
        if self.sessions[k].info.status == SessionStatus::Thinking {
            return Err(ProcessError::SessionBusy);
        }
        let ghost before = self@;
        let mut info = self.sessions[k].info.clone();
        info.status = SessionStatus::Thinking;
        info.prompt_count = info.prompt_count.saturating_add(1);
        let config = self.sessions[k].config.clone();
        let sess = Session { info: info, config: config, active_handle: Some(handle) };
        let ghost sm = sess.deep_view();
        self.sessions[k] = sess;
        proof {
            assert(sm == started(before[k as int], handle));
            assert(self@ =~= before.update(k as int, sm));
            if distinct_ids(before) {
                lemma_distinct_update(before, k as int, sm);
            }
        }
        Ok(())
    }

    /// Apply one observed stream message to the session's metadata; a
    /// message for an absent session is discarded.
    pub fn absorb_message(&mut self, session_id: &str, msg: &StreamMessage)
        ensures
            final(self)@ == absorbed(old(self)@, session_id@, msg.deep_view()),
            distinct_ids(old(self)@) ==> distinct_ids(final(self)@),
    {
        let k = match self.find_index(session_id) {
            None => {
                return ;
            },
            Some(k) => k,
        };
        let ghost before = self@;
        let ghost target = absorb_session(before[k as int], msg.deep_view());
        match msg {
            StreamMessage::System { session_id: tok_opt } => {
                match tok_opt {
                    Some(tok) => {
                        if self.sessions[k].info.claude_session_id.is_none() {
                            let mut info = self.sessions[k].info.clone();
                            info.claude_session_id = Some(tok.clone());
                            let config = self.sessions[k].config.clone();
                            let handle = self.sessions[k].active_handle;
                            let sess = Session { info: info, config: config, active_handle: handle };
                            let ghost sm = sess.deep_view();
                            self.sessions[k] = sess;
                            proof {
                                assert(sm == target);
                                assert(self@ =~= before.update(k as int, target));
                            }
                        } else {
                            proof {
                                assert(target == before[k as int]);
                                assert(before.update(k as int, target) =~= before);
                            }
                        }
                    },
                    None => {
                        proof {
                            assert(target == before[k as int]);
                            assert(before.update(k as int, target) =~= before);
                        }
                    },
                }
            },
            StreamMessage::TurnResult { cost_micros: c, duration_ms: _ } => {
                match c {
                    Some(cost) => {
                        let mut info = self.sessions[k].info.clone();
                        info.total_cost_micros = info.total_cost_micros.saturating_add(*cost);
                        let config = self.sessions[k].config.clone();
                        let handle = self.sessions[k].active_handle;
                        let sess = Session { info: info, config: config, active_handle: handle };
                        let ghost sm = sess.deep_view();
                        self.sessions[k] = sess;
                        proof {
                            assert(sm == target);
                            assert(self@ =~= before.update(k as int, target));
                        }
                    },
                    None => {
                        proof {
                            assert(target == before[k as int]);
                            assert(before.update(k as int, target) =~= before);
                        }
                    },
                }
            },
            _ => {
                proof {
                    assert(target == before[k as int]);
                    assert(before.update(k as int, target) =~= before);
                }
            },
        }
        proof {
            if distinct_ids(before) {
                lemma_distinct_update(before, k as int, target);
            }
        }
    }

    /// The reader task's end-of-stream reset: back to Idle with no process.
    /// Safe to apply twice, and discarded for an absent session.
    pub fn finish_turn(&mut self, session_id: &str)
        ensures
            final(self)@ == finished(old(self)@, session_id@),
            distinct_ids(old(self)@) ==> distinct_ids(final(self)@),
    {
        let k = match self.find_index(session_id) {
            None => {
                return ;
            },
            Some(k) => k,
        };
        let ghost before = self@;
        let mut info = self.sessions[k].info.clone();
        info.status = SessionStatus::Idle;
        let config = self.sessions[k].config.clone();
        let sess = Session { info: info, config: config, active_handle: None };
        let ghost sm = sess.deep_view();
        self.sessions[k] = sess;
        proof {
            assert(sm == reset_turn(before[k as int]));
            assert(self@ =~= before.update(k as int, sm));
            if distinct_ids(before) {
                lemma_distinct_update(before, k as int, sm);
            }
        }
    }

    /// Interrupt the session's active turn: the caller must kill the
    /// returned handle. Without an active process this changes nothing.
    pub fn interrupt(&mut self, session_id: &str) -> (r: Result<Option<u64>, ProcessError>)
        ensures
            distinct_ids(old(self)@) ==> distinct_ids(final(self)@),
            (match r {
                Ok(h) => contains_id(old(self)@, session_id@) && h == found(
                    old(self)@,
                    session_id@,
                ).active_handle && (h is Some ==> final(self)@ == old(self)@.update(
                    idx_of(old(self)@, session_id@),
                    reset_turn(found(old(self)@, session_id@)),
                )) && (h is None ==> final(self)@ == old(self)@),
                Err(ProcessError::SessionNotFound(e)) => !contains_id(old(self)@, session_id@)
                    && e@ == session_id@ && final(self)@ == old(self)@,
                Err(_) => false,
            }),
    {
        let k = match self.find_index(session_id) {
            None => {
                return Err(ProcessError::SessionNotFound(session_id.to_owned()));
            },
            Some(k) => k,
        };
        let handle = self.sessions[k].active_handle;
        match handle {
            None => Ok(None),
            Some(h) => {
                let ghost before = self@;
                let mut info = self.sessions[k].info.clone();
                info.status = SessionStatus::Idle;
                let config = self.sessions[k].config.clone();
                let sess = Session { info: info, config: config, active_handle: None };
                let ghost sm = sess.deep_view();
                self.sessions[k] = sess;
                proof {
                    assert(sm == reset_turn(before[k as int]));
                    assert(self@ =~= before.update(k as int, sm));
                    if distinct_ids(before) {
                        lemma_distinct_update(before, k as int, sm);
                    }
                }
                Ok(Some(h))
            },
        }
    }

    /// Remove the session from the registry; the caller must kill the
    /// returned handle if there is one. Unknown ids are not an error.
    pub fn terminate(&mut self, session_id: &str) -> (r: Result<Option<u64>, ProcessError>)
        ensures
            distinct_ids(old(self)@) ==> distinct_ids(final(self)@),
            (match r {
                Ok(h) => (contains_id(old(self)@, session_id@) ==> h == found(
                    old(self)@,
                    session_id@,
                ).active_handle && final(self)@ == old(self)@.remove(
                    idx_of(old(self)@, session_id@),
                )) && (!contains_id(old(self)@, session_id@) ==> h is None && final(self)@ == old(self)@),
                Err(_) => false,
            }),
    {
        let k = match self.find_index(session_id) {
            None => {
                return Ok(None);
            },
            Some(k) => k,
        };
        let ghost before = self@;
        let sess = self.sessions.remove(k);
        proof {
            assert(self@ =~= before.remove(k as int));
            if distinct_ids(before) {
                lemma_remove_id(before, session_id@);
            }
        }
        Ok(sess.active_handle)
    }

    /// Whether the id names a session that has not been terminated.
    pub fn is_alive(&self, session_id: &str) -> (r: bool)
        ensures
            r == (contains_id(self@, session_id@) && found(self@, session_id@).info.status
                != SessionStatus::Terminated),
    {
        match self.find_index(session_id) {
            None => false,
            Some(k) => self.sessions[k].info.status != SessionStatus::Terminated,
        }
    }

    /// The number of registered sessions.
    pub fn active_count(&self) -> (r: usize)
        ensures
            r == self@.len(),
    {
        self.sessions.len()
    }

    /// Snapshots of all sessions, in creation order.
    pub fn get_sessions(&self) -> (r: Vec<SessionInfo>)
        ensures
            r.deep_view().len() == self@.len(),
            forall|i: int| 0 <= i < self@.len() ==> r.deep_view()[i] == self@[i].info,
    {
        let mut r: Vec<SessionInfo> = Vec::new();
        let n = self.sessions.len();
        let mut i: usize = 0;
        while i < n
            invariant
                i <= n == self.sessions@.len(),
                r.deep_view().len() == i,
                forall|j: int| 0 <= j < i ==> r.deep_view()[j] == self@[j].info,
            decreases n - i,
        {
            let ghost prev = r.deep_view();
            let snap = self.sessions[i].info.clone();
            r.push(snap);
            proof {
                assert(r.deep_view() =~= prev.push(self@[i as int].info));
            }
            i = i + 1;
        }
        r
    }

    /// Snapshot of one session.
    pub fn get_session(&self, session_id: &str) -> (r: Option<SessionInfo>)
        ensures
            (match r {
                Some(info) => contains_id(self@, session_id@) && info.deep_view() == found(
                    self@,
                    session_id@,
                ).info,
                None => !contains_id(self@, session_id@),
            }),
    {
        match self.find_index(session_id) {
            None => None,
            Some(k) => Some(self.sessions[k].info.clone()),
        }
    }

    /// Overwrite a session's status.
    pub fn set_status(&mut self, session_id: &str, status: SessionStatus) -> (r: Result<
        (),
        ProcessError,
    >)
        ensures
            distinct_ids(old(self)@) ==> distinct_ids(final(self)@),
            (match r {
                Ok(_) => contains_id(old(self)@, session_id@) && final(self)@ == old(self)@.update(
                    idx_of(old(self)@, session_id@),
                    with_status(found(old(self)@, session_id@), status),
                ),
                Err(ProcessError::SessionNotFound(e)) => !contains_id(old(self)@, session_id@)
                    && e@ == session_id@ && final(self)@ == old(self)@,
                Err(_) => false,
            }),
    {
        let k = match self.find_index(session_id) {
            None => {
                return Err(ProcessError::SessionNotFound(session_id.to_owned()));
            },
            Some(k) => k,
        };
        let ghost before = self@;
        let mut info = self.sessions[k].info.clone();
        info.status = status;
        let config = self.sessions[k].config.clone();
        let handle = self.sessions[k].active_handle;
        let sess = Session { info: info, config: config, active_handle: handle };
        let ghost sm = sess.deep_view();
        self.sessions[k] = sess;
        proof {
            assert(sm == with_status(before[k as int], status));
            assert(self@ =~= before.update(k as int, sm));
            if distinct_ids(before) {
                lemma_distinct_update(before, k as int, sm);
            }
        }
        Ok(())
    }

    /// Empty the registry; the caller must kill every returned handle.
    #[verifier::loop_isolation(false)]
    pub fn terminate_all(&mut self) -> (r: Vec<u64>)
        ensures
            final(self)@ == Seq::<SessionModel>::empty(),
            r@ == live_handles(old(self)@),
    {
        let mut handles: Vec<u64> = Vec::new();
        let n = self.sessions.len();
        let mut i: usize = 0;
        while i < n
            invariant
                i <= n,
                handles@ == live_handles(self@.take(i as int)),
            decreases n - i,
        {
            proof {
                assert(self@.take(i + 1) =~= self@.take(i as int).push(self@[i as int]));
                lemma_live_handles_push(self@.take(i as int), self@[i as int]);
            }
            match self.sessions[i].active_handle {
                Some(h) => {
                    handles.push(h);
                    proof {
                        assert(handles@ =~= live_handles(self@.take(i + 1)));
                    }
                },
                None => {
                    proof {
                        assert(live_handles(self@.take(i as int)) + Seq::<u64>::empty()
                            =~= live_handles(self@.take(i as int)));
                    }
                },
            }
            i = i + 1;
        }
        proof {
            assert(self@.take(n as int) =~= self@);
        }
        self.sessions.clear();
        proof {
            assert(self@ =~= Seq::<SessionModel>::empty());
        }
        handles
    }
}

impl Default for ProcessManager {
    /// An empty registry.
    fn default() -> (r: Self)
        ensures
            r@ == Seq::<SessionModel>::empty(),
            distinct_ids(r@),
    {
        ProcessManager::new()
    }
}

/// Joins the allow-list with commas for the argument vector.
#[verifier::loop_isolation(false)]
fn join_tools(tools: &Vec<String>) -> (r: String)
    ensures
        r@ == comma_join(tools.deep_view()),
{
    let mut out = String::new();
    let n = tools.len();
    let mut i: usize = 0;
    while i < n
        invariant
            i <= n,
            out@ == comma_join(tools.deep_view().take(i as int)),
        decreases n - i,
    {
        proof {
            lemma_comma_join_step(tools.deep_view(), i as int);
        }
        if i > 0 {
            out.append(",");
        }
        out.append(tools[i].as_str());
        proof {
            if i == 0 {
                assert(Seq::<char>::empty() + tools.deep_view()[0] =~= tools.deep_view()[0]);
            }
        }
        i = i + 1;
    }
    proof {
        assert(tools.deep_view().take(n as int) =~= tools.deep_view());
    }
    out
}

proof fn lemma_comma_join_step(t: Seq<Seq<char>>, i: int)
    requires
        0 <= i < t.len(),
    ensures
        comma_join(t.take(i + 1)) == if i == 0 {
            t[0]
        } else {
            comma_join(t.take(i)) + ","@ + t[i]
        },
{
    assert(t.take(i + 1).drop_last() =~= t.take(i));
    assert(t.take(i + 1).last() == t[i]);
    if i == 0 {
        assert(t.take(1)[0] == t[0]);
    }
}

/// The model used when a configuration names none.
pub fn default_model() -> (r: String)
    ensures
        r@ == "sonnet"@,
{
    String::from_str("sonnet")
}

/// Relies on `std::path::Path::exists`: whether the path names an entry on
/// the machine's filesystem. The answer depends on the disk, so nothing
/// functional is claimed of it; callers branch on every outcome.
#[verifier::external_body]
fn dir_exists(path: &str) -> bool {
    std::path::Path::new(path).exists()
}

/// Relies on `uuid::Uuid::new_v4`: a freshly generated random identifier,
/// rendered in its hyphenated text form. Randomness admits no functional
/// contract; the caller checks the registry for collisions.
#[verifier::external_body]
fn fresh_session_id() -> String {
    uuid::Uuid::new_v4().to_string()
}

/// Relies on `std::time::SystemTime::now`: seconds since the Unix epoch,
/// zero if the clock reads earlier than the epoch. The clock admits no
/// functional contract.
#[verifier::external_body]
fn now_secs() -> u64 {
    match std::time::SystemTime::now().duration_since(std::time::UNIX_EPOCH) {
        Ok(d) => d.as_secs(),
        Err(_) => 0,
    }
}


/// A session just created is present, Idle, with a zero turn count, zero
/// accumulated cost, no resumption token and no process.
pub proof fn lemma_created_session_state(
    m: Seq<SessionModel>,
    config: ConfigModel,
    id: Seq<char>,
    created_at: u64,
)
    requires
        !contains_id(m, id),
    ensures
        contains_id(m.push(fresh_session(config, id, created_at)), id),
        found(m.push(fresh_session(config, id, created_at)), id) == fresh_session(
            config,
            id,
            created_at,
        ),
        found(m.push(fresh_session(config, id, created_at)), id).info.status
            == SessionStatus::Idle,
        found(m.push(fresh_session(config, id, created_at)), id).info.prompt_count == 0,
        found(m.push(fresh_session(config, id, created_at)), id).info.total_cost_micros == 0,
        found(m.push(fresh_session(config, id, created_at)), id).info.claude_session_id is None,
        found(m.push(fresh_session(config, id, created_at)), id).active_handle is None,
{
    lemma_idx_of_push(m, id, fresh_session(config, id, created_at));
}

/// Once a turn has started, the session reads as Thinking, so a second
/// submission before the first completes is rejected as busy
/// ([`ProcessManager::send_prompt`] returns `SessionBusy` exactly on
/// Thinking sessions).
pub proof fn lemma_second_prompt_busy(m: Seq<SessionModel>, id: Seq<char>, handle: u64)
    requires
        contains_id(m, id),
    ensures
        contains_id(m.update(idx_of(m, id), started(found(m, id), handle)), id),
        found(m.update(idx_of(m, id), started(found(m, id), handle)), id).info.status
            == SessionStatus::Thinking,
{
    lemma_idx_of_props(m, id);
    lemma_idx_of_update(m, id, idx_of(m, id), started(found(m, id), handle));
}

/// After termination the id names nothing: it is absent from every
/// remaining session, so `is_alive` reads false and no snapshot lists it.
pub proof fn lemma_terminated_absent(m: Seq<SessionModel>, id: Seq<char>)
    requires
        distinct_ids(m),
        contains_id(m, id),
    ensures
        !contains_id(m.remove(idx_of(m, id)), id),
        forall|j: int|
            0 <= j < m.remove(idx_of(m, id)).len() ==> m.remove(idx_of(m, id))[j].info.id != id,
{
    lemma_remove_id(m, id);
}

/// The idle reset is idempotent: the interrupt path and the reader task's
/// end-of-stream path may race to apply it, and the second application
/// changes nothing.
pub proof fn lemma_reset_idempotent(m: Seq<SessionModel>, id: Seq<char>)
    ensures
        finished(finished(m, id), id) == finished(m, id),
{
    if contains_id(m, id) {
        lemma_idx_of_props(m, id);
        let k = idx_of(m, id);
        let s = reset_turn(found(m, id));
        let m2 = m.update(k, s);
        lemma_idx_of_update(m, id, k, s);
        assert(found(m2, id) == s);
        assert(reset_turn(s) == s);
        assert(m2.update(k, s) =~= m2);
    }
}

/// Observed messages only ever add to the accumulated cost, and the first
/// recorded resumption token is never overwritten.
pub proof fn lemma_absorb_monotone(s: SessionModel, msg: MessageModel)
    ensures
        absorb_session(s, msg).info.total_cost_micros >= s.info.total_cost_micros,
        s.info.claude_session_id matches Some(t) ==> absorb_session(
            s,
            msg,
        ).info.claude_session_id == Some(t),
{
}

} // verus!
