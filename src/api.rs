use vstd::prelude::*;

use crate::auth::AuthConfig;
use crate::env::EnvVars;
use crate::error::{code_of, message_of, ShellTunnelError};
use crate::execution::{CommandExecutor, ExecutionResult, DEFAULT_TIMEOUT_MS};
use crate::id::{canonical_id, SessionId};
use crate::rate_limit::RateLimitConfig;
use crate::state::{state_name, SessionState};
use crate::store::{Session, SessionConfig, SessionStore};
use crate::text::{concat_str, decimal, decimal_chars, lossy_string, string_from_chars, utf8_lossy};

verus! {

/// Body of a session-creation request.
#[derive(Debug)]
pub struct CreateSessionRequest {
    pub shell: Option<String>,
    pub working_dir: Option<String>,
    pub env: EnvVars,
}

/// Answer to a session creation: the raw id and its canonical text.
#[derive(Debug, Clone)]
pub struct CreateSessionResponse {
    pub session_id: u64,
    pub session_id_str: String,
}

impl CreateSessionResponse {
    pub fn new(id: SessionId) -> (r: CreateSessionResponse)
        ensures
            r.session_id == id.0,
            r.session_id_str@ == canonical_id(id.0),
    {
        CreateSessionResponse { session_id: id.as_u64(), session_id_str: id.to_string() }
    }
}

/// A timeout in seconds as milliseconds, saturating at the largest value.
pub open spec fn secs_to_ms(s: Option<u64>) -> Option<u64> {
    match s {
        Some(x) => Some(if x <= u64::MAX / 1000 { (x * 1000) as u64 } else { u64::MAX }),
        None => None,
    }
}

fn secs_to_ms_exec(s: Option<u64>) -> (r: Option<u64>)
    ensures
        r == secs_to_ms(s),
{
    match s {
        Some(x) => if x <= u64::MAX / 1000 {
            Some(x * 1000)
        } else {
            Some(u64::MAX)
        },
        None => None,
    }
}

/// Body of an execution request; the timeout is in seconds.
#[derive(Debug)]
pub struct ExecuteCommandRequest {
    pub command: String,
    pub working_dir: Option<String>,
    pub env: EnvVars,
    pub timeout_secs: Option<u64>,
}

impl ExecuteCommandRequest {
    /// The requested timeout in milliseconds (saturating).
    pub fn timeout(&self) -> (r: Option<u64>)
        ensures
            r == secs_to_ms(self.timeout_secs),
    {
        secs_to_ms_exec(self.timeout_secs)
    }
}

/// Answer to an execution request.
#[derive(Debug, Clone)]
pub struct ExecuteCommandResponse {
    pub success: bool,
    pub exit_code: Option<i32>,
    pub output: String,
    pub raw_output: Option<String>,
    pub duration_ms: u64,
    pub timed_out: bool,
}

impl ExecuteCommandResponse {
    /// `success` holds exactly when the exit code is 0 and the command did not time out.
    pub fn from_result(result: &ExecutionResult) -> (r: ExecuteCommandResponse)
        ensures
            r.success == (result.exit_code == Some(0i32) && !result.timed_out),
            r.exit_code == result.exit_code,
            r.output@ == result.text_output@,
            r.raw_output is None,
            r.duration_ms == result.duration_ms,
            r.timed_out == result.timed_out,
    {
        let ok = match result.exit_code {
            Some(c) => c == 0,
            None => false,
        };
        ExecuteCommandResponse {
            success: ok && !result.timed_out,
            exit_code: result.exit_code,
            output: result.text_output.clone(),
            raw_output: None,
            duration_ms: result.duration_ms,
            timed_out: result.timed_out,
        }
    }

    /// Adds the raw output as text when asked to.
    pub fn with_raw_output(self, wanted: bool, raw: &[u8]) -> (r: ExecuteCommandResponse)
        ensures
            wanted ==> r.raw_output is Some && r.raw_output->0@ == utf8_lossy(raw@),
            !wanted ==> r.raw_output == self.raw_output,
            r.success == self.success,
            r.exit_code == self.exit_code,
            r.output == self.output,
            r.duration_ms == self.duration_ms,
            r.timed_out == self.timed_out,
    {
        if wanted {
            ExecuteCommandResponse { raw_output: Some(lossy_string(raw)), ..self }
        } else {
            self
        }
    }
}

/// An error body: `{code, message, details?}`.
#[derive(Debug, Clone)]
pub struct ErrorResponse {
    pub code: String,
    pub message: String,
    pub details: Option<String>,
}

impl ErrorResponse {
    pub fn new(code: &str, message: &str) -> (r: ErrorResponse)
        ensures
            r.code@ == code@,
            r.message@ == message@,
            r.details is None,
    {
        ErrorResponse { code: String::from_str(code), message: String::from_str(message), details: None }
    }

    pub fn with_details(self, details: &str) -> (r: ErrorResponse)
        ensures
            r.code == self.code,
            r.message == self.message,
            r.details is Some && r.details->0@ == details@,
    {
        ErrorResponse { details: Some(String::from_str(details)), ..self }
    }

    pub fn session_not_found(id: &str) -> (r: ErrorResponse)
        ensures
            r.code@ == "SESSION_NOT_FOUND"@,
            r.message@ == "Session '"@ + id@ + "' not found"@,
            r.details is None,
    {
        let a = concat_str("Session '", id);
        let m = concat_str(a.as_str(), "' not found");
        ErrorResponse::new("SESSION_NOT_FOUND", m.as_str())
    }

    pub fn invalid_state(state: SessionState) -> (r: ErrorResponse)
        ensures
            r.code@ == "INVALID_STATE"@,
            r.message@ == "Session is in "@ + state_name(state) + " state and cannot execute commands"@,
            r.details is None,
    {
        let a = concat_str("Session is in ", state.name().as_str());
        let m = concat_str(a.as_str(), " state and cannot execute commands");
        ErrorResponse::new("INVALID_STATE", m.as_str())
    }

    pub fn internal_error(message: &str) -> (r: ErrorResponse)
        ensures
            r.code@ == "INTERNAL_ERROR"@,
            r.message@ == message@,
            r.details is None,
    {
        ErrorResponse::new("INTERNAL_ERROR", message)
    }

    pub fn bad_request(message: &str) -> (r: ErrorResponse)
        ensures
            r.code@ == "BAD_REQUEST"@,
            r.message@ == message@,
            r.details is None,
    {
        ErrorResponse::new("BAD_REQUEST", message)
    }

    /// The body for an error of the library: its wire code and message.
    pub fn from_error(e: &ShellTunnelError) -> (r: ErrorResponse)
        ensures
            r.code@ == code_of(*e),
            r.message@ == message_of(*e),
            r.details is None,
    {
        let code = e.code();
        let message = e.to_string();
        ErrorResponse { code, message, details: None }
    }
}

/// The frames of the WebSocket protocol.
#[derive(Debug, Clone)]
pub enum WsMessage {
    Execute { command: String, timeout_secs: Option<u64> },
    Output { data: String, is_final: bool },
    Result { success: bool, exit_code: Option<i32>, duration_ms: u64, timed_out: bool },
    Error { code: String, message: String },
    Ping,
    Pong,
}

/// What the server does with a frame from a client.
#[derive(Debug)]
pub enum WsReply {
    /// Run the command (timeout in milliseconds, if given) and stream its output.
    Run { command: String, timeout_ms: Option<u64> },
    /// Answer with this frame.
    Send(WsMessage),
    /// Do nothing.
    Ignore,
}

impl WsMessage {
    /// `execute` runs, `ping` is answered by `pong`, anything else is ignored.
    pub fn reply(self) -> (r: WsReply)
        ensures
            self is Ping ==> r matches WsReply::Send(WsMessage::Pong),
            self is Execute ==> (r matches WsReply::Run { command, timeout_ms }
                && command == self->Execute_command && timeout_ms == secs_to_ms(self->Execute_timeout_secs)),
            !(self is Ping) && !(self is Execute) ==> r is Ignore,
    {
        match self {
            WsMessage::Execute { command, timeout_secs } => WsReply::Run {
                command,
                timeout_ms: secs_to_ms_exec(timeout_secs),
            },
            WsMessage::Ping => WsReply::Send(WsMessage::Pong),
            _ => WsReply::Ignore,
        }
    }

    /// The chunk frame for streamed output.
    pub fn output(data: String) -> (r: WsMessage)
        ensures
            r matches WsMessage::Output { data: d, is_final } && d == data && !is_final,
    {
        WsMessage::Output { data, is_final: false }
    }

    /// The closing frame of an execution.
    pub fn result_of(result: &ExecutionResult) -> (r: WsMessage)
        ensures
            r matches WsMessage::Result { success, exit_code, duration_ms, timed_out }
                && success == (result.exit_code == Some(0i32) && !result.timed_out)
                && exit_code == result.exit_code && duration_ms == result.duration_ms
                && timed_out == result.timed_out,
    {
        let ok = match result.exit_code {
            Some(c) => c == 0,
            None => false,
        };
        WsMessage::Result {
            success: ok && !result.timed_out,
            exit_code: result.exit_code,
            duration_ms: result.duration_ms,
            timed_out: result.timed_out,
        }
    }

    /// An error frame.
    pub fn error(code: &str, message: &str) -> (r: WsMessage)
        ensures
            r matches WsMessage::Error { code: c, message: m } && c@ == code@ && m@ == message@,
    {
        WsMessage::Error { code: String::from_str(code), message: String::from_str(message) }
    }
}

/// Security settings of the server: authentication, rate limiting, and initial keys.
#[derive(Debug, Clone)]
pub struct SecurityConfig {
    pub auth: AuthConfig,
    pub rate_limit: RateLimitConfig,
    pub api_keys: Vec<String>,
}

impl SecurityConfig {
    /// Authentication off, default rate limit, no keys.
    pub fn new() -> (r: SecurityConfig)
        ensures
            !r.auth.enabled,
            r.rate_limit.enabled,
            r.rate_limit.max_requests == 100,
            r.api_keys@.len() == 0,
    {
        SecurityConfig { auth: AuthConfig::disabled(), rate_limit: RateLimitConfig::new(), api_keys: Vec::new() }
    }

    /// Authentication on, default rate limit, no keys yet.
    pub fn secure() -> (r: SecurityConfig)
        ensures
            r.auth.enabled,
            r.auth.prefix@ == "Bearer "@,
            r.rate_limit.enabled,
            r.rate_limit.max_requests == 100,
            r.api_keys@.len() == 0,
    {
        SecurityConfig { auth: AuthConfig::new(), rate_limit: RateLimitConfig::new(), api_keys: Vec::new() }
    }

    /// Authentication off, relaxed rate limit.
    pub fn development() -> (r: SecurityConfig)
        ensures
            !r.auth.enabled,
            r.rate_limit.max_requests == 1000,
            r.api_keys@.len() == 0,
    {
        SecurityConfig { auth: AuthConfig::disabled(), rate_limit: RateLimitConfig::relaxed(), api_keys: Vec::new() }
    }

    /// One more initial key.
    pub fn with_api_key(self, key: &str) -> (r: SecurityConfig)
        ensures
            r.api_keys@.len() == self.api_keys@.len() + 1,
            r.api_keys@.last()@ == key@,
            forall|i: int| 0 <= i < self.api_keys@.len() ==> r.api_keys@[i] == self.api_keys@[i],
            r.auth.enabled == self.auth.enabled,
    {
        let mut s = self;
        s.api_keys.push(String::from_str(key));
        s
    }
}

impl Default for SecurityConfig {
    fn default() -> (r: SecurityConfig)
        ensures
            !r.auth.enabled,
            r.rate_limit.enabled,
            r.api_keys@.len() == 0,
    {
        SecurityConfig::new()
    }
}

/// Where the server listens, and how.
#[derive(Debug, Clone)]
pub struct ServerConfig {
    pub host: String,
    pub port: u16,
    pub security: SecurityConfig,
    pub graceful_shutdown: bool,
}

impl ServerConfig {
    pub fn new(host: &str, port: u16) -> (r: ServerConfig)
        ensures
            r.host@ == host@,
            r.port == port,
            !r.security.auth.enabled,
            r.graceful_shutdown,
    {
        ServerConfig { host: String::from_str(host), port, security: SecurityConfig::new(), graceful_shutdown: true }
    }

    /// `host:port`.
    pub fn bind_address(&self) -> (r: String)
        ensures
            r@ == self.host@ + ":"@ + decimal(self.port as nat),
    {
        let a = concat_str(self.host.as_str(), ":");
        let p = string_from_chars(decimal_chars(self.port as u64));
        concat_str(a.as_str(), p.as_str())
    }

    pub fn with_security(self, security: SecurityConfig) -> (r: ServerConfig)
        ensures
            r.security == security,
            r.host == self.host,
            r.port == self.port,
            r.graceful_shutdown == self.graceful_shutdown,
    {
        ServerConfig { security, ..self }
    }

    pub fn without_graceful_shutdown(self) -> (r: ServerConfig)
        ensures
            !r.graceful_shutdown,
            r.host == self.host,
            r.port == self.port,
            r.security == self.security,
    {
        ServerConfig { graceful_shutdown: false, ..self }
    }
}

impl Default for ServerConfig {
    fn default() -> (r: ServerConfig)
        ensures
            r.host@ == "127.0.0.1"@,
            r.port == 3000,
            !r.security.auth.enabled,
            r.graceful_shutdown,
    {
        ServerConfig::new("127.0.0.1", 3000)
    }
}

/// The state the request handlers share: the registry and the executor settings.
#[derive(Debug)]
pub struct AppState {
    pub store: SessionStore,
    pub executor: CommandExecutor,
}

impl AppState {
    pub fn new() -> (r: AppState)
        ensures
            r.store.wf(),
            r.store@ == Map::<u64, Session>::empty(),
            r.executor.default_timeout_ms == DEFAULT_TIMEOUT_MS,
    {
        AppState { store: SessionStore::new(), executor: CommandExecutor::new() }
    }

    /// Registers a session and makes it ready to execute: it ends `Idle`.
    pub fn open_session(&mut self, config: SessionConfig) -> (r: Result<SessionId, ShellTunnelError>)
        requires
            old(self).store.wf(),
        ensures
            final(self).store.wf(),
            r is Ok ==> !old(self).store@.contains_key(r->Ok_0.0),
            r is Ok ==> final(self).store@.dom() == old(self).store@.dom().insert(r->Ok_0.0),
            r is Ok ==> final(self).store@[r->Ok_0.0].state == SessionState::Idle,
            r is Ok ==> forall|k: u64| old(self).store@.contains_key(k) ==> final(self).store@[k] == old(self).store@[k],
            r is Ok ==> r->Ok_0.0 == old(self).store.next_raw(),
            r is Ok ==> final(self).store.next_raw() == old(self).store.next_raw() + 1,
            r is Ok ==> final(self).store@.len() == old(self).store@.len() + 1,
            r is Err ==> final(self).store@ == old(self).store@,
            r is Err ==> final(self).store.next_raw() == old(self).store.next_raw(),
            r is Err <==> old(self).store.next_raw() == u64::MAX,
    {
        let id = self.store.create(config)?;
        let ghost s1 = self.store@;
        let _ = self.store.update(&id, |s: Session| -> (t: Session)
            ensures
                s.state == SessionState::Created ==> t.state == SessionState::Idle,
            {
                let mut t = s;
                let _ = t.state.transition_to(SessionState::Active);
                let _ = t.state.transition_to(SessionState::Idle);
                t
            });
        proof {
            assert(s1.contains_key(id.0));
            assert(s1[id.0].state == SessionState::Created);
        }
        Ok(id)
    }

    /// Terminates and removes a session; `SessionNotFound` when it is not registered.
    pub fn close_session(&mut self, id: &SessionId) -> (r: Result<(), ShellTunnelError>)
        requires
            old(self).store.wf(),
        ensures
            final(self).store.wf(),
            r is Ok <==> old(self).store@.contains_key(id.0),
            r is Err ==> r->Err_0 is SessionNotFound && final(self).store@ == old(self).store@,
            r is Ok ==> final(self).store@ == old(self).store@.remove(id.0),
            r is Ok ==> final(self).store@.len() == old(self).store@.len() - 1,
            final(self).store@.dom().finite(),
            final(self).store.next_raw() == old(self).store.next_raw(),
    {
        proof {
            self.store.lemma_finite();
        }
        self.store.update(id, |s: Session| -> (t: Session)
            ensures
                t.id == s.id,
            {
                let mut t = s;
                let _ = t.state.transition_to(SessionState::Terminated);
                t
            })?;
        let _ = self.store.remove(id);
        proof {
            old(self).store.lemma_finite();
            assert(self.store@ =~= old(self).store@.remove(id.0));
        }
        Ok(())
    }
}

} // verus!
