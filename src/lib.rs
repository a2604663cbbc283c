//! Sessions, admission, and output handling for a gateway that runs commands in
//! pseudo-terminal sessions.
//!
//! The library holds the decisions: session identities and their lifecycle, the
//! session registry, credential checks, the sliding-window rate limiter, command
//! validation, the terminal-output sanitizer, and the read loop of an execution.
//! The terminal, the network, and the clock are driven from outside.

use vstd::prelude::*;

pub mod api;
pub mod auth;
pub mod config;
pub mod context;
pub mod env;
pub mod error;
pub mod execution;
pub mod id;
pub mod pty;
pub mod rate_limit;
pub mod sanitizer;
pub mod screen;
pub mod state;
pub mod store;
pub mod text;
pub mod validation;
pub mod version;

pub use api::{
    AppState, CreateSessionRequest, CreateSessionResponse, ErrorResponse, ExecuteCommandRequest,
    ExecuteCommandResponse, SecurityConfig, ServerConfig, WsMessage, WsReply,
};
pub use auth::{generate_api_key, ApiKeyStore, AuthConfig};
pub use config::{AuthSection, Config, LoggingSection, RateLimitSection, SecuritySection, ServerSection};
pub use context::{SessionContext, StateProbe};
pub use env::EnvVars;
pub use error::ShellTunnelError;
pub use execution::{
    Command, CommandBuilder, CommandExecutor, ExecutionLoop, ExecutionResult, LoopAction,
    OutputChunk, OutputSource, ReadEvent, DEFAULT_TIMEOUT_MS,
};
pub use id::{IdCounter, SessionId};
pub use pty::PtySize;
pub use rate_limit::{RateLimitConfig, RateLimitStats, RateLimiter};
pub use sanitizer::OutputSanitizer;
pub use state::SessionState;
pub use store::{Session, SessionConfig, SessionStore};
pub use validation::{
    looks_like_injection, sanitize_for_display, CommandValidator, ValidationConfig,
    ValidationError,
};
pub use version::{is_newer_version, UpdateInfo};

verus! {

/// Result type of the library.
pub type Result<T> = core::result::Result<T, ShellTunnelError>;

} // verus!
