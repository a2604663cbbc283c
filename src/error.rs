use vstd::prelude::*;

use crate::state::{state_name, SessionState};
use crate::text::concat_str;

verus! {

/// The error kinds shared by the whole library.
#[derive(Debug, Clone)]
pub enum ShellTunnelError {
    SessionNotFound(String),
    SessionExists(String),
    InvalidStateTransition { from: SessionState, to: SessionState },
    Pty(String),
    Io(String),
    Timeout,
    SessionTerminated,
    LockPoisoned,
    ChannelSend(String),
    ChannelClosed,
    ExecutionFailed(String),
    ParseError(String),
    NotExecutable(SessionState),
    Update(String),
}

/// The HTTP status that an error kind maps to.
pub open spec fn status_of(e: ShellTunnelError) -> u16 {
    match e {
        ShellTunnelError::SessionNotFound(_) => 404,
        ShellTunnelError::SessionExists(_) => 409,
        ShellTunnelError::NotExecutable(_) => 409,
        ShellTunnelError::InvalidStateTransition { .. } => 409,
        _ => 500,
    }
}

/// The wire code that an error kind maps to.
pub open spec fn code_of(e: ShellTunnelError) -> Seq<char> {
    match e {
        ShellTunnelError::SessionNotFound(_) => "SESSION_NOT_FOUND"@,
        ShellTunnelError::NotExecutable(_) => "INVALID_STATE"@,
        ShellTunnelError::InvalidStateTransition { .. } => "INVALID_STATE"@,
        ShellTunnelError::ParseError(_) => "PARSE_ERROR"@,
        _ => "INTERNAL_ERROR"@,
    }
}

/// The human-readable message of an error.
pub open spec fn message_of(e: ShellTunnelError) -> Seq<char> {
    match e {
        ShellTunnelError::SessionNotFound(s) => "session not found: "@ + s@,
        ShellTunnelError::SessionExists(s) => "session already exists: "@ + s@,
        ShellTunnelError::InvalidStateTransition { from, to } =>
            "invalid state transition from "@ + state_name(from) + " to "@ + state_name(to),
        ShellTunnelError::Pty(s) => "PTY error: "@ + s@,
        ShellTunnelError::Io(s) => "I/O error: "@ + s@,
        ShellTunnelError::Timeout => "command execution timeout"@,
        ShellTunnelError::SessionTerminated => "session terminated"@,
        ShellTunnelError::LockPoisoned => "internal lock poisoned"@,
        ShellTunnelError::ChannelSend(s) => "channel send error: "@ + s@,
        ShellTunnelError::ChannelClosed => "channel closed"@,
        ShellTunnelError::ExecutionFailed(s) => "command execution failed: "@ + s@,
        ShellTunnelError::ParseError(s) => "output parse error: "@ + s@,
        ShellTunnelError::NotExecutable(st) =>
            "session not executable: current state is "@ + state_name(st),
        ShellTunnelError::Update(s) => "update error: "@ + s@,
    }
}

impl ShellTunnelError {
    /// The HTTP status for this error.
    pub fn status_code(&self) -> (r: u16)
        ensures
            r == status_of(*self),
    {
        match self {
            ShellTunnelError::SessionNotFound(_) => 404,
            ShellTunnelError::SessionExists(_) => 409,
            ShellTunnelError::NotExecutable(_) => 409,
            ShellTunnelError::InvalidStateTransition { .. } => 409,
            _ => 500,
        }
    }

    /// The wire code for this error.
    pub fn code(&self) -> (r: String)
        ensures
            r@ == code_of(*self),
    {
        match self {
            ShellTunnelError::SessionNotFound(_) => String::from_str("SESSION_NOT_FOUND"),
            ShellTunnelError::NotExecutable(_) => String::from_str("INVALID_STATE"),
            ShellTunnelError::InvalidStateTransition { .. } => String::from_str("INVALID_STATE"),
            ShellTunnelError::ParseError(_) => String::from_str("PARSE_ERROR"),
            _ => String::from_str("INTERNAL_ERROR"),
        }
    }

    /// The message of this error.
    pub fn to_string(&self) -> (r: String)
        ensures
            r@ == message_of(*self),
    {
        match self {
            ShellTunnelError::SessionNotFound(s) => concat_str("session not found: ", s.as_str()),
            ShellTunnelError::SessionExists(s) => concat_str("session already exists: ", s.as_str()),
            ShellTunnelError::InvalidStateTransition { from, to } => {
                let a = concat_str("invalid state transition from ", from.name().as_str());
                let b = concat_str(a.as_str(), " to ");
                concat_str(b.as_str(), to.name().as_str())
            },
            ShellTunnelError::Pty(s) => concat_str("PTY error: ", s.as_str()),
            ShellTunnelError::Io(s) => concat_str("I/O error: ", s.as_str()),
            ShellTunnelError::Timeout => String::from_str("command execution timeout"),
            ShellTunnelError::SessionTerminated => String::from_str("session terminated"),
            ShellTunnelError::LockPoisoned => String::from_str("internal lock poisoned"),
            ShellTunnelError::ChannelSend(s) => concat_str("channel send error: ", s.as_str()),
            ShellTunnelError::ChannelClosed => String::from_str("channel closed"),
            ShellTunnelError::ExecutionFailed(s) => concat_str("command execution failed: ", s.as_str()),
            ShellTunnelError::ParseError(s) => concat_str("output parse error: ", s.as_str()),
            ShellTunnelError::NotExecutable(st) =>
                concat_str("session not executable: current state is ", st.name().as_str()),
            ShellTunnelError::Update(s) => concat_str("update error: ", s.as_str()),
        }
    }
}

} // verus!
