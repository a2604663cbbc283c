use vstd::prelude::*;

use crate::error::ShellTunnelError;

verus! {

/// Lifecycle state of a session.
#[derive(Debug, Clone, Copy, PartialEq, Eq, Structural)]
pub enum SessionState {
    Created,
    Active,
    Idle,
    Terminated,
}

/// The legal transition graph: Created -> Active <-> Idle, and Active or Idle -> Terminated.
pub open spec fn legal_transition(from: SessionState, to: SessionState) -> bool {
    match (from, to) {
        (SessionState::Created, SessionState::Active) => true,
        (SessionState::Active, SessionState::Idle) => true,
        (SessionState::Active, SessionState::Terminated) => true,
        (SessionState::Idle, SessionState::Active) => true,
        (SessionState::Idle, SessionState::Terminated) => true,
        _ => false,
    }
}

/// The variant name of a state, as it appears on the wire.
pub open spec fn state_name(s: SessionState) -> Seq<char> {
    match s {
        SessionState::Created => "Created"@,
        SessionState::Active => "Active"@,
        SessionState::Idle => "Idle"@,
        SessionState::Terminated => "Terminated"@,
    }
}

impl SessionState {
    pub open spec fn can_execute_spec(&self) -> bool {
        *self == SessionState::Active || *self == SessionState::Idle
    }

    pub fn can_transition_to(&self, target: SessionState) -> (r: bool)
        ensures
            r == legal_transition(*self, target),
    {
        match (*self, target) {
            (SessionState::Created, SessionState::Active) => true,
            (SessionState::Active, SessionState::Idle) => true,
            (SessionState::Active, SessionState::Terminated) => true,
            (SessionState::Idle, SessionState::Active) => true,
            (SessionState::Idle, SessionState::Terminated) => true,
            _ => false,
        }
    }

    /// Moves to `target` when the graph allows it; otherwise fails and keeps the state.
    pub fn transition_to(&mut self, target: SessionState) -> (r: Result<(), ShellTunnelError>)
        ensures
            r is Ok <==> legal_transition(*old(self), target),
            r is Ok ==> *final(self) == target,
            r is Err ==> *final(self) == *old(self),
            r is Err ==> r == Err::<(), ShellTunnelError>(
                ShellTunnelError::InvalidStateTransition { from: *old(self), to: target },
            ),
    {
        if self.can_transition_to(target) {
            *self = target;
            Ok(())
        } else {
            Err(ShellTunnelError::InvalidStateTransition { from: *self, to: target })
        }
    }

    pub fn is_terminal(&self) -> (r: bool)
        ensures
            r == (*self == SessionState::Terminated),
    {
        match self {
            SessionState::Terminated => true,
            _ => false,
        }
    }

    pub fn can_execute(&self) -> (r: bool)
        ensures
            r == (*self == SessionState::Active || *self == SessionState::Idle),
    {
        match self {
            SessionState::Active | SessionState::Idle => true,
            _ => false,
        }
    }

    /// The variant name, as serialized on the wire.
    pub fn name(&self) -> (r: String)
        ensures
            r@ == state_name(*self),
    {
        match self {
            SessionState::Created => String::from_str("Created"),
            SessionState::Active => String::from_str("Active"),
            SessionState::Idle => String::from_str("Idle"),
            SessionState::Terminated => String::from_str("Terminated"),
        }
    }
}

impl Default for SessionState {
    fn default() -> (r: SessionState)
        ensures
            r == SessionState::Created,
    {
        SessionState::Created
    }
}

/// Every legal transition succeeds and lands on its target; every other one fails
/// with `InvalidStateTransition` and leaves the state as it was.
pub proof fn lemma_transition_table(from: SessionState, to: SessionState)
    ensures
        legal_transition(from, to) <==> (
            (from == SessionState::Created && to == SessionState::Active)
            || (from == SessionState::Active && to == SessionState::Idle)
            || (from == SessionState::Idle && to == SessionState::Active)
            || (from == SessionState::Active && to == SessionState::Terminated)
            || (from == SessionState::Idle && to == SessionState::Terminated)
        ),
        from == SessionState::Terminated ==> !legal_transition(from, to),
        !legal_transition(from, from),
{
}

} // verus!
