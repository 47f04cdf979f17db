//! The lifecycle of one launcher session: the catalog is ready, rankings
//! re-run while the user types, a selection dispatches, and the session ends
//! after a successful dispatch, a fatal system-action failure, or an
//! explicit cancellation. A recoverable dispatch failure leaves the session
//! running so the user can retry or pick another entry.

use vstd::prelude::*;

verus! {

/// Where a session stands.
#[derive(Clone, Copy, Debug, PartialEq, Eq, Structural)]
pub enum SessionState {
    /// The catalog is built; nothing has been typed yet.
    Idle,
    /// Rankings re-run on every keystroke.
    Querying,
    /// A selected entry is being executed.
    Dispatching,
    /// The session is over; no further transition leaves this state.
    Terminated,
}

/// What the surrounding event loop reports to the session.
#[derive(Clone, Copy, Debug, PartialEq, Eq, Structural)]
pub enum SessionEvent {
    /// The query text changed.
    QueryChanged,
    /// An entry was selected.
    Selected,
    /// The user cancelled the session.
    Cancelled,
    /// The dispatched action was carried out.
    DispatchSucceeded,
    /// The dispatch failed recoverably (an application failed to spawn).
    DispatchFailedRecoverably,
    /// The dispatch failed fatally (a system action failed).
    DispatchFailedFatally,
}

/// The transition table of the session. Events that do not apply to a state
/// leave it unchanged.
pub open spec fn spec_session_step(s: SessionState, e: SessionEvent) -> SessionState {
    match (s, e) {
        (SessionState::Idle, SessionEvent::QueryChanged) => SessionState::Querying,
        (SessionState::Idle, SessionEvent::Selected) => SessionState::Dispatching,
        (SessionState::Idle, SessionEvent::Cancelled) => SessionState::Terminated,
        (SessionState::Querying, SessionEvent::QueryChanged) => SessionState::Querying,
        (SessionState::Querying, SessionEvent::Selected) => SessionState::Dispatching,
        (SessionState::Querying, SessionEvent::Cancelled) => SessionState::Terminated,
        (SessionState::Dispatching, SessionEvent::DispatchSucceeded) => SessionState::Terminated,
        (
            SessionState::Dispatching,
            SessionEvent::DispatchFailedRecoverably,
        ) => SessionState::Querying,
        (SessionState::Dispatching, SessionEvent::DispatchFailedFatally) => SessionState::Terminated,
        (_, _) => s,
    }
}

/// Advance the session by one event.
pub fn session_step(s: SessionState, e: SessionEvent) -> (r: SessionState)
    ensures
        r == spec_session_step(s, e),
{
    match (s, e) {
        (SessionState::Idle, SessionEvent::QueryChanged) => SessionState::Querying,
        (SessionState::Idle, SessionEvent::Selected) => SessionState::Dispatching,
        (SessionState::Idle, SessionEvent::Cancelled) => SessionState::Terminated,
        (SessionState::Querying, SessionEvent::QueryChanged) => SessionState::Querying,
        (SessionState::Querying, SessionEvent::Selected) => SessionState::Dispatching,
        (SessionState::Querying, SessionEvent::Cancelled) => SessionState::Terminated,
        (SessionState::Dispatching, SessionEvent::DispatchSucceeded) => SessionState::Terminated,
        (
            SessionState::Dispatching,
            SessionEvent::DispatchFailedRecoverably,
        ) => SessionState::Querying,
        (SessionState::Dispatching, SessionEvent::DispatchFailedFatally) => SessionState::Terminated,
        (_, _) => s,
    }
}

/// A terminated session never comes back: every event leaves it terminated.
pub proof fn lemma_terminated_absorbing(e: SessionEvent)
    ensures
        spec_session_step(SessionState::Terminated, e) == SessionState::Terminated,
{
}

} // verus!
