use scout::session::{session_step, SessionEvent, SessionState};

#[test]
fn typing_moves_to_querying() {
    assert_eq!(session_step(SessionState::Idle, SessionEvent::QueryChanged), SessionState::Querying);
    assert_eq!(
        session_step(SessionState::Querying, SessionEvent::QueryChanged),
        SessionState::Querying
    );
}

#[test]
fn selection_moves_to_dispatching() {
    assert_eq!(session_step(SessionState::Idle, SessionEvent::Selected), SessionState::Dispatching);
    assert_eq!(
        session_step(SessionState::Querying, SessionEvent::Selected),
        SessionState::Dispatching
    );
}

#[test]
fn cancellation_terminates_without_dispatch() {
    assert_eq!(session_step(SessionState::Idle, SessionEvent::Cancelled), SessionState::Terminated);
    assert_eq!(
        session_step(SessionState::Querying, SessionEvent::Cancelled),
        SessionState::Terminated
    );
}

#[test]
fn dispatch_outcomes() {
    assert_eq!(
        session_step(SessionState::Dispatching, SessionEvent::DispatchSucceeded),
        SessionState::Terminated
    );
    assert_eq!(
        session_step(SessionState::Dispatching, SessionEvent::DispatchFailedRecoverably),
        SessionState::Querying
    );
    assert_eq!(
        session_step(SessionState::Dispatching, SessionEvent::DispatchFailedFatally),
        SessionState::Terminated
    );
}

#[test]
fn terminated_is_absorbing() {
    let events = [
        SessionEvent::QueryChanged,
        SessionEvent::Selected,
        SessionEvent::Cancelled,
        SessionEvent::DispatchSucceeded,
        SessionEvent::DispatchFailedRecoverably,
        SessionEvent::DispatchFailedFatally,
    ];
    for e in events {
        assert_eq!(session_step(SessionState::Terminated, e), SessionState::Terminated);
    }
}
