use vstd::prelude::*;

verus! {

/// Where a connection stands.
#[derive(Clone, Copy, Debug, PartialEq, Eq, Structural)]
pub enum SessionState {
    /// The transport handshake has not completed yet.
    Connecting,
    /// The player is registered; its inbound and outbound loops run.
    Active,
    /// One loop has ended; the other is being stopped and the player removed.
    Closing,
    /// The connection is over and its player id retired.
    Closed,
}

/// Something that happened to a connection.
#[derive(Clone, Copy, Debug, PartialEq, Eq, Structural)]
pub enum SessionEvent {
    /// The transport handshake completed.
    HandshakeDone,
    /// The transport handshake failed.
    HandshakeFailed,
    /// An inbound message was decoded.
    Received,
    /// An inbound payload could not be decoded.
    Undecodable,
    /// The inbound loop ended: the transport closed or failed while reading.
    InboundEnded,
    /// The outbound loop ended: the queue closed or a write failed.
    OutboundEnded,
    /// The player has been unregistered and its peers told.
    Unregistered,
}

/// What the connection's driver does next.
#[derive(Clone, Copy, Debug, PartialEq, Eq, Structural)]
pub enum SessionAction {
    /// Register the player and start both loops.
    Join,
    /// Hand the decoded message to the world.
    Dispatch,
    /// Drop the payload and keep the connection.
    Discard,
    /// Stop the other loop and unregister the player.
    Leave,
    /// Release what the connection holds.
    Retire,
    /// Nothing.
    Ignore,
}

/// The state a connection moves to on `event`, and what is done about it.
pub open spec fn transition(state: SessionState, event: SessionEvent) -> (SessionState, SessionAction) {
    match (state, event) {
        (SessionState::Connecting, SessionEvent::HandshakeDone) => (
            SessionState::Active,
            SessionAction::Join,
        ),
        (SessionState::Connecting, SessionEvent::HandshakeFailed) => (
            SessionState::Closed,
            SessionAction::Retire,
        ),
        (SessionState::Active, SessionEvent::Received) => (
            SessionState::Active,
            SessionAction::Dispatch,
        ),
        (SessionState::Active, SessionEvent::Undecodable) => (
            SessionState::Active,
            SessionAction::Discard,
        ),
        (SessionState::Active, SessionEvent::InboundEnded) => (
            SessionState::Closing,
            SessionAction::Leave,
        ),
        (SessionState::Active, SessionEvent::OutboundEnded) => (
            SessionState::Closing,
            SessionAction::Leave,
        ),
        (SessionState::Closing, SessionEvent::Unregistered) => (
            SessionState::Closed,
            SessionAction::Retire,
        ),
        _ => (state, SessionAction::Ignore),
    }
}

impl SessionState {
    /// The state a connection moves to on `event`, and what is done about it.
    pub fn next(self, event: SessionEvent) -> (r: (SessionState, SessionAction))
        ensures
            r == transition(self, event),
    {
        match (self, event) {
            (SessionState::Connecting, SessionEvent::HandshakeDone) => (
                SessionState::Active,
                SessionAction::Join,
            ),
            (SessionState::Connecting, SessionEvent::HandshakeFailed) => (
                SessionState::Closed,
                SessionAction::Retire,
            ),
            (SessionState::Active, SessionEvent::Received) => (
                SessionState::Active,
                SessionAction::Dispatch,
            ),
            (SessionState::Active, SessionEvent::Undecodable) => (
                SessionState::Active,
                SessionAction::Discard,
            ),
            (SessionState::Active, SessionEvent::InboundEnded) => (
                SessionState::Closing,
                SessionAction::Leave,
            ),
            (SessionState::Active, SessionEvent::OutboundEnded) => (
                SessionState::Closing,
                SessionAction::Leave,
            ),
            (SessionState::Closing, SessionEvent::Unregistered) => (
                SessionState::Closed,
                SessionAction::Retire,
            ),
            _ => (self, SessionAction::Ignore),
        }
    }
}

/// A closed connection stays closed, and a payload that does not decode never
/// ends an active one.
pub proof fn lemma_session_safety(state: SessionState, event: SessionEvent)
    ensures
        state == SessionState::Closed ==> transition(state, event).0 == SessionState::Closed,
        state == SessionState::Active && event == SessionEvent::Undecodable ==> transition(
            state,
            event,
        ).0 == SessionState::Active,
        transition(state, event).1 == SessionAction::Leave ==> state == SessionState::Active,
{
}

} // verus!
