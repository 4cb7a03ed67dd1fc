use nipahblocks::session::{SessionAction, SessionEvent, SessionState};

#[test]
fn session_lifecycle() {
    let (s, a) = SessionState::Connecting.next(SessionEvent::HandshakeDone);
    assert_eq!((s, a), (SessionState::Active, SessionAction::Join));
    let (s, a) = s.next(SessionEvent::Received);
    assert_eq!((s, a), (SessionState::Active, SessionAction::Dispatch));
    let (s, a) = s.next(SessionEvent::Undecodable);
    assert_eq!((s, a), (SessionState::Active, SessionAction::Discard));
    let (s, a) = s.next(SessionEvent::OutboundEnded);
    assert_eq!((s, a), (SessionState::Closing, SessionAction::Leave));
    let (s, a) = s.next(SessionEvent::InboundEnded);
    assert_eq!((s, a), (SessionState::Closing, SessionAction::Ignore));
    let (s, a) = s.next(SessionEvent::Unregistered);
    assert_eq!((s, a), (SessionState::Closed, SessionAction::Retire));
    let (s, a) = s.next(SessionEvent::HandshakeDone);
    assert_eq!((s, a), (SessionState::Closed, SessionAction::Ignore));
}

#[test]
fn failed_handshake_closes() {
    let (s, a) = SessionState::Connecting.next(SessionEvent::HandshakeFailed);
    assert_eq!((s, a), (SessionState::Closed, SessionAction::Retire));
    let (s, a) = SessionState::Active.next(SessionEvent::InboundEnded);
    assert_eq!((s, a), (SessionState::Closing, SessionAction::Leave));
}
