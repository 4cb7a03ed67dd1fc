use nipahblocks::history::{History, HISTORY_SIZE};
use nipahblocks::protocol::{ChatMessage, Timestamp};

fn message(i: u16) -> ChatMessage {
    ChatMessage { user_id: i, content: format!("m{i}"), time: Timestamp { secs: i as i64, nanos: 0 } }
}

#[test]
fn history_grows_until_capacity() {
    let mut h = History::new();
    for i in 0..10 {
        h.append(message(i));
    }
    let snap = h.snapshot();
    assert_eq!(snap.len(), 10);
    assert_eq!(snap[0], message(0));
    assert_eq!(snap[9], message(9));
}

#[test]
fn history_evicts_oldest_beyond_capacity() {
    let mut h = History::new();
    for i in 0..(HISTORY_SIZE as u16 + 1) {
        h.append(message(i));
    }
    let snap = h.snapshot();
    assert_eq!(snap.len(), HISTORY_SIZE);
    assert!(!snap.contains(&message(0)));
    for (k, m) in snap.iter().enumerate() {
        assert_eq!(*m, message(k as u16 + 1));
    }
}

#[test]
fn history_keeps_the_latest_of_many() {
    let mut h = History::new();
    for i in 0..200 {
        h.append(message(i));
    }
    let snap = h.snapshot();
    assert_eq!(snap.len(), 50);
    assert_eq!(snap[0], message(150));
    assert_eq!(snap[49], message(199));
}
