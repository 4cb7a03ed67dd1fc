use nipahblocks::chunk::{Chunk, ChunkId, COLUMNS};
use nipahblocks::protocol::{ChatMessage, Delivery, PlayerMessage, Position, ServerMessage, Timestamp};
use nipahblocks::world::{Reply, State, WorldError};

fn pos(x: f32, y: f32, z: f32) -> Position {
    Position { x_bits: x.to_bits(), y_bits: y.to_bits(), z_bits: z.to_bits() }
}

fn heights_for(id: ChunkId) -> Vec<u16> {
    id.column_positions().iter().map(|(x, y)| (64 + (x + y).rem_euclid(65)) as u16).collect()
}

fn clock() -> Timestamp {
    let d = std::time::SystemTime::now().duration_since(std::time::UNIX_EPOCH).unwrap();
    Timestamp { secs: d.as_secs() as i64, nanos: d.subsec_nanos() }
}

fn deliver(r: Result<Reply, WorldError>) -> Vec<Delivery> {
    match r {
        Ok(Reply::Deliver(d)) => d,
        other => panic!("expected deliveries, got {other:?}"),
    }
}

fn fetch(state: &mut State, player: u16, id: ChunkId) -> Chunk {
    let d = match state.send_chunk(player, id).unwrap() {
        Reply::Deliver(d) => d,
        Reply::Generate(g) => {
            assert_eq!(g, id);
            state.send_generated_chunk(player, id, &heights_for(id)).unwrap()
        }
    };
    assert_eq!(d.len(), 1);
    assert_eq!(d[0].to, player);
    match &d[0].message {
        ServerMessage::Chunk(c) => c.clone(),
        other => panic!("expected a chunk, got {other:?}"),
    }
}

#[test]
fn two_players_chat_move_and_leave() {
    let mut s = State::new();
    let d = s.player_joined(1001).unwrap();
    assert_eq!(d, vec![Delivery { to: 1001, message: ServerMessage::PlayerConnected(1001) }]);

    let sent = clock();
    let d = s.send_chat_message(1001, "hi".to_string(), sent).unwrap();
    let now = clock();
    assert_eq!(d.len(), 1);
    assert_eq!(d[0].to, 1001);
    let hi = match &d[0].message {
        ServerMessage::ChatMessage(m) => m.clone(),
        other => panic!("expected chat, got {other:?}"),
    };
    assert_eq!(hi.user_id, 1001);
    assert_eq!(hi.content, "hi");
    assert_eq!(hi.time, sent);
    assert!((hi.time.secs, hi.time.nanos) <= (now.secs, now.nanos));

    let d = s.player_joined(1002).unwrap();
    assert_eq!(
        d,
        vec![
            Delivery { to: 1001, message: ServerMessage::PlayerConnected(1002) },
            Delivery { to: 1002, message: ServerMessage::PlayerConnected(1002) },
            Delivery { to: 1002, message: ServerMessage::ChatMessage(hi.clone()) },
        ]
    );

    let five = pos(5.0, 0.0, 0.0);
    let d = s.update_player_position(1001, five).unwrap();
    assert_eq!(
        d,
        vec![
            Delivery { to: 1001, message: ServerMessage::PlayerMoved(1001, five) },
            Delivery { to: 1002, message: ServerMessage::PlayerMoved(1001, five) },
        ]
    );
    assert_eq!(s.players[0].position, five);

    let d = s.player_left(1001).unwrap();
    assert_eq!(d, vec![Delivery { to: 1002, message: ServerMessage::PlayerDisconnected(1001) }]);
    let d = s.send_player_list(1002).unwrap();
    assert_eq!(d, vec![Delivery { to: 1002, message: ServerMessage::Players(vec![1002]) }]);
}

#[test]
fn chunk_is_generated_once_and_shared() {
    let mut s = State::new();
    s.player_joined(1).unwrap();
    s.player_joined(2).unwrap();
    let id = ChunkId { x: 0, y: 0 };
    assert!(!s.has_chunk(id));
    let first = fetch(&mut s, 1, id);
    assert!(s.has_chunk(id));
    assert_eq!(first, Chunk::new(id, &heights_for(id)));
    assert!(matches!(s.send_chunk(2, id), Ok(Reply::Deliver(_))));
    let second = fetch(&mut s, 2, id);
    let third = fetch(&mut s, 1, id);
    assert_eq!(first, second);
    assert_eq!(first, third);
    assert_eq!(s.chunks.len(), 1);
}

#[test]
fn generated_chunk_ignores_heights_once_cached() {
    let mut s = State::new();
    s.player_joined(7).unwrap();
    let id = ChunkId { x: -3, y: 2 };
    let a = s.send_generated_chunk(7, id, &vec![100; COLUMNS]).unwrap();
    let b = s.send_generated_chunk(7, id, &vec![10; COLUMNS]).unwrap();
    assert_eq!(a, b);
    assert_eq!(s.chunks.len(), 1);
}

#[test]
fn membership_follows_join_and_leave() {
    let mut s = State::new();
    s.player_joined(10).unwrap();
    s.player_joined(20).unwrap();
    s.player_joined(u16::MAX).unwrap();
    assert_eq!(s.list_players(), vec![10, 20, u16::MAX]);
    s.player_left(20).unwrap();
    assert_eq!(s.list_players(), vec![10, u16::MAX]);
    assert_eq!(s.player_left(20), Err(WorldError::NotRegistered(20)));
}

#[test]
fn chat_reaches_everyone_in_history_order() {
    let mut s = State::new();
    for p in [1, 2, 3] {
        s.player_joined(p).unwrap();
    }
    let t1 = Timestamp { secs: 10, nanos: 0 };
    let t2 = Timestamp { secs: 11, nanos: 5 };
    let d1 = s.send_chat_message(2, "first".to_string(), t1).unwrap();
    let d2 = s.send_chat_message(3, "".to_string(), t2).unwrap();
    let m1 = ChatMessage { user_id: 2, content: "first".to_string(), time: t1 };
    let m2 = ChatMessage { user_id: 3, content: String::new(), time: t2 };
    for (k, p) in [1u16, 2, 3].iter().enumerate() {
        assert_eq!(d1[k], Delivery { to: *p, message: ServerMessage::ChatMessage(m1.clone()) });
        assert_eq!(d2[k], Delivery { to: *p, message: ServerMessage::ChatMessage(m2.clone()) });
    }
    assert_eq!(s.history.snapshot(), vec![m1.clone(), m2.clone()]);
    let d = s.send_history(1).unwrap();
    assert_eq!(
        d,
        vec![
            Delivery { to: 1, message: ServerMessage::ChatMessage(m1) },
            Delivery { to: 1, message: ServerMessage::ChatMessage(m2) },
        ]
    );
}

#[test]
fn handle_player_message_dispatches() {
    let mut s = State::new();
    s.player_joined(5).unwrap();
    let d = deliver(s.handle_player_message(PlayerMessage::FetchPlayers, 5, clock()));
    assert_eq!(d, vec![Delivery { to: 5, message: ServerMessage::Players(vec![5]) }]);
    let p = pos(-1.5, 2.25, 0.0);
    let d = deliver(s.handle_player_message(PlayerMessage::UpdatePosition(p), 5, clock()));
    assert_eq!(d, vec![Delivery { to: 5, message: ServerMessage::PlayerMoved(5, p) }]);
    let t = Timestamp { secs: 1_700_000_000, nanos: 42 };
    let d = deliver(s.handle_player_message(PlayerMessage::Message("yo".to_string()), 5, t));
    assert_eq!(d.len(), 1);
    assert_eq!(s.history.messages.len(), 1);
    assert_eq!(s.history.messages[0].content, "yo");
    assert_eq!(s.history.messages[0].time, t);
    let id = ChunkId { x: 4, y: 4 };
    assert_eq!(s.handle_player_message(PlayerMessage::FetchChunk(id), 5, clock()), Ok(Reply::Generate(id)));
}

#[test]
fn unknown_players_are_reported() {
    let mut s = State::new();
    s.player_joined(1).unwrap();
    assert_eq!(s.player_joined(1), Err(WorldError::AlreadyRegistered(1)));
    assert_eq!(s.player_left(2), Err(WorldError::NotRegistered(2)));
    assert_eq!(s.send_chat_message(2, "x".to_string(), clock()), Err(WorldError::NotRegistered(2)));
    assert_eq!(s.update_player_position(2, pos(0.0, 0.0, 0.0)), Err(WorldError::NotRegistered(2)));
    assert_eq!(s.send_player_list(2), Err(WorldError::NotRegistered(2)));
    assert_eq!(s.send_history(2), Err(WorldError::NotRegistered(2)));
    assert_eq!(s.send_chunk(2, ChunkId { x: 0, y: 0 }), Err(WorldError::NotRegistered(2)));
    assert_eq!(
        s.send_generated_chunk(2, ChunkId { x: 0, y: 0 }, &vec![0; COLUMNS]),
        Err(WorldError::NotRegistered(2))
    );
    assert_eq!(s.history.messages.len(), 0);
    assert_eq!(s.chunks.len(), 0);
    assert_eq!(s.list_players(), vec![1]);
}

#[test]
fn message_duplicate_keeps_content() {
    let m = ServerMessage::Players(vec![1, 2, 3]);
    assert_eq!(m.duplicate(), m);
    let c = ChatMessage { user_id: 9, content: "abc".to_string(), time: Timestamp { secs: 1, nanos: 2 } };
    assert_eq!(c.duplicate(), c);
    assert_eq!(Position::origin(), pos(0.0, 0.0, 0.0));
}

#[test]
fn evicted_chunk_is_generated_again() {
    let mut s = State::new();
    s.player_joined(1).unwrap();
    let a = ChunkId { x: 1, y: 1 };
    let b = ChunkId { x: 2, y: 1 };
    s.send_generated_chunk(1, a, &vec![70; COLUMNS]).unwrap();
    s.send_generated_chunk(1, b, &vec![80; COLUMNS]).unwrap();
    assert!(s.evict_chunk(a));
    assert!(!s.evict_chunk(a));
    assert!(!s.has_chunk(a));
    assert!(s.has_chunk(b));
    assert_eq!(s.send_chunk(1, a), Ok(Reply::Generate(a)));
    let d = s.send_generated_chunk(1, a, &vec![90; COLUMNS]).unwrap();
    assert_eq!(d, vec![Delivery { to: 1, message: ServerMessage::Chunk(Chunk::new(a, &vec![90; COLUMNS])) }]);
}
