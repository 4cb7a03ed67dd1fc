use vstd::prelude::*;

use crate::chunk::{Block, Chunk, ChunkId};

verus! {

/// Identifier of a connected player.
pub type PlayerId = u16;

/// A point of the world. Each coordinate is held as the bit pattern of an
/// IEEE 754 single-precision number, so that it travels unchanged.
#[derive(Clone, Copy, Debug, PartialEq, Eq, Hash, Structural)]
pub struct Position {
    pub x_bits: u32,
    pub y_bits: u32,
    pub z_bits: u32,
}

/// An instant in UTC: whole seconds since the Unix epoch and the nanoseconds
/// after them.
#[derive(Clone, Copy, Debug, PartialEq, Eq, Hash, Structural)]
pub struct Timestamp {
    pub secs: i64,
    pub nanos: u32,
}

/// A chat line as it is stored and broadcast.
#[derive(Clone, Debug, PartialEq, Eq)]
pub struct ChatMessage {
    pub user_id: PlayerId,
    pub content: String,
    pub time: Timestamp,
}

/// What a client sends to the server.
#[derive(Clone, Debug, PartialEq, Eq)]
pub enum PlayerMessage {
    Message(String),
    UpdatePosition(Position),
    FetchChunk(ChunkId),
    FetchPlayers,
}

/// What the server sends to a client.
#[derive(Clone, Debug, PartialEq, Eq)]
pub enum ServerMessage {
    ChatMessage(ChatMessage),
    Players(Vec<PlayerId>),
    PlayerConnected(PlayerId),
    PlayerDisconnected(PlayerId),
    PlayerMoved(PlayerId, Position),
    Chunk(Chunk),
}

/// The content of a `ServerMessage`, with its vectors seen as sequences.
pub enum ServerMessageView {
    ChatMessage(ChatMessage),
    Players(Seq<PlayerId>),
    PlayerConnected(PlayerId),
    PlayerDisconnected(PlayerId),
    PlayerMoved(PlayerId, Position),
    Chunk(ChunkId, Seq<Option<Block>>),
}

/// One message to hand to one player's outbound queue.
#[derive(Clone, Debug, PartialEq, Eq)]
pub struct Delivery {
    pub to: PlayerId,
    pub message: ServerMessage,
}

impl View for ServerMessage {
    type V = ServerMessageView;

    open spec fn view(&self) -> ServerMessageView {
        match self {
            ServerMessage::ChatMessage(m) => ServerMessageView::ChatMessage(*m),
            ServerMessage::Players(ids) => ServerMessageView::Players(ids@),
            ServerMessage::PlayerConnected(id) => ServerMessageView::PlayerConnected(*id),
            ServerMessage::PlayerDisconnected(id) => ServerMessageView::PlayerDisconnected(*id),
            ServerMessage::PlayerMoved(id, p) => ServerMessageView::PlayerMoved(*id, *p),
            ServerMessage::Chunk(c) => ServerMessageView::Chunk(c.id, c.blocks@),
        }
    }
}

impl View for Delivery {
    type V = (PlayerId, ServerMessageView);

    open spec fn view(&self) -> (PlayerId, ServerMessageView) {
        (self.to, self.message@)
    }
}

/// The deliveries of `d`, seen one by one.
pub open spec fn deliveries(d: Seq<Delivery>) -> Seq<(PlayerId, ServerMessageView)> {
    d.map_values(|x: Delivery| x@)
}

impl Position {
    /// The world's origin, where players start.
    pub fn origin() -> (r: Position)
        ensures
            r == (Position { x_bits: 0, y_bits: 0, z_bits: 0 }),
    {
        Position { x_bits: 0, y_bits: 0, z_bits: 0 }
    }
}

impl ChatMessage {
    /// A copy of this message, equal to it.
    pub fn duplicate(&self) -> (r: ChatMessage)
        ensures
            r == *self,
    {
        ChatMessage { user_id: self.user_id, content: self.content.clone(), time: self.time }
    }
}

impl ServerMessage {
    /// A copy of this message, with the same content.
    pub fn duplicate(&self) -> (r: ServerMessage)
        ensures
            r@ == self@,
    {
        match self {
            ServerMessage::ChatMessage(m) => ServerMessage::ChatMessage(m.duplicate()),
            ServerMessage::Players(ids) => ServerMessage::Players(copy_ids(ids)),
            ServerMessage::PlayerConnected(id) => ServerMessage::PlayerConnected(*id),
            ServerMessage::PlayerDisconnected(id) => ServerMessage::PlayerDisconnected(*id),
            ServerMessage::PlayerMoved(id, p) => ServerMessage::PlayerMoved(*id, *p),
            ServerMessage::Chunk(c) => ServerMessage::Chunk(c.duplicate()),
        }
    }
}

/// A copy of a list of player ids.
fn copy_ids(ids: &Vec<PlayerId>) -> (r: Vec<PlayerId>)
    ensures
        r@ == ids@,
{
    let mut r: Vec<PlayerId> = Vec::with_capacity(ids.len());
    let mut i: usize = 0;
    while i < ids.len()
        invariant
            i <= ids@.len(),
            r@ == ids@.subrange(0, i as int),
        decreases ids@.len() - i,
    {
        r.push(ids[i]);
        i = i + 1;
        assert(r@ =~= ids@.subrange(0, i as int));
    }
    assert(r@ =~= ids@);
    r
}

} // verus!
