use vstd::prelude::*;

use crate::chunk::{Block, Chunk, ChunkId, COLUMNS, terrain};
use crate::history::{appended, keep_latest, lemma_keep_latest_push, History};
use crate::protocol::{
    deliveries, ChatMessage, Delivery, PlayerId, PlayerMessage, Position, ServerMessage,
    ServerMessageView, Timestamp,
};

verus! {

/// A registered player and its last reported position.
#[derive(Clone, Copy, Debug, PartialEq, Eq, Structural)]
pub struct PlayerState {
    pub id: PlayerId,
    pub position: Position,
}

/// An operation named a player in a way that the registry does not allow.
#[derive(Clone, Copy, Debug, PartialEq, Eq, Structural)]
pub enum WorldError {
    /// The player is registered already.
    AlreadyRegistered(PlayerId),
    /// The player is not registered.
    NotRegistered(PlayerId),
}

/// What the coordinator asks of its caller after a request.
#[derive(Clone, Debug, PartialEq, Eq)]
pub enum Reply {
    /// Hand each of these messages to its player's outbound queue, in order.
    Deliver(Vec<Delivery>),
    /// The chunk is not cached: sample its column heights and call
    /// `State::send_generated_chunk`.
    Generate(ChunkId),
}

/// The content of a `Reply`.
pub enum ReplyView {
    Deliver(Seq<(PlayerId, ServerMessageView)>),
    Generate(ChunkId),
}

impl View for Reply {
    type V = ReplyView;

    open spec fn view(&self) -> ReplyView {
        match self {
            Reply::Deliver(d) => ReplyView::Deliver(deliveries(d@)),
            Reply::Generate(id) => ReplyView::Generate(*id),
        }
    }
}

/// The shared world: chat history, player registry and chunk cache.
pub struct State {
    pub history: History,
    pub players: Vec<PlayerState>,
    pub chunks: Vec<Chunk>,
}

/// Ids of the players of `ps`, in registration order.
pub open spec fn player_ids(ps: Seq<PlayerState>) -> Seq<PlayerId> {
    ps.map_values(|p: PlayerState| p.id)
}

/// Ids of the chunks of `cs`.
pub open spec fn chunk_ids(cs: Seq<Chunk>) -> Seq<ChunkId> {
    cs.map_values(|c: Chunk| c.id)
}

/// The cells of each cached chunk, by chunk id.
pub open spec fn cache(cs: Seq<Chunk>) -> Map<ChunkId, Seq<Option<Block>>> {
    Map::new(
        |k: ChunkId| chunk_ids(cs).contains(k),
        |k: ChunkId| cs[chunk_ids(cs).index_of(k)].blocks@,
    )
}

/// Message `m` for each player of `ps`, in registration order.
pub open spec fn broadcast(ps: Seq<PlayerState>, m: ServerMessageView) -> Seq<
    (PlayerId, ServerMessageView),
> {
    ps.map_values(|p: PlayerState| (p.id, m))
}

/// The messages of `h`, oldest first, each for player `to`.
pub open spec fn replay(to: PlayerId, h: Seq<ChatMessage>) -> Seq<(PlayerId, ServerMessageView)> {
    h.map_values(|m: ChatMessage| (to, ServerMessageView::ChatMessage(m)))
}

/// The registry `ps` once `id` has moved to `position`.
pub open spec fn moved(ps: Seq<PlayerState>, id: PlayerId, position: Position) -> Seq<PlayerState> {
    ps.map_values(
        |p: PlayerState|
            if p.id == id {
                PlayerState { id, position }
            } else {
                p
            },
    )
}

/// One request for chunk `id` against cache `c`, with `heights` as the column
/// heights that would be used if it has to be generated: the cache after it,
/// and the cells handed out.
pub open spec fn fetch(c: Map<ChunkId, Seq<Option<Block>>>, id: ChunkId, heights: Seq<u16>) -> (
    Map<ChunkId, Seq<Option<Block>>>,
    Seq<Option<Block>>,
) {
    if c.contains_key(id) {
        (c, c[id])
    } else {
        (c.insert(id, terrain(heights)), terrain(heights))
    }
}

/// The results of a delivering operation, seen as deliveries.
pub open spec fn outcome(r: Result<Vec<Delivery>, WorldError>) -> Result<
    Seq<(PlayerId, ServerMessageView)>,
    WorldError,
> {
    match r {
        Ok(d) => Ok(deliveries(d@)),
        Err(e) => Err(e),
    }
}

impl State {
    /// Player ids are unique, chunk ids are unique, every cached chunk is
    /// complete and the history is within its capacity.
    pub open spec fn wf(&self) -> bool {
        &&& self.history.wf()
        &&& player_ids(self.players@).no_duplicates()
        &&& chunk_ids(self.chunks@).no_duplicates()
        &&& forall|i: int| 0 <= i < self.chunks@.len() ==> (#[trigger] self.chunks@[i]).wf()
    }

    /// Whether player `id` is registered.
    pub open spec fn registered(&self, id: PlayerId) -> bool {
        player_ids(self.players@).contains(id)
    }

    /// An empty world.
    pub fn new() -> (r: State)
        ensures
            r.wf(),
            r.history.messages@.len() == 0,
            r.players@.len() == 0,
            r.chunks@.len() == 0,
    {
        State { history: History::new(), players: Vec::new(), chunks: Vec::new() }
    }

    fn find_player(&self, id: PlayerId) -> (r: Option<usize>)
        ensures
            match r {
                Some(i) => i < self.players@.len() && self.players@[i as int].id == id
                    && self.registered(id),
                None => !self.registered(id),
            },
    {
        let mut i: usize = 0;
        while i < self.players.len()
            invariant
                i <= self.players@.len(),
                forall|j: int| 0 <= j < i ==> (#[trigger] self.players@[j]).id != id,
            decreases self.players@.len() - i,
        {
            if self.players[i].id == id {
                assert(player_ids(self.players@)[i as int] == id);
                return Some(i);
            }
            i = i + 1;
        }
        proof {
            if self.registered(id) {
                let k = choose|k: int|
                    0 <= k < player_ids(self.players@).len() && player_ids(self.players@)[k]
                        == id;
                assert(self.players@[k].id == id);
            }
        }
        None
    }

    /// Whether chunk `id` is cached.
    pub fn has_chunk(&self, id: ChunkId) -> (r: bool)
        ensures
            r == cache(self.chunks@).contains_key(id),
    {
        let found = self.find_chunk(id);
        proof {
            if let Some(i) = found {
                assert(chunk_ids(self.chunks@)[i as int] == id);
            }
        }
        found.is_some()
    }

    /// Drops chunk `chunk_id` from the cache, if it is there: the hook for an
    /// eviction policy. A later request for it generates it again.
    pub fn evict_chunk(&mut self, chunk_id: ChunkId) -> (r: bool)
        requires
            old(self).wf(),
        ensures
            final(self).wf(),
            r == cache(old(self).chunks@).contains_key(chunk_id),
            cache(final(self).chunks@) == cache(old(self).chunks@).remove(chunk_id),
            final(self).players == old(self).players,
            final(self).history == old(self).history,
    {
        match self.find_chunk(chunk_id) {
            Some(i) => {
                let ghost old_chunks = self.chunks@;
                proof {
                    lemma_cache_remove(self.chunks@, i as int);
                    assert(chunk_ids(self.chunks@)[i as int] == chunk_id);
                }
                self.chunks.remove(i);
                assert forall|j: int| 0 <= j < self.chunks@.len() implies (
                #[trigger] self.chunks@[j]).wf() by {
                    if j < i {
                        assert(self.chunks@[j] == old_chunks[j]);
                    } else {
                        assert(self.chunks@[j] == old_chunks[j + 1]);
                    }
                }
                true
            },
            None => {
                assert(cache(self.chunks@).remove(chunk_id) =~= cache(self.chunks@));
                false
            },
        }
    }

    fn find_chunk(&self, id: ChunkId) -> (r: Option<usize>)
        ensures
            match r {
                Some(i) => i < self.chunks@.len() && self.chunks@[i as int].id == id
                    && chunk_ids(self.chunks@).contains(id),
                None => !chunk_ids(self.chunks@).contains(id),
            },
    {
        let mut i: usize = 0;
        while i < self.chunks.len()
            invariant
                i <= self.chunks@.len(),
                forall|j: int| 0 <= j < i ==> (#[trigger] self.chunks@[j]).id != id,
            decreases self.chunks@.len() - i,
        {
            if self.chunks[i].id == id {
                assert(chunk_ids(self.chunks@)[i as int] == id);
                return Some(i);
            }
            i = i + 1;
        }
        proof {
            if chunk_ids(self.chunks@).contains(id) {
                let k = choose|k: int|
                    0 <= k < chunk_ids(self.chunks@).len() && chunk_ids(self.chunks@)[k] == id;
                assert(self.chunks@[k].id == id);
            }
        }
        None
    }

    /// Appends message `m` for each registered player to `out`.
    fn push_broadcast(&self, out: &mut Vec<Delivery>, m: &ServerMessage)
        ensures
            deliveries(final(out)@) == deliveries(old(out)@) + broadcast(self.players@, m@),
    {
        let ghost start = deliveries(out@);
        let mut i: usize = 0;
        while i < self.players.len()
            invariant
                i <= self.players@.len(),
                deliveries(out@) == start + broadcast(self.players@.subrange(0, i as int), m@),
            decreases self.players@.len() - i,
        {
            let d = Delivery { to: self.players[i].id, message: m.duplicate() };
            let ghost before = out@;
            out.push(d);
            i = i + 1;
            assert(out@ == before.push(d));
            assert(deliveries(out@) =~= deliveries(before).push(d@));
            assert(broadcast(self.players@.subrange(0, i as int), m@) =~= broadcast(
                self.players@.subrange(0, i - 1),
                m@,
            ).push(d@));
            assert(deliveries(out@) =~= start + broadcast(
                self.players@.subrange(0, i as int),
                m@,
            ));
        }
        assert(self.players@.subrange(0, i as int) =~= self.players@);
    }

    /// Appends each message of the history, oldest first, for player `to`.
    fn push_history(&self, out: &mut Vec<Delivery>, to: PlayerId)
        ensures
            deliveries(final(out)@) == deliveries(old(out)@) + replay(to, self.history.messages@),
    {
        let messages = self.history.snapshot();
        let ghost start = deliveries(out@);
        let mut i: usize = 0;
        while i < messages.len()
            invariant
                i <= messages@.len(),
                messages@ == self.history.messages@,
                deliveries(out@) == start + replay(to, messages@.subrange(0, i as int)),
            decreases messages@.len() - i,
        {
            let d = Delivery { to, message: ServerMessage::ChatMessage(messages[i].duplicate()) };
            let ghost before = out@;
            out.push(d);
            i = i + 1;
            assert(deliveries(out@) =~= deliveries(before).push(d@));
            assert(replay(to, messages@.subrange(0, i as int)) =~= replay(
                to,
                messages@.subrange(0, i - 1),
            ).push(d@));
            assert(deliveries(out@) =~= start + replay(to, messages@.subrange(0, i as int)));
        }
        assert(messages@.subrange(0, i as int) =~= messages@);
    }
}


/// A delivering operation's result as a reply.
pub open spec fn delivered(o: Result<Seq<(PlayerId, ServerMessageView)>, WorldError>) -> Result<
    ReplyView,
    WorldError,
> {
    match o {
        Ok(d) => Ok(ReplyView::Deliver(d)),
        Err(e) => Err(e),
    }
}

/// A request's result, seen as a reply.
pub open spec fn reply_outcome(r: Result<Reply, WorldError>) -> Result<ReplyView, WorldError> {
    match r {
        Ok(x) => Ok(x@),
        Err(e) => Err(e),
    }
}

/// Player `id` connects: it is registered at the origin, every registered
/// player, itself included, is told, and then it alone gets the chat
/// history, oldest first. A player that is registered already changes nothing.
pub open spec fn joined(
    old: State,
    new: State,
    id: PlayerId,
    o: Result<Seq<(PlayerId, ServerMessageView)>, WorldError>,
) -> bool {
    if old.registered(id) {
        new == old && o == Err::<Seq<(PlayerId, ServerMessageView)>, WorldError>(
            WorldError::AlreadyRegistered(id),
        )
    } else {
        &&& new.players@ == old.players@.push(
            PlayerState { id, position: Position { x_bits: 0, y_bits: 0, z_bits: 0 } },
        )
        &&& new.history == old.history
        &&& new.chunks == old.chunks
        &&& o == Ok::<Seq<(PlayerId, ServerMessageView)>, WorldError>(
            broadcast(new.players@, ServerMessageView::PlayerConnected(id)) + replay(
                id,
                old.history.messages@,
            ),
        )
    }
}

/// Player `id` disconnects: its entry is removed and every remaining player
/// is told. A player that is not registered changes nothing.
pub open spec fn left(
    old: State,
    new: State,
    id: PlayerId,
    o: Result<Seq<(PlayerId, ServerMessageView)>, WorldError>,
) -> bool {
    if old.registered(id) {
        &&& !new.registered(id)
        &&& exists|i: int|
            0 <= i < old.players@.len() && old.players@[i].id == id && new.players@
                == old.players@.remove(i)
        &&& new.history == old.history
        &&& new.chunks == old.chunks
        &&& o == Ok::<Seq<(PlayerId, ServerMessageView)>, WorldError>(
            broadcast(new.players@, ServerMessageView::PlayerDisconnected(id)),
        )
    } else {
        new == old && o == Err::<Seq<(PlayerId, ServerMessageView)>, WorldError>(
            WorldError::NotRegistered(id),
        )
    }
}

/// Player `id` asks for chunk `chunk_id` with `heights` sampled for its
/// columns: the cache follows `fetch`, and the cells it hands out go to `id`
/// alone. An unregistered player changes nothing.
pub open spec fn chunk_sent(
    old: State,
    new: State,
    id: PlayerId,
    chunk_id: ChunkId,
    heights: Seq<u16>,
    o: Result<Seq<(PlayerId, ServerMessageView)>, WorldError>,
) -> bool {
    let f = fetch(cache(old.chunks@), chunk_id, heights);
    if old.registered(id) {
        &&& cache(new.chunks@) == f.0
        &&& new.players == old.players
        &&& new.history == old.history
        &&& o == Ok::<Seq<(PlayerId, ServerMessageView)>, WorldError>(
            seq![(id, ServerMessageView::Chunk(chunk_id, f.1))],
        )
    } else {
        new == old && o == Err::<Seq<(PlayerId, ServerMessageView)>, WorldError>(
            WorldError::NotRegistered(id),
        )
    }
}

proof fn lemma_cache_remove(cs: Seq<Chunk>, i: int)
    requires
        chunk_ids(cs).no_duplicates(),
        0 <= i < cs.len(),
    ensures
        chunk_ids(cs.remove(i)).no_duplicates(),
        cache(cs.remove(i)) == cache(cs).remove(cs[i].id),
{
    let ids = chunk_ids(cs);
    let r = cs.remove(i);
    let nids = chunk_ids(r);
    let gone = cs[i].id;
    assert(ids[i] == gone);
    assert(nids.no_duplicates()) by {
        assert forall|a: int, b: int|
            0 <= a < nids.len() && 0 <= b < nids.len() && a != b implies nids[a] != nids[b] by {
            let oa = if a < i { a } else { a + 1 };
            let ob = if b < i { b } else { b + 1 };
            assert(nids[a] == ids[oa]);
            assert(nids[b] == ids[ob]);
        }
    }
    let n = cache(r);
    let m = cache(cs).remove(gone);
    assert forall|k: ChunkId| #[trigger] n.contains_key(k) == m.contains_key(k) by {
        if nids.contains(k) {
            let a = choose|a: int| 0 <= a < nids.len() && nids[a] == k;
            let oa = if a < i { a } else { a + 1 };
            assert(nids[a] == ids[oa]);
            assert(ids.contains(k));
            assert(oa != i);
        }
        if ids.contains(k) && k != gone {
            let j = choose|j: int| 0 <= j < ids.len() && ids[j] == k;
            assert(j != i);
            let a = if j < i { j } else { j - 1 };
            assert(nids[a] == ids[j]);
        }
    }
    assert forall|k: ChunkId| n.contains_key(k) implies #[trigger] n[k] == m[k] by {
        let a = nids.index_of(k);
        let oa = if a < i { a } else { a + 1 };
        assert(nids[a] == ids[oa]);
        assert(r[a] == cs[oa]);
        lemma_cache_at(r, a);
        lemma_cache_at(cs, oa);
    }
    assert(n =~= m);
}

/// Player `id` sends chat line `content` at `time`: the line, attributed to
/// `id`, is appended to the history and broadcast to every registered player,
/// the sender included. An unregistered sender changes nothing.
pub open spec fn chatted(
    old: State,
    new: State,
    id: PlayerId,
    content: String,
    time: Timestamp,
    o: Result<ReplyView, WorldError>,
) -> bool {
    let m = ChatMessage { user_id: id, content, time };
    if old.registered(id) {
        &&& new.history.messages@ == appended(old.history.messages@, m)
        &&& new.players == old.players
        &&& new.chunks == old.chunks
        &&& o == Ok::<ReplyView, WorldError>(
            ReplyView::Deliver(broadcast(old.players@, ServerMessageView::ChatMessage(m))),
        )
    } else {
        new == old && o == Err::<ReplyView, WorldError>(WorldError::NotRegistered(id))
    }
}

/// Player `id` reports `position`: its entry is updated and every registered
/// player, the sender included, is told. An unregistered player changes nothing.
pub open spec fn position_updated(
    old: State,
    new: State,
    id: PlayerId,
    position: Position,
    o: Result<ReplyView, WorldError>,
) -> bool {
    if old.registered(id) {
        &&& new.players@ == moved(old.players@, id, position)
        &&& new.history == old.history
        &&& new.chunks == old.chunks
        &&& o == Ok::<ReplyView, WorldError>(
            ReplyView::Deliver(
                broadcast(new.players@, ServerMessageView::PlayerMoved(id, position)),
            ),
        )
    } else {
        new == old && o == Err::<ReplyView, WorldError>(WorldError::NotRegistered(id))
    }
}

/// Player `id` asks for the ids of all registered players, and only it gets them.
pub open spec fn players_listed(s: State, id: PlayerId, o: Result<ReplyView, WorldError>) -> bool {
    if s.registered(id) {
        o == Ok::<ReplyView, WorldError>(
            ReplyView::Deliver(seq![(id, ServerMessageView::Players(player_ids(s.players@)))]),
        )
    } else {
        o == Err::<ReplyView, WorldError>(WorldError::NotRegistered(id))
    }
}

/// Player `id` asks for chunk `chunk_id`: a cached chunk goes to it alone; one
/// that is not cached has to be generated first.
pub open spec fn chunk_requested(
    s: State,
    id: PlayerId,
    chunk_id: ChunkId,
    o: Result<ReplyView, WorldError>,
) -> bool {
    let c = cache(s.chunks@);
    if !s.registered(id) {
        o == Err::<ReplyView, WorldError>(WorldError::NotRegistered(id))
    } else if c.contains_key(chunk_id) {
        o == Ok::<ReplyView, WorldError>(
            ReplyView::Deliver(seq![(id, ServerMessageView::Chunk(chunk_id, c[chunk_id]))]),
        )
    } else {
        o == Ok::<ReplyView, WorldError>(ReplyView::Generate(chunk_id))
    }
}

proof fn lemma_cache_at(cs: Seq<Chunk>, i: int)
    requires
        chunk_ids(cs).no_duplicates(),
        0 <= i < cs.len(),
    ensures
        cache(cs).contains_key(cs[i].id),
        cache(cs)[cs[i].id] == cs[i].blocks@,
{
    let ids = chunk_ids(cs);
    assert(ids[i] == cs[i].id);
    let j = ids.index_of(cs[i].id);
    assert(ids[j] == cs[i].id);
}

proof fn lemma_cache_push(cs: Seq<Chunk>, c: Chunk)
    requires
        chunk_ids(cs).no_duplicates(),
        !chunk_ids(cs).contains(c.id),
    ensures
        chunk_ids(cs.push(c)).no_duplicates(),
        chunk_ids(cs.push(c)) == chunk_ids(cs).push(c.id),
        cache(cs.push(c)) == cache(cs).insert(c.id, c.blocks@),
{
    let ids = chunk_ids(cs);
    let nids = chunk_ids(cs.push(c));
    assert(nids =~= ids.push(c.id));
    assert(nids.no_duplicates()) by {
        assert forall|a: int, b: int|
            0 <= a < nids.len() && 0 <= b < nids.len() && a != b implies nids[a] != nids[b] by {
            if a == ids.len() as int {
                assert(ids[b] == nids[b]);
            } else if b == ids.len() as int {
                assert(ids[a] == nids[a]);
            }
        }
    }
    let n = cache(cs.push(c));
    let m = cache(cs).insert(c.id, c.blocks@);
    assert forall|k: ChunkId| #[trigger] n.contains_key(k) == m.contains_key(k) by {
        assert(nids[ids.len() as int] == c.id);
        if ids.contains(k) {
            let j = choose|j: int| 0 <= j < ids.len() && ids[j] == k;
            assert(nids[j] == k);
        }
        if nids.contains(k) && k != c.id {
            let j = choose|j: int| 0 <= j < nids.len() && nids[j] == k;
            assert(ids[j] == k);
        }
    }
    assert forall|k: ChunkId| n.contains_key(k) implies #[trigger] n[k] == m[k] by {
        if k == c.id {
            lemma_cache_at(cs.push(c), cs.len() as int);
        } else {
            let j = nids.index_of(k);
            assert(ids[j] == k);
            lemma_cache_at(cs, j);
            lemma_cache_at(cs.push(c), j);
        }
    }
    assert(n =~= m);
}

impl State {
    /// One `PlayerConnected(player_id)` for each registered player.
    pub fn send_player_connected(&self, player_id: PlayerId) -> (r: Vec<Delivery>)
        ensures
            deliveries(r@) == broadcast(self.players@, ServerMessageView::PlayerConnected(player_id)),
    {
        let mut out: Vec<Delivery> = Vec::new();
        assert(deliveries(out@) =~= Seq::empty());
        self.push_broadcast(&mut out, &ServerMessage::PlayerConnected(player_id));
        assert(deliveries(out@) =~= broadcast(
            self.players@,
            ServerMessageView::PlayerConnected(player_id),
        ));
        out
    }

    /// One `PlayerDisconnected(player_id)` for each registered player.
    pub fn send_player_disconnected(&self, player_id: PlayerId) -> (r: Vec<Delivery>)
        ensures
            deliveries(r@) == broadcast(
                self.players@,
                ServerMessageView::PlayerDisconnected(player_id),
            ),
    {
        let mut out: Vec<Delivery> = Vec::new();
        assert(deliveries(out@) =~= Seq::empty());
        self.push_broadcast(&mut out, &ServerMessage::PlayerDisconnected(player_id));
        assert(deliveries(out@) =~= broadcast(
            self.players@,
            ServerMessageView::PlayerDisconnected(player_id),
        ));
        out
    }

    /// The chat history, oldest first, for registered player `player_id` alone.
    pub fn send_history(&self, player_id: PlayerId) -> (r: Result<Vec<Delivery>, WorldError>)
        ensures
            match outcome(r) {
                Ok(d) => self.registered(player_id) && d == replay(
                    player_id,
                    self.history.messages@,
                ),
                Err(e) => !self.registered(player_id) && e == WorldError::NotRegistered(player_id),
            },
    {
        if self.find_player(player_id).is_none() {
            return Err(WorldError::NotRegistered(player_id));
        }
        let mut out: Vec<Delivery> = Vec::new();
        assert(deliveries(out@) =~= Seq::empty());
        self.push_history(&mut out, player_id);
        assert(deliveries(out@) =~= replay(player_id, self.history.messages@));
        Ok(out)
    }

    /// Registers player `player_id` at the origin. Every registered player,
    /// the new one included, is told that it connected; then the new player
    /// alone gets the chat history, oldest first.
    pub fn player_joined(&mut self, player_id: PlayerId) -> (r: Result<Vec<Delivery>, WorldError>)
        requires
            old(self).wf(),
        ensures
            final(self).wf(),
            joined(*old(self), *final(self), player_id, outcome(r)),
    {
        if self.find_player(player_id).is_some() {
            return Err(WorldError::AlreadyRegistered(player_id));
        }
        let ghost old_ids = player_ids(self.players@);
        self.players.push(PlayerState { id: player_id, position: Position::origin() });
        proof {
            let ids = player_ids(self.players@);
            assert(ids =~= old_ids.push(player_id));
            assert forall|a: int, b: int|
                0 <= a < ids.len() && 0 <= b < ids.len() && a != b implies ids[a] != ids[b] by {
                if a == old_ids.len() as int {
                    assert(old_ids[b] == ids[b]);
                } else if b == old_ids.len() as int {
                    assert(old_ids[a] == ids[a]);
                }
            }
        }
        let mut out = self.send_player_connected(player_id);
        self.push_history(&mut out, player_id);
        Ok(out)
    }

    /// Unregisters player `player_id` and tells every remaining player that it
    /// left.
    pub fn player_left(&mut self, player_id: PlayerId) -> (r: Result<Vec<Delivery>, WorldError>)
        requires
            old(self).wf(),
        ensures
            final(self).wf(),
            left(*old(self), *final(self), player_id, outcome(r)),
    {
        let found = self.find_player(player_id);
        let i = match found {
            Some(i) => i,
            None => {
                return Err(WorldError::NotRegistered(player_id));
            },
        };
        let ghost old_players = self.players@;
        let ghost old_ids = player_ids(self.players@);
        self.players.remove(i);
        proof {
            let ids = player_ids(self.players@);
            assert(ids =~= old_ids.remove(i as int));
            assert(old_ids[i as int] == player_id);
            assert forall|a: int, b: int|
                0 <= a < ids.len() && 0 <= b < ids.len() && a != b implies ids[a] != ids[b] by {
                let oa = if a < i { a } else { a + 1 };
                let ob = if b < i { b } else { b + 1 };
                assert(ids[a] == old_ids[oa]);
                assert(ids[b] == old_ids[ob]);
            }
            if ids.contains(player_id) {
                let k = choose|k: int| 0 <= k < ids.len() && ids[k] == player_id;
                let ok = if k < i { k } else { k + 1 };
                assert(ids[k] == old_ids[ok]);
            }
            assert(0 <= i < old_players.len() && old_players[i as int].id == player_id
                && self.players@ == old_players.remove(i as int));
        }
        let out = self.send_player_disconnected(player_id);
        Ok(out)
    }

    /// Player `player_id` sends chat line `content`, stamped with `time`, the
    /// moment the server received it.
    pub fn send_chat_message(&mut self, player_id: PlayerId, content: String, time: Timestamp) -> (r:
        Result<Vec<Delivery>, WorldError>)
        requires
            old(self).wf(),
        ensures
            final(self).wf(),
            chatted(*old(self), *final(self), player_id, content, time, delivered(outcome(r))),
    {
        if self.find_player(player_id).is_none() {
            return Err(WorldError::NotRegistered(player_id));
        }
        let message = ChatMessage { user_id: player_id, content, time };
        let mut out: Vec<Delivery> = Vec::new();
        assert(deliveries(out@) =~= Seq::empty());
        self.push_broadcast(&mut out, &ServerMessage::ChatMessage(message.duplicate()));
        self.history.append(message);
        assert(deliveries(out@) =~= broadcast(
            self.players@,
            ServerMessageView::ChatMessage(ChatMessage { user_id: player_id, content, time }),
        ));
        Ok(out)
    }

    /// Player `player_id` reports that it is at `position`.
    pub fn update_player_position(&mut self, player_id: PlayerId, position: Position) -> (r: Result<
        Vec<Delivery>,
        WorldError,
    >)
        requires
            old(self).wf(),
        ensures
            final(self).wf(),
            position_updated(
                *old(self),
                *final(self),
                player_id,
                position,
                delivered(outcome(r)),
            ),
    {
        let i = match self.find_player(player_id) {
            Some(i) => i,
            None => {
                return Err(WorldError::NotRegistered(player_id));
            },
        };
        let ghost old_players = self.players@;
        self.players.set(i, PlayerState { id: player_id, position });
        proof {
            assert forall|j: int| 0 <= j < old_players.len() && j != i implies old_players[j].id
                != player_id by {
                assert(player_ids(old_players)[j] == old_players[j].id);
                assert(player_ids(old_players)[i as int] == old_players[i as int].id);
            }
            assert(self.players@ =~= moved(old_players, player_id, position));
            assert(player_ids(self.players@) =~= player_ids(old_players));
        }
        let mut out: Vec<Delivery> = Vec::new();
        assert(deliveries(out@) =~= Seq::empty());
        self.push_broadcast(&mut out, &ServerMessage::PlayerMoved(player_id, position));
        assert(deliveries(out@) =~= broadcast(
            self.players@,
            ServerMessageView::PlayerMoved(player_id, position),
        ));
        Ok(out)
    }

    /// The ids of all registered players, in registration order.
    pub fn list_players(&self) -> (r: Vec<PlayerId>)
        ensures
            r@ == player_ids(self.players@),
    {
        let mut r: Vec<PlayerId> = Vec::with_capacity(self.players.len());
        let mut i: usize = 0;
        while i < self.players.len()
            invariant
                i <= self.players@.len(),
                r@ == player_ids(self.players@.subrange(0, i as int)),
            decreases self.players@.len() - i,
        {
            r.push(self.players[i].id);
            i = i + 1;
            assert(r@ =~= player_ids(self.players@.subrange(0, i as int)));
        }
        assert(self.players@.subrange(0, i as int) =~= self.players@);
        r
    }

    /// The ids of all registered players, for player `player_id` alone.
    pub fn send_player_list(&self, player_id: PlayerId) -> (r: Result<Vec<Delivery>, WorldError>)
        ensures
            players_listed(*self, player_id, delivered(outcome(r))),
    {
        if self.find_player(player_id).is_none() {
            return Err(WorldError::NotRegistered(player_id));
        }
        let ids = self.list_players();
        let d = Delivery { to: player_id, message: ServerMessage::Players(ids) };
        let mut out: Vec<Delivery> = Vec::new();
        out.push(d);
        assert(deliveries(out@) =~= seq![d@]);
        Ok(out)
    }

    /// Player `player_id` asks for chunk `chunk_id`: a cached chunk is sent to
    /// it; otherwise the caller is asked to generate it.
    pub fn send_chunk(&self, player_id: PlayerId, chunk_id: ChunkId) -> (r: Result<Reply, WorldError>)
        requires
            self.wf(),
        ensures
            chunk_requested(*self, player_id, chunk_id, reply_outcome(r)),
    {
        if self.find_player(player_id).is_none() {
            return Err(WorldError::NotRegistered(player_id));
        }
        match self.find_chunk(chunk_id) {
            Some(i) => {
                let d = Delivery { to: player_id, message: ServerMessage::Chunk(self.chunks[i].duplicate()) };
                proof {
                    lemma_cache_at(self.chunks@, i as int);
                }
                let mut out: Vec<Delivery> = Vec::new();
                out.push(d);
                assert(deliveries(out@) =~= seq![d@]);
                Ok(Reply::Deliver(out))
            },
            None => Ok(Reply::Generate(chunk_id)),
        }
    }

    /// Player `player_id` asks for chunk `chunk_id`, with `heights` sampled for
    /// its columns. A cached chunk is sent as it is and `heights` is not used;
    /// otherwise the chunk is built from `heights`, cached, and sent. Either
    /// way only player `player_id` gets it.
    pub fn send_generated_chunk(
        &mut self,
        player_id: PlayerId,
        chunk_id: ChunkId,
        heights: &Vec<u16>,
    ) -> (r: Result<Vec<Delivery>, WorldError>)
        requires
            old(self).wf(),
            heights@.len() == COLUMNS,
        ensures
            final(self).wf(),
            chunk_sent(*old(self), *final(self), player_id, chunk_id, heights@, outcome(r)),
    {
        if self.find_player(player_id).is_none() {
            return Err(WorldError::NotRegistered(player_id));
        }
        let chunk = match self.find_chunk(chunk_id) {
            Some(i) => {
                proof {
                    lemma_cache_at(self.chunks@, i as int);
                }
                self.chunks[i].duplicate()
            },
            None => {
                let c = Chunk::new(chunk_id, heights);
                let kept = c.duplicate();
                let ghost old_chunks = self.chunks@;
                proof {
                    lemma_cache_push(self.chunks@, kept);
                }
                self.chunks.push(kept);
                assert forall|j: int| 0 <= j < self.chunks@.len() implies (
                #[trigger] self.chunks@[j]).wf() by {
                    if j < old_chunks.len() {
                        assert(self.chunks@[j] == old_chunks[j]);
                    }
                }
                c
            },
        };
        let d = Delivery { to: player_id, message: ServerMessage::Chunk(chunk) };
        let mut out: Vec<Delivery> = Vec::new();
        out.push(d);
        assert(deliveries(out@) =~= seq![d@]);
        Ok(out)
    }

    /// Applies one message that player `player_id` sent, received at `time`.
    pub fn handle_player_message(&mut self, msg: PlayerMessage, player_id: PlayerId, time: Timestamp) -> (r: Result<
        Reply,
        WorldError,
    >)
        requires
            old(self).wf(),
        ensures
            final(self).wf(),
            match msg {
                PlayerMessage::Message(content) => chatted(
                    *old(self),
                    *final(self),
                    player_id,
                    content,
                    time,
                    reply_outcome(r),
                ),
                PlayerMessage::UpdatePosition(p) => position_updated(
                    *old(self),
                    *final(self),
                    player_id,
                    p,
                    reply_outcome(r),
                ),
                PlayerMessage::FetchChunk(c) => *final(self) == *old(self) && chunk_requested(
                    *old(self),
                    player_id,
                    c,
                    reply_outcome(r),
                ),
                PlayerMessage::FetchPlayers => *final(self) == *old(self) && players_listed(
                    *old(self),
                    player_id,
                    reply_outcome(r),
                ),
            },
    {
        match msg {
            PlayerMessage::Message(content) => {
                let r = self.send_chat_message(player_id, content, time);
                let out = match r {
                    Ok(d) => Ok(Reply::Deliver(d)),
                    Err(e) => Err(e),
                };
                assert(reply_outcome(out) == delivered(outcome(r)));
                out
            },
            PlayerMessage::UpdatePosition(p) => {
                let r = self.update_player_position(player_id, p);
                let out = match r {
                    Ok(d) => Ok(Reply::Deliver(d)),
                    Err(e) => Err(e),
                };
                assert(reply_outcome(out) == delivered(outcome(r)));
                out
            },
            PlayerMessage::FetchChunk(c) => self.send_chunk(player_id, c),
            PlayerMessage::FetchPlayers => {
                let r = self.send_player_list(player_id);
                let out = match r {
                    Ok(d) => Ok(Reply::Deliver(d)),
                    Err(e) => Err(e),
                };
                assert(reply_outcome(out) == delivered(outcome(r)));
                out
            },
        }
    }
}

/// Requests for chunk `id`, made one after another against cache `c`, the
/// i-th with `hs[i]` as the heights it would generate from: the cache after
/// them, and the cells each one got.
pub open spec fn fetch_all(c: Map<ChunkId, Seq<Option<Block>>>, id: ChunkId, hs: Seq<Seq<u16>>) -> (
    Map<ChunkId, Seq<Option<Block>>>,
    Seq<Seq<Option<Block>>>,
)
    decreases hs.len(),
{
    if hs.len() == 0 {
        (c, Seq::empty())
    } else {
        let before = fetch_all(c, id, hs.drop_last());
        let step = fetch(before.0, id, hs.last());
        (step.0, before.1.push(step.1))
    }
}

/// How many of the requests of `fetch_all(c, id, hs)` generated the chunk.
pub open spec fn generations(c: Map<ChunkId, Seq<Option<Block>>>, id: ChunkId, hs: Seq<Seq<u16>>) -> nat
    decreases hs.len(),
{
    if hs.len() == 0 {
        0
    } else {
        generations(c, id, hs.drop_last()) + if fetch_all(c, id, hs.drop_last()).0.contains_key(id) {
            0nat
        } else {
            1nat
        }
    }
}

/// However many requests for one chunk are made, it is generated once if it
/// was not cached and never if it was, and every request gets the same cells:
/// those of the first.
pub proof fn lemma_chunk_generated_once(
    c: Map<ChunkId, Seq<Option<Block>>>,
    id: ChunkId,
    hs: Seq<Seq<u16>>,
)
    requires
        hs.len() >= 1,
    ensures
        generations(c, id, hs) == if c.contains_key(id) {
            0nat
        } else {
            1nat
        },
        fetch_all(c, id, hs).0 == fetch(c, id, hs[0]).0,
        fetch_all(c, id, hs).1.len() == hs.len(),
        forall|i: int| 0 <= i < hs.len() ==> #[trigger] fetch_all(c, id, hs).1[i] == fetch(c, id, hs[0]).1,
    decreases hs.len(),
{
    if hs.len() == 1 {
        let rest = hs.drop_last();
        assert(rest.len() == 0);
        assert(hs.last() == hs[0]);
        assert(fetch_all(c, id, rest) == (c, Seq::<Seq<Option<Block>>>::empty()));
        assert(generations(c, id, rest) == 0);
        let step = fetch(c, id, hs[0]);
        assert(fetch_all(c, id, hs).1 == Seq::<Seq<Option<Block>>>::empty().push(step.1));
        assert(fetch_all(c, id, hs).1[0] == step.1);
    } else {
        let rest = hs.drop_last();
        lemma_chunk_generated_once(c, id, rest);
        assert(rest[0] == hs[0]);
        let before = fetch_all(c, id, rest);
        assert(before.0.contains_key(id));
        assert forall|i: int| 0 <= i < hs.len() implies #[trigger] fetch_all(c, id, hs).1[i] == fetch(
            c,
            id,
            hs[0],
        ).1 by {
            if i < rest.len() {
                assert(fetch_all(c, id, hs).1[i] == before.1[i]);
            }
        }
    }
}

/// A player that has connected is among the listed players; once it has
/// disconnected it is not.
pub proof fn lemma_joined_then_left(
    s0: State,
    s1: State,
    s2: State,
    p: PlayerId,
    o1: Result<Seq<(PlayerId, ServerMessageView)>, WorldError>,
    o2: Result<Seq<(PlayerId, ServerMessageView)>, WorldError>,
)
    requires
        joined(s0, s1, p, o1),
        left(s1, s2, p, o2),
    ensures
        player_ids(s1.players@).contains(p),
        !player_ids(s2.players@).contains(p),
        o2 is Ok,
{
    if !s0.registered(p) {
        let n = s0.players@.len() as int;
        assert(player_ids(s1.players@)[n] == p);
    }
}

/// Two chat lines sent one after the other, by registered players `a` then
/// `b`: each reaches every registered player, senders included, the first
/// before the second, and the history ends with them in that order.
pub proof fn lemma_chat_reaches_everyone_in_order(
    s0: State,
    s1: State,
    s2: State,
    a: PlayerId,
    b: PlayerId,
    c1: String,
    c2: String,
    t1: Timestamp,
    t2: Timestamp,
    o1: Result<ReplyView, WorldError>,
    o2: Result<ReplyView, WorldError>,
)
    requires
        s0.wf(),
        s0.registered(a),
        s0.registered(b),
        chatted(s0, s1, a, c1, t1, o1),
        chatted(s1, s2, b, c2, t2, o2),
    ensures
        ({
            let m1 = ChatMessage { user_id: a, content: c1, time: t1 };
            let m2 = ChatMessage { user_id: b, content: c2, time: t2 };
            let h = s2.history.messages@;
            &&& o1 == Ok::<ReplyView, WorldError>(
                ReplyView::Deliver(broadcast(s0.players@, ServerMessageView::ChatMessage(m1))),
            )
            &&& o2 == Ok::<ReplyView, WorldError>(
                ReplyView::Deliver(broadcast(s0.players@, ServerMessageView::ChatMessage(m2))),
            )
            &&& forall|q: PlayerId|
                #[trigger] s0.registered(q) ==> broadcast(
                    s0.players@,
                    ServerMessageView::ChatMessage(m1),
                ).contains((q, ServerMessageView::ChatMessage(m1))) && broadcast(
                    s0.players@,
                    ServerMessageView::ChatMessage(m2),
                ).contains((q, ServerMessageView::ChatMessage(m2)))
            &&& h.len() >= 2
            &&& h[h.len() - 2] == m1
            &&& h[h.len() - 1] == m2
        }),
{
    let m1 = ChatMessage { user_id: a, content: c1, time: t1 };
    let m2 = ChatMessage { user_id: b, content: c2, time: t2 };
    assert forall|q: PlayerId| #[trigger] s0.registered(q) implies broadcast(
        s0.players@,
        ServerMessageView::ChatMessage(m1),
    ).contains((q, ServerMessageView::ChatMessage(m1))) && broadcast(
        s0.players@,
        ServerMessageView::ChatMessage(m2),
    ).contains((q, ServerMessageView::ChatMessage(m2))) by {
        let i = choose|i: int| 0 <= i < player_ids(s0.players@).len() && player_ids(s0.players@)[i] == q;
        assert(broadcast(s0.players@, ServerMessageView::ChatMessage(m1))[i] == (q, ServerMessageView::ChatMessage(m1)));
        assert(broadcast(s0.players@, ServerMessageView::ChatMessage(m2))[i] == (q, ServerMessageView::ChatMessage(m2)));
    }
    let h0 = s0.history.messages@;
    lemma_keep_latest_push(h0.push(m1), m2);
    let full = h0.push(m1).push(m2);
    let h = s2.history.messages@;
    assert(h == keep_latest(full));
    assert(h[h.len() - 2] == full[full.len() - 2]);
    assert(h[h.len() - 1] == full[full.len() - 1]);
}

/// Requests for one chunk by registered players, one after another: the
/// first generates it if it is not cached, the second finds it cached and
/// leaves the cache as it is, and both requesters, as well as any later
/// `send_chunk` for it, get the same cells.
pub proof fn lemma_chunk_requests_share_cells(
    s0: State,
    s1: State,
    s2: State,
    p: PlayerId,
    q: PlayerId,
    chunk_id: ChunkId,
    h1: Seq<u16>,
    h2: Seq<u16>,
    o1: Result<Seq<(PlayerId, ServerMessageView)>, WorldError>,
    o2: Result<Seq<(PlayerId, ServerMessageView)>, WorldError>,
    o3: Result<ReplyView, WorldError>,
)
    requires
        s0.registered(p),
        s0.registered(q),
        chunk_sent(s0, s1, p, chunk_id, h1, o1),
        chunk_sent(s1, s2, q, chunk_id, h2, o2),
        chunk_requested(s2, q, chunk_id, o3),
    ensures
        ({
            let cells = fetch(cache(s0.chunks@), chunk_id, h1).1;
            &&& cache(s1.chunks@).contains_key(chunk_id)
            &&& cache(s1.chunks@)[chunk_id] == cells
            &&& cache(s2.chunks@) == cache(s1.chunks@)
            &&& o1 == Ok::<Seq<(PlayerId, ServerMessageView)>, WorldError>(
                seq![(p, ServerMessageView::Chunk(chunk_id, cells))],
            )
            &&& o2 == Ok::<Seq<(PlayerId, ServerMessageView)>, WorldError>(
                seq![(q, ServerMessageView::Chunk(chunk_id, cells))],
            )
            &&& o3 == Ok::<ReplyView, WorldError>(
                ReplyView::Deliver(seq![(q, ServerMessageView::Chunk(chunk_id, cells))]),
            )
        }),
{
}

} // verus!
