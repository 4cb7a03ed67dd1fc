use vstd::prelude::*;

use crate::protocol::ChatMessage;

verus! {

/// Number of chat messages kept for replay.
pub const HISTORY_SIZE: usize = 50;

/// The most recent chat messages, oldest first.
pub struct History {
    pub messages: Vec<ChatMessage>,
}

/// The last `HISTORY_SIZE` elements of `s`, or all of them when there are fewer.
pub open spec fn keep_latest(s: Seq<ChatMessage>) -> Seq<ChatMessage> {
    if s.len() > HISTORY_SIZE {
        s.subrange(s.len() - HISTORY_SIZE, s.len() as int)
    } else {
        s
    }
}

/// History `h` after `m` is appended to it.
pub open spec fn appended(h: Seq<ChatMessage>, m: ChatMessage) -> Seq<ChatMessage> {
    keep_latest(h.push(m))
}

/// History `h` after each message of `ms` is appended to it in turn.
pub open spec fn appended_all(h: Seq<ChatMessage>, ms: Seq<ChatMessage>) -> Seq<ChatMessage>
    decreases ms.len(),
{
    if ms.len() == 0 {
        h
    } else {
        appended(appended_all(h, ms.drop_last()), ms.last())
    }
}

impl History {
    /// A history never holds more than `HISTORY_SIZE` messages.
    pub open spec fn wf(&self) -> bool {
        self.messages@.len() <= HISTORY_SIZE
    }

    /// An empty history.
    pub fn new() -> (r: History)
        ensures
            r.wf(),
            r.messages@ == Seq::<ChatMessage>::empty(),
    {
        History { messages: Vec::with_capacity(HISTORY_SIZE) }
    }

    /// Appends `m`, dropping the oldest message when the history is full.
    pub fn append(&mut self, m: ChatMessage)
        requires
            old(self).wf(),
        ensures
            final(self).wf(),
            final(self).messages@ == appended(old(self).messages@, m),
    {
        if self.messages.len() == HISTORY_SIZE {
            self.messages.remove(0);
        }
        self.messages.push(m);
        assert(self.messages@ =~= appended(old(self).messages@, m));
    }

    /// A copy of the messages, oldest first.
    pub fn snapshot(&self) -> (r: Vec<ChatMessage>)
        ensures
            r@ == self.messages@,
    {
        let mut r: Vec<ChatMessage> = Vec::with_capacity(self.messages.len());
        let mut i: usize = 0;
        while i < self.messages.len()
            invariant
                i <= self.messages@.len(),
                r@ == self.messages@.subrange(0, i as int),
            decreases self.messages@.len() - i,
        {
            r.push(self.messages[i].duplicate());
            i = i + 1;
            assert(r@ =~= self.messages@.subrange(0, i as int));
        }
        assert(r@ =~= self.messages@);
        r
    }
}

/// Trimming a history before appending to it, or only after, keeps the same
/// messages.
pub proof fn lemma_keep_latest_push(s: Seq<ChatMessage>, m: ChatMessage)
    ensures
        keep_latest(keep_latest(s).push(m)) == keep_latest(s.push(m)),
{
    if s.len() > HISTORY_SIZE {
        assert(keep_latest(keep_latest(s).push(m)) =~= keep_latest(s.push(m)));
    }
}

/// Appending messages one by one to a history keeps the latest
/// `HISTORY_SIZE` of all of them, in the order of insertion.
pub proof fn lemma_history_keeps_latest(h: Seq<ChatMessage>, ms: Seq<ChatMessage>)
    requires
        h.len() <= HISTORY_SIZE,
    ensures
        appended_all(h, ms) == keep_latest(h + ms),
        appended_all(h, ms).len() <= HISTORY_SIZE,
    decreases ms.len(),
{
    if ms.len() == 0 {
        assert(h + ms =~= h);
    } else {
        lemma_history_keeps_latest(h, ms.drop_last());
        lemma_keep_latest_push(h + ms.drop_last(), ms.last());
        assert((h + ms.drop_last()).push(ms.last()) =~= h + ms);
    }
}

/// Once `HISTORY_SIZE + 1` messages have been appended to an empty history,
/// the first is gone and the other `HISTORY_SIZE` remain in insertion order.
pub proof fn lemma_history_evicts_oldest(ms: Seq<ChatMessage>)
    requires
        ms.len() == HISTORY_SIZE + 1,
    ensures
        appended_all(Seq::empty(), ms) == ms.drop_first(),
        appended_all(Seq::empty(), ms).len() == HISTORY_SIZE,
{
    lemma_history_keeps_latest(Seq::empty(), ms);
    assert(Seq::<ChatMessage>::empty() + ms =~= ms);
    assert(ms.subrange(1, ms.len() as int) =~= ms.drop_first());
}

} // verus!
