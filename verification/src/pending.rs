//! The pending queue: what could not be delivered to a user, kept until
//! their next connection.

use vstd::prelude::*;
use crate::sendables::Sendable;
use crate::user::{UserIdentifier, UserMap};

verus! {

/// A chat message that waits for its reader to acknowledge it: the chat,
/// the id that the message has in the chat, and the event that carries it.
pub struct PendingMessage {
    pub chat: u32,
    pub id: u32,
    pub sendable: Sendable,
}

/// The messages of `list` but the message `id` of `chat`, in their order.
pub open spec fn without_id(list: Seq<PendingMessage>, chat: u32, id: u32) -> Seq<PendingMessage> {
    list.filter(|m: PendingMessage| !(m.chat == chat && m.id == id))
}

/// The events of the messages in `list`, in their order.
pub open spec fn sendables_of(list: Seq<PendingMessage>) -> Seq<Sendable> {
    list.map_values(|m: PendingMessage| m.sendable)
}

/// Whether `list` holds the message `id` of `chat`.
pub open spec fn holds_id(list: Seq<PendingMessage>, chat: u32, id: u32) -> bool {
    exists|i: int| 0 <= i < list.len() && (#[trigger] list[i]).chat == chat && list[i].id == id
}

/// What waits for each user: events of any kind in the order in which
/// they were queued, and chat messages by chat and id.
pub struct PendingQueue {
    sendables: UserMap<Vec<Sendable>>,
    messages: UserMap<Vec<PendingMessage>>,
}

impl PendingQueue {
    /// The events that wait for each user, oldest first; the empty list for
    /// a user without any.
    pub closed spec fn queued(&self) -> Map<Seq<char>, Seq<Sendable>> {
        self.sendables.lists()
    }

    /// The chat messages that each user has not acknowledged, in the order
    /// in which they were queued.
    pub closed spec fn unacknowledged(&self) -> Map<Seq<char>, Seq<PendingMessage>> {
        self.messages.lists()
    }

    /// Both maps hold every user once.
    pub closed spec fn wf(&self) -> bool {
        self.sendables.wf() && self.messages.wf()
    }

    /// What a user is sent on connecting: the chat messages they have not
    /// acknowledged, and behind them the events that wait for them.
    pub open spec fn replay(&self, name: Seq<char>) -> Seq<Sendable> {
        sendables_of(self.unacknowledged()[name]) + self.queued()[name]
    }

    pub fn new() -> (queue: Self)
        ensures
            queue.wf(),
            forall|name: Seq<char>| #[trigger] queue.queued()[name] == Seq::<Sendable>::empty(),
            forall|name: Seq<char>| #[trigger]
                queue.unacknowledged()[name] == Seq::<PendingMessage>::empty(),
    {
        Self { sendables: UserMap::new(), messages: UserMap::new() }
    }

    /// The events that wait, by user.
    pub fn sendables(&self) -> (held: &UserMap<Vec<Sendable>>)
        requires
            self.wf(),
        ensures
            held.wf(),
            held.lists() == self.queued(),
    {
        &self.sendables
    }

    /// The chat messages that are not acknowledged, by user.
    pub fn messages(&self) -> (held: &UserMap<Vec<PendingMessage>>)
        requires
            self.wf(),
        ensures
            held.wf(),
            held.lists() == self.unacknowledged(),
    {
        &self.messages
    }

    /// Queues `sendable` for `user`, behind what waits for them already.
    pub fn enqueue(&mut self, user: &UserIdentifier, sendable: Sendable)
        requires
            old(self).wf(),
        ensures
            final(self).wf(),
            final(self).queued() == old(self).queued().insert(
                user@,
                old(self).queued()[user@].push(sendable),
            ),
            final(self).unacknowledged() == old(self).unacknowledged(),
    {
        let mut list = match self.sendables.remove(user) {
            Some(list) => list,
            None => Vec::new(),
        };
        list.push(sendable);
        self.sendables.insert(user.clone(), list);
        assert(self.queued() =~= old(self).queued().insert(
            user@,
            old(self).queued()[user@].push(sendable),
        ));
    }

    /// Keeps the message `id` of `chat` for `user` until they acknowledge
    /// it, in place of the same message where it is kept already.
    pub fn enqueue_message(&mut self, user: &UserIdentifier, chat: u32, id: u32, sendable: Sendable)
        requires
            old(self).wf(),
        ensures
            final(self).wf(),
            final(self).unacknowledged() == old(self).unacknowledged().insert(
                user@,
                without_id(old(self).unacknowledged()[user@], chat, id).push(
                    PendingMessage { chat, id, sendable },
                ),
            ),
            final(self).queued() == old(self).queued(),
    {
        let mut list = match self.messages.remove(user) {
            Some(list) => list,
            None => Vec::new(),
        };
        let ghost held = list@;
        assert(held == old(self).unacknowledged()[user@]);
        let _ = drop_id(&mut list, chat, id);
        list.push(PendingMessage { chat, id, sendable });
        self.messages.insert(user.clone(), list);
        assert(self.unacknowledged() =~= old(self).unacknowledged().insert(
            user@,
            without_id(held, chat, id).push(PendingMessage { chat, id, sendable }),
        ));
    }

    /// Hands out the events that wait for `user`, oldest first, and keeps
    /// none of them.
    pub fn drain(&mut self, user: &UserIdentifier) -> (drained: Vec<Sendable>)
        requires
            old(self).wf(),
        ensures
            final(self).wf(),
            drained@ == old(self).queued()[user@],
            final(self).queued() == old(self).queued().insert(user@, Seq::empty()),
            final(self).unacknowledged() == old(self).unacknowledged(),
    {
        let drained = match self.sendables.remove(user) {
            Some(list) => list,
            None => Vec::new(),
        };
        assert(self.queued() =~= old(self).queued().insert(user@, Seq::empty()));
        drained
    }

    /// Forgets the message `id` of `chat` that waits for `user`. The answer
    /// is whether it was kept.
    pub fn acknowledge(&mut self, user: &UserIdentifier, chat: u32, id: u32) -> (removed: bool)
        requires
            old(self).wf(),
        ensures
            final(self).wf(),
            removed == holds_id(old(self).unacknowledged()[user@], chat, id),
            final(self).unacknowledged() == old(self).unacknowledged().insert(
                user@,
                without_id(old(self).unacknowledged()[user@], chat, id),
            ),
            final(self).queued() == old(self).queued(),
    {
        match self.messages.remove(user) {
            Some(mut list) => {
                let ghost held = list@;
                let removed = drop_id(&mut list, chat, id);
                self.messages.insert(user.clone(), list);
                assert(self.unacknowledged() =~= old(self).unacknowledged().insert(
                    user@,
                    without_id(held, chat, id),
                ));
                removed
            },
            None => {
                proof {
                    reveal(Seq::filter);
                    let held = old(self).unacknowledged()[user@];
                    assert(held =~= Seq::<PendingMessage>::empty());
                    assert(without_id(held, chat, id) =~= held);
                    assert(self.messages@ =~= old(self).messages@);
                    assert(self.unacknowledged() =~= old(self).unacknowledged().insert(
                        user@,
                        without_id(held, chat, id),
                    ));
                }
                false
            },
        }
    }

    /// A copy of the chat messages that `user` has not acknowledged.
    pub fn unacknowledged_of(&self, user: &UserIdentifier) -> (copies: Vec<Sendable>)
        requires
            self.wf(),
        ensures
            copies@ == sendables_of(self.unacknowledged()[user@]),
    {
        let mut copies: Vec<Sendable> = Vec::new();
        match self.messages.get(user) {
            Some(list) => {
                let mut i: usize = 0;
                while i < list.len()
                    invariant
                        i <= list@.len(),
                        copies@ == sendables_of(list@.take(i as int)),
                    decreases list@.len() - i,
                {
                    copies.push(list[i].sendable.clone());
                    assert(copies@ =~= sendables_of(list@.take(i + 1)));
                    i = i + 1;
                }
                assert(list@.take(i as int) =~= list@);
            },
            None => {
                assert(copies@ =~= sendables_of(self.unacknowledged()[user@]));
            },
        }
        copies
    }

    /// What `user` is sent on connecting. The events that waited are handed
    /// out and forgotten; the chat messages stay until they are acknowledged.
    pub fn take_replay(&mut self, user: &UserIdentifier) -> (replay: Vec<Sendable>)
        requires
            old(self).wf(),
        ensures
            final(self).wf(),
            replay@ == old(self).replay(user@),
            final(self).queued() == old(self).queued().insert(user@, Seq::empty()),
            final(self).unacknowledged() == old(self).unacknowledged(),
    {
        let mut replay = self.unacknowledged_of(user);
        let mut drained = self.drain(user);
        replay.append(&mut drained);
        replay
    }
}

/// Takes the message `id` of `chat` out of `list`, as often as it is held.
/// The answer is whether it was held.
pub fn drop_id(list: &mut Vec<PendingMessage>, chat: u32, id: u32) -> (removed: bool)
    ensures
        final(list)@ == without_id(old(list)@, chat, id),
        removed == holds_id(old(list)@, chat, id),
{
    let ghost all = list@;
    let ghost differs = |m: PendingMessage| !(m.chat == chat && m.id == id);
    let total = list.len();
    let mut done: usize = 0;
    let mut at: usize = 0;
    let mut removed = false;
    proof {
        reveal(Seq::filter);
        assert(all.take(0) =~= Seq::<PendingMessage>::empty());
        assert(list@ =~= all.take(0).filter(differs) + all.skip(0));
    }
    while done < total
        invariant
            total == all.len(),
            done <= total,
            differs == |m: PendingMessage| !(m.chat == chat && m.id == id),
            at == all.take(done as int).filter(differs).len(),
            list@ == all.take(done as int).filter(differs) + all.skip(done as int),
            removed == holds_id(all.take(done as int), chat, id),
        decreases total - done,
    {
        let ghost seen = all.take(done as int);
        let ghost kept = seen.filter(differs);
        assert(list@[at as int] == all.skip(done as int)[0]);
        let live = list.len();
        assert(at < live);
        proof {
            assert(all.take(done + 1) =~= seen.push(all[done as int]));
            seen.lemma_filter_push(all[done as int], differs);
        }
        if list[at].chat == chat && list[at].id == id {
            list.remove(at);
            removed = true;
            assert(list@ =~= kept + all.skip(done + 1));
            let ghost found = all.take(done + 1)[done as int];
            assert(found.chat == chat && found.id == id);
        } else {
            at = at + 1;
            assert(list@ =~= kept.push(all[done as int]) + all.skip(done + 1));
            proof {
                if holds_id(all.take(done + 1), chat, id) {
                    let i = choose|i: int|
                        0 <= i < all.take(done + 1).len() && (#[trigger] all.take(done + 1)[i]).chat
                            == chat && all.take(done + 1)[i].id == id;
                    assert(seen[i].chat == chat && seen[i].id == id);
                }
                if holds_id(seen, chat, id) {
                    let i = choose|i: int|
                        0 <= i < seen.len() && (#[trigger] seen[i]).chat == chat && seen[i].id
                            == id;
                    assert(all.take(done + 1)[i].chat == chat && all.take(done + 1)[i].id == id);
                }
            }
        }
        done = done + 1;
    }
    assert(all.take(total as int) =~= all);
    assert(list@ =~= without_id(all, chat, id));
    removed
}

} // verus!
