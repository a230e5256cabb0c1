//! The connection registry: for each user, the channels of the devices that
//! are connected right now.

use vstd::prelude::*;
use std::sync::mpsc::Sender;
use crate::channel::{
    kept, lemma_kept_serials, offer, retain_accepted, serials_below, serials_distinct,
    DeliveryChannel,
};
use crate::sendables::Sendable;
use crate::user::{UserIdentifier, UserMap};

verus! {

/// The live channels of every user, in the order in which they connected.
pub struct ConnectionRegistry {
    channels: UserMap<Vec<DeliveryChannel>>,
    issued: Ghost<nat>,
}

/// What the registry holds.
pub struct RegistryView {
    /// The channels registered for each username, in the order in which
    /// they connected; the empty list for a user without any.
    pub channels: Map<Seq<char>, Seq<DeliveryChannel>>,
    /// How many channels were registered so far; the next one gets this
    /// number as its serial.
    pub issued: nat,
}

impl View for ConnectionRegistry {
    type V = RegistryView;

    closed spec fn view(&self) -> RegistryView {
        RegistryView { channels: self.channels.lists(), issued: self.issued@ }
    }
}

impl ConnectionRegistry {
    /// The serial numbers of a user's channels differ, and each is one that
    /// was issued.
    pub closed spec fn wf(&self) -> bool {
        &&& self.channels.wf()
        &&& forall|name: Seq<char>| #[trigger] serials_distinct(self@.channels[name])
        &&& forall|name: Seq<char>| #[trigger] serials_below(self@.channels[name], self@.issued)
    }

    /// What `wf` says of the channels of one user.
    pub proof fn lemma_serials(&self, name: Seq<char>)
        requires
            self.wf(),
        ensures
            serials_distinct(self@.channels[name]),
            serials_below(self@.channels[name], self@.issued),
    {
    }

    pub fn new() -> (registry: Self)
        ensures
            registry.wf(),
            registry@.issued == 0,
            forall|name: Seq<char>| #[trigger]
                registry@.channels[name] == Seq::<DeliveryChannel>::empty(),
    {
        Self { channels: UserMap::new(), issued: Ghost(0) }
    }

    /// The number of channels registered for `user`.
    pub fn live(&self, user: &UserIdentifier) -> (count: usize)
        requires
            self.wf(),
        ensures
            count == self@.channels[user@].len(),
    {
        match self.channels.get(user) {
            Some(list) => list.len(),
            None => 0,
        }
    }

    /// Registers a channel for `user`, behind those they have already.
    pub fn attach(&mut self, user: &UserIdentifier, sender: Sender<Sendable>)
        requires
            old(self).wf(),
        ensures
            final(self).wf(),
            final(self)@.issued == old(self)@.issued + 1,
            final(self)@.channels == old(self)@.channels.insert(
                user@,
                final(self)@.channels[user@],
            ),
            final(self)@.channels[user@].len() == old(self)@.channels[user@].len() + 1,
            final(self)@.channels[user@].drop_last() == old(self)@.channels[user@],
            final(self)@.channels[user@].last().serial() == old(self)@.issued,
            final(self)@.channels[user@].last().sender() == sender,
    {
        let ghost before = self@.channels;
        let ghost serial = self.issued@;
        assert(serial == self@.issued);
        assert(forall|name: Seq<char>| #[trigger] serials_below(before[name], serial));
        assert(forall|name: Seq<char>| #[trigger] serials_distinct(before[name]));
        let mut list = match self.channels.remove(user) {
            Some(list) => list,
            None => Vec::new(),
        };
        assert(list@ == before[user@]);
        let channel = DeliveryChannel::new(sender, Ghost(serial));
        list.push(channel);
        self.channels.insert(user.clone(), list);
        self.issued = Ghost(serial + 1);
        proof {
            let after = self@.channels;
            assert(after[user@] == before[user@].push(channel));
            assert(after[user@].drop_last() =~= before[user@]);
            assert(after =~= before.insert(user@, after[user@]));
            assert(serials_distinct(before[user@]));
            assert(serials_below(before[user@], serial));
            assert forall|name: Seq<char>| #[trigger] serials_distinct(after[name]) by {
                if name == user@ {
                    assert forall|i: int, j: int| 0 <= i < j < after[name].len() implies (
                    #[trigger] after[name][i]).serial() != (#[trigger] after[name][j]).serial() by {
                        if j < before[name].len() {
                            assert(before[name][i].serial() != before[name][j].serial());
                        } else {
                            assert(before[name][i].serial() < serial);
                        }
                    }
                } else {
                    assert(after[name] == before[name]);
                    assert(serials_distinct(before[name]));
                }
            }
            assert forall|name: Seq<char>| #[trigger] serials_below(after[name], serial + 1) by {
                assert(serials_below(before[name], serial));
                if name == user@ {
                    assert forall|i: int| 0 <= i < after[name].len() implies (
                    #[trigger] after[name][i]).serial() < serial + 1 by {
                        if i < before[name].len() {
                            assert(before[name][i].serial() < serial);
                        }
                    }
                } else {
                    assert(after[name] == before[name]);
                    assert forall|i: int| 0 <= i < after[name].len() implies (
                    #[trigger] after[name][i]).serial() < serial + 1 by {
                        assert(before[name][i].serial() < serial);
                    }
                }
            }
        }
    }

    /// The channels that are registered for `user` at this moment, in the
    /// order in which they connected.
    pub fn snapshot(&self, user: &UserIdentifier) -> (channels: Option<&Vec<DeliveryChannel>>)
        requires
            self.wf(),
        ensures
            match channels {
                Some(list) => list@ == self@.channels[user@],
                None => self@.channels[user@] == Seq::<DeliveryChannel>::empty(),
            },
    {
        self.channels.get(user)
    }

    /// Drops the channels of `user` that did not take an event, by the
    /// answers `accepted` of one push to each. A channel without an answer
    /// is dropped.
    pub fn detach_failed(&mut self, user: &UserIdentifier, accepted: &Vec<bool>)
        requires
            old(self).wf(),
        ensures
            final(self).wf(),
            final(self)@.issued == old(self)@.issued,
            final(self)@.channels == old(self)@.channels.insert(
                user@,
                kept(old(self)@.channels[user@], accepted@),
            ),
    {
        let ghost before = self@.channels;
        let ghost bound = self@.issued;
        assert(forall|name: Seq<char>| #[trigger] serials_below(before[name], bound));
        assert(forall|name: Seq<char>| #[trigger] serials_distinct(before[name]));
        match self.channels.remove(user) {
            Some(mut list) => {
                assert(list@ == before[user@]);
                retain_accepted(&mut list, accepted);
                self.channels.insert(user.clone(), list);
                proof {
                    let after = self@.channels;
                    assert(after =~= before.insert(user@, kept(before[user@], accepted@)));
                    assert(serials_distinct(before[user@]));
                    assert(self@.issued == bound);
                    assert(serials_below(before[user@], bound));
                    lemma_kept_serials(before[user@], accepted@, bound);
                    assert forall|name: Seq<char>| #[trigger] serials_distinct(after[name]) by {
                        if name != user@ {
                            assert(after[name] == before[name]);
                            assert(serials_distinct(before[name]));
                        }
                    }
                    assert forall|name: Seq<char>| #[trigger] serials_below(after[name], bound) by {
                        if name != user@ {
                            assert(after[name] == before[name]);
                            assert(serials_below(before[name], bound));
                        }
                    }
                }
            },
            None => {
                proof {
                    assert(self.channels@ =~= old(self).channels@);
                    assert(self@.issued == bound);
                    assert(before[user@] =~= Seq::<DeliveryChannel>::empty());
                    assert(self@.channels =~= before.insert(user@, kept(before[user@], accepted@)));
                }
            },
        }
    }

    /// Pushes `sendable` once to each channel that is registered for `user`,
    /// in order, and drops the channels that did not take it. The answers
    /// come back in the order of the pushes.
    pub fn push_all(&mut self, user: &UserIdentifier, sendable: &Sendable) -> (accepted: Vec<bool>)
        requires
            old(self).wf(),
        ensures
            final(self).wf(),
            final(self)@.issued == old(self)@.issued,
            accepted@.len() == old(self)@.channels[user@].len(),
            final(self)@.channels == old(self)@.channels.insert(
                user@,
                kept(old(self)@.channels[user@], accepted@),
            ),
    {
        let accepted = match self.snapshot(user) {
            Some(channels) => offer(channels, sendable),
            None => Vec::new(),
        };
        self.detach_failed(user, &accepted);
        accepted
    }
}

} // verus!
