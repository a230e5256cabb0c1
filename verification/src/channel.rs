//! Live connections: the sending end that the registry keeps for each
//! device, and the pushing of one event to all of a user's devices.

use vstd::prelude::*;
use std::sync::mpsc::{Receiver, Sender};
use crate::sendables::Sendable;

verus! {

/// `std::sync::mpsc::Sender`: the sending end of a channel. Opaque.
#[verifier::external_type_specification]
#[verifier::external_body]
#[verifier::reject_recursive_types(T)]
pub struct ExSender<T>(Sender<T>);

/// `std::sync::mpsc::Receiver`: the receiving end of a channel. Opaque.
#[verifier::external_type_specification]
#[verifier::external_body]
#[verifier::reject_recursive_types(T)]
pub struct ExReceiver<T>(Receiver<T>);

/// The sending end of one live connection. Each channel that is ever
/// registered gets a serial number of its own, by which it is told apart.
pub struct DeliveryChannel {
    serial: Ghost<nat>,
    sender: Sender<Sendable>,
}

impl DeliveryChannel {
    /// The number that tells this channel apart from every other.
    pub closed spec fn serial(&self) -> nat {
        self.serial@
    }

    /// The sending end that the channel pushes to.
    pub closed spec fn sender(&self) -> Sender<Sendable> {
        self.sender
    }

    pub(crate) fn new(sender: Sender<Sendable>, Ghost(serial): Ghost<nat>) -> (channel: Self)
        ensures
            channel.serial() == serial,
            channel.sender() == sender,
    {
        DeliveryChannel { serial: Ghost(serial), sender }
    }

    /// `std::sync::mpsc::Sender::send`: hands `sendable` to the channel
    /// without blocking. The answer is whether the channel took it; it does
    /// not once the receiving end is gone. Nothing is claimed of the answer.
    #[verifier::external_body]
    fn push(&self, sendable: Sendable) -> (accepted: bool) {
        self.sender.send(sendable).is_ok()
    }
}

/// `std::sync::mpsc::channel`: a new channel, as its two ends. Nothing is
/// claimed of them.
#[verifier::external_body]
pub(crate) fn open_pair() -> (ends: (Sender<Sendable>, Receiver<Sendable>)) {
    std::sync::mpsc::channel()
}

/// Whether the channel at position `i` took the event. A channel without
/// an answer did not.
pub open spec fn took(accepted: Seq<bool>, i: int) -> bool {
    0 <= i < accepted.len() && accepted[i]
}

/// The channels that stay registered after one push to each: those that
/// took the event, in their order.
pub open spec fn kept<C>(channels: Seq<C>, accepted: Seq<bool>) -> Seq<C>
    decreases channels.len(),
{
    if channels.len() == 0 {
        Seq::empty()
    } else {
        let before = kept(channels.drop_last(), accepted);
        if took(accepted, channels.len() - 1) {
            before.push(channels.last())
        } else {
            before
        }
    }
}

/// Whether at least one push was taken.
pub open spec fn any_accepted(accepted: Seq<bool>) -> bool {
    accepted.contains(true)
}

/// No two of the channels have the same serial number.
pub open spec fn serials_distinct(channels: Seq<DeliveryChannel>) -> bool {
    forall|i: int, j: int|
        0 <= i < j < channels.len() ==> (#[trigger] channels[i]).serial() != (
        #[trigger] channels[j]).serial()
}

/// Every serial number of the channels is below `bound`.
pub open spec fn serials_below(channels: Seq<DeliveryChannel>, bound: nat) -> bool {
    forall|i: int| 0 <= i < channels.len() ==> (#[trigger] channels[i]).serial() < bound
}

/// The position in `channels` from which the kept channel at position `k`
/// comes.
pub open spec fn kept_from<C>(channels: Seq<C>, accepted: Seq<bool>, k: int) -> int
    decreases channels.len(),
{
    if channels.len() == 0 {
        0
    } else if k < kept(channels.drop_last(), accepted).len() {
        kept_from(channels.drop_last(), accepted, k)
    } else {
        channels.len() - 1
    }
}

/// The kept channel at position `k` is a channel that took the event: the
/// one at position `kept_from(.., k)`. Positions keep their order.
pub proof fn lemma_kept_source<C>(channels: Seq<C>, accepted: Seq<bool>, k: int) -> (i: int)
    requires
        0 <= k < kept(channels, accepted).len(),
    ensures
        i == kept_from(channels, accepted, k),
        0 <= i < channels.len(),
        took(accepted, i),
        channels[i] == kept(channels, accepted)[k],
        forall|earlier: int|
            0 <= earlier < k ==> #[trigger] kept_from(channels, accepted, earlier) < kept_from(
                channels,
                accepted,
                k,
            ),
    decreases channels.len(),
{
    let front = channels.drop_last();
    let before = kept(front, accepted);
    if k < before.len() {
        let i = lemma_kept_source(front, accepted, k);
        assert forall|earlier: int| 0 <= earlier < k implies #[trigger] kept_from(
            channels,
            accepted,
            earlier,
        ) < kept_from(channels, accepted, k) by {
            assert(kept_from(front, accepted, earlier) < kept_from(front, accepted, k));
        }
        i
    } else {
        assert forall|earlier: int| 0 <= earlier < k implies #[trigger] kept_from(
            channels,
            accepted,
            earlier,
        ) < kept_from(channels, accepted, k) by {
            let j = lemma_kept_source(front, accepted, earlier);
        }
        channels.len() - 1
    }
}

/// A channel that took the event is kept.
pub proof fn lemma_kept_holds<C>(channels: Seq<C>, accepted: Seq<bool>, i: int)
    requires
        0 <= i < channels.len(),
        took(accepted, i),
    ensures
        kept(channels, accepted).contains(channels[i]),
    decreases channels.len(),
{
    let front = channels.drop_last();
    let before = kept(front, accepted);
    let out = kept(channels, accepted);
    if i < channels.len() - 1 {
        lemma_kept_holds(front, accepted, i);
        let k = choose|k: int| 0 <= k < before.len() && before[k] == front[i];
        assert(out[k] == channels[i]);
    } else {
        assert(out[out.len() - 1] == channels[i]);
    }
}

/// Where each channel has its answer, channels are kept exactly where at
/// least one push was taken.
pub proof fn lemma_kept_any<C>(channels: Seq<C>, accepted: Seq<bool>)
    requires
        accepted.len() == channels.len(),
    ensures
        any_accepted(accepted) <==> kept(channels, accepted).len() > 0,
{
    if any_accepted(accepted) {
        let i = choose|i: int| 0 <= i < accepted.len() && accepted[i] == true;
        lemma_kept_holds(channels, accepted, i);
    }
    if kept(channels, accepted).len() > 0 {
        let i = lemma_kept_source(channels, accepted, 0);
        assert(accepted[i] == true);
    }
}

/// Where every push was taken, every channel is kept.
pub proof fn lemma_kept_all<C>(channels: Seq<C>, accepted: Seq<bool>)
    requires
        accepted.len() == channels.len(),
        forall|i: int| 0 <= i < accepted.len() ==> accepted[i],
    ensures
        kept(channels, accepted) == channels,
{
    lemma_kept_prefix(channels, accepted, channels.len() as int);
    assert(channels.take(channels.len() as int) =~= channels);
}

/// Where the first `n` pushes were taken, the first `n` channels are kept
/// of the first `n`.
proof fn lemma_kept_prefix<C>(channels: Seq<C>, accepted: Seq<bool>, n: int)
    requires
        0 <= n <= channels.len(),
        forall|i: int| 0 <= i < n ==> took(accepted, i),
    ensures
        kept(channels.take(n), accepted) == channels.take(n),
    decreases n,
{
    if n > 0 {
        lemma_kept_prefix(channels, accepted, n - 1);
        assert(channels.take(n).drop_last() =~= channels.take(n - 1));
        assert(took(accepted, n - 1));
        assert(kept(channels.take(n), accepted) =~= channels.take(n));
    } else {
        assert(kept(channels.take(n), accepted) =~= channels.take(n));
    }
}

/// Kept channels keep their serial numbers apart and below the bound, and
/// none of them has the serial number of a channel that did not take the
/// event.
pub proof fn lemma_kept_serials(channels: Seq<DeliveryChannel>, accepted: Seq<bool>, bound: nat)
    requires
        serials_distinct(channels),
        serials_below(channels, bound),
    ensures
        serials_distinct(kept(channels, accepted)),
        serials_below(kept(channels, accepted), bound),
        forall|i: int, k: int|
            0 <= i < channels.len() && !took(accepted, i) && 0 <= k < kept(
                channels,
                accepted,
            ).len() ==> (#[trigger] kept(channels, accepted)[k]).serial() != (
            #[trigger] channels[i]).serial(),
{
    let out = kept(channels, accepted);
    assert forall|a: int, b: int| 0 <= a < b < out.len() implies (#[trigger] out[a]).serial() != (
    #[trigger] out[b]).serial() by {
        let i = lemma_kept_source(channels, accepted, a);
        let j = lemma_kept_source(channels, accepted, b);
        assert(i < j);
        assert(channels[i].serial() != channels[j].serial());
    }
    assert forall|k: int| 0 <= k < out.len() implies (#[trigger] out[k]).serial() < bound by {
        let i = lemma_kept_source(channels, accepted, k);
        assert(channels[i].serial() < bound);
    }
    assert forall|i: int, k: int|
        0 <= i < channels.len() && !took(accepted, i) && 0 <= k < out.len() implies (
    #[trigger] out[k]).serial() != (#[trigger] channels[i]).serial() by {
        let j = lemma_kept_source(channels, accepted, k);
        if i < j {
            assert(channels[i].serial() != channels[j].serial());
        } else {
            assert(channels[j].serial() != channels[i].serial());
        }
    }
}

/// Pushes `sendable` once to each of `channels`, in order. The answers come
/// back in the order of the pushes: whether the channel took the event.
pub fn offer(channels: &Vec<DeliveryChannel>, sendable: &Sendable) -> (accepted: Vec<bool>)
    ensures
        accepted@.len() == channels@.len(),
{
    let mut accepted: Vec<bool> = Vec::new();
    let mut i: usize = 0;
    while i < channels.len()
        invariant
            i <= channels@.len(),
            accepted@.len() == i,
        decreases channels@.len() - i,
    {
        let took = channels[i].push(sendable.clone());
        accepted.push(took);
        i = i + 1;
    }
    accepted
}

/// Drops from `channels` those that did not take the event, by the answers
/// `accepted` of one push to each. A channel without an answer is dropped.
pub fn retain_accepted<C>(channels: &mut Vec<C>, accepted: &Vec<bool>)
    ensures
        final(channels)@ == kept(old(channels)@, accepted@),
{
    let ghost all = channels@;
    let total = channels.len();
    let mut done: usize = 0;
    let mut at: usize = 0;
    assert(all.take(0) =~= Seq::<C>::empty());
    assert(channels@ =~= kept(all.take(0), accepted@) + all.skip(0));
    while done < total
        invariant
            total == all.len(),
            done <= total,
            at == kept(all.take(done as int), accepted@).len(),
            channels@ == kept(all.take(done as int), accepted@) + all.skip(done as int),
        decreases total - done,
    {
        let ghost before = kept(all.take(done as int), accepted@);
        assert(channels@[at as int] == all.skip(done as int)[0]);
        let live = channels.len();
        assert(at < live);
        proof {
            assert(all.take(done + 1).drop_last() =~= all.take(done as int));
        }
        if done < accepted.len() && accepted[done] {
            at = at + 1;
            assert(channels@ =~= before.push(all[done as int]) + all.skip(done + 1));
        } else {
            channels.remove(at);
            assert(channels@ =~= before + all.skip(done + 1));
        }
        done = done + 1;
    }
    assert(all.take(total as int) =~= all);
    assert(channels@ =~= kept(all, accepted@));
}

} // verus!
