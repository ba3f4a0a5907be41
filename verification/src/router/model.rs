//! What the router's operations do, over mathematical maps and sequences.

use super::{Offer, SendOutcome, Subscriber, SubscriberId};
use crate::protocol::message::{data_of, encode};
use crate::sums::total;
use vstd::prelude::*;

verus! {

/// The state of a router.
#[verifier::ext_equal]
pub struct RouterView {
    /// The subscribers of each channel that has any, in the order in which frames go out.
    pub channels: Map<Seq<u8>, Seq<Subscriber>>,
    /// The number of channels that each connection is subscribed to.
    pub sub_counts: Map<SubscriberId, nat>,
    pub next_id: u64,
    pub next_msg_id: u32,
    pub max_subscriptions: nat,
    pub max_channels: nat,
    pub slow_consumer_threshold: usize,
    /// All that has been offered to queues, in its order.
    pub offers: Seq<Offer>,
}

/// The number that a counter of connections gives out after `n`.
pub open spec fn next_u64(n: u64) -> u64 {
    if n == u64::MAX {
        0
    } else {
        (n + 1) as u64
    }
}

/// The number that a counter of messages, or of lost frames, gives out after `n`.
pub open spec fn next_u32(n: u32) -> u32 {
    if n == u32::MAX {
        0
    } else {
        (n + 1) as u32
    }
}

/// Whether `id` is among subscribers.
pub open spec fn has_id(subs: Seq<Subscriber>, id: SubscriberId) -> bool {
    exists|i: int| 0 <= i < subs.len() && (#[trigger] subs[i]).id == id
}

/// Whether no two subscribers are one connection.
pub open spec fn ids_distinct(subs: Seq<Subscriber>) -> bool {
    forall|i: int, j: int|
        0 <= i < j < subs.len() ==> (#[trigger] subs[i]).id != (#[trigger] subs[j]).id
}

/// Whether no subscriber has lost as many frames in a row as put it out.
pub open spec fn within(subs: Seq<Subscriber>, threshold: u32) -> bool {
    threshold > 0 ==> forall|i: int|
        0 <= i < subs.len() ==> (#[trigger] subs[i]).drop_count < threshold
}

/// The subscribers other than `id`, in their order.
pub open spec fn without_id(subs: Seq<Subscriber>, id: SubscriberId) -> Seq<Subscriber> {
    subs.filter(|s: Subscriber| s.id != id)
}

/// A sequence without its item `i`, whose place the last item takes.
pub open spec fn swap_removed(subs: Seq<Subscriber>, i: int) -> Seq<Subscriber> {
    subs.update(i, subs.last()).drop_last()
}

/// The subscribers after those marked in `gone` have been taken out, from the last one down.
pub open spec fn evict(subs: Seq<Subscriber>, gone: Seq<bool>) -> Seq<Subscriber>
    decreases gone.len(),
{
    if gone.len() == 0 {
        subs
    } else if gone.last() {
        evict(swap_removed(subs, gone.len() - 1), gone.drop_last())
    } else {
        evict(subs, gone.drop_last())
    }
}

/// The number of frames lost in a row once `outcome` has come after `lost` of them.
pub open spec fn lost_in_row(lost: u32, outcome: SendOutcome) -> u32 {
    match outcome {
        SendOutcome::Sent => 0,
        SendOutcome::Full => next_u32(lost),
        SendOutcome::Closed => lost,
    }
}

/// Whether a subscriber that has lost `lost` frames in a row is put out after `outcome`: its
/// queue is closed, or this frame is lost too and makes as many as the threshold.
pub open spec fn puts_out(lost: u32, outcome: SendOutcome, threshold: u32) -> bool {
    match outcome {
        SendOutcome::Sent => false,
        SendOutcome::Full => threshold > 0 && next_u32(lost) >= threshold,
        SendOutcome::Closed => true,
    }
}

/// The subscribers with their runs of lost frames brought up to date.
pub open spec fn recounted(subs: Seq<Subscriber>, outcomes: Seq<SendOutcome>) -> Seq<Subscriber> {
    Seq::new(
        subs.len(),
        |i: int|
            Subscriber { drop_count: lost_in_row(subs[i].drop_count, outcomes[i]), ..subs[i] },
    )
}

/// Which subscribers are put out.
pub open spec fn put_out(
    subs: Seq<Subscriber>,
    outcomes: Seq<SendOutcome>,
    threshold: u32,
) -> Seq<bool> {
    Seq::new(subs.len(), |i: int| puts_out(subs[i].drop_count, outcomes[i], threshold))
}

/// Whether `id` is among the subscribers marked in `gone`.
pub open spec fn is_gone(subs: Seq<Subscriber>, gone: Seq<bool>, id: SubscriberId) -> bool {
    exists|i: int| 0 <= i < gone.len() && gone[i] && (#[trigger] subs[i]).id == id
}

/// The number of frames that were taken.
pub open spec fn sent(outcomes: Seq<SendOutcome>) -> nat {
    outcomes.filter(|o: SendOutcome| o is Sent).len()
}

/// A frame offered to each subscriber in turn.
pub open spec fn offers_to(
    subs: Seq<Subscriber>,
    frame: Seq<u8>,
    outcomes: Seq<SendOutcome>,
) -> Seq<Offer> {
    Seq::new(
        subs.len(),
        |i: int| Offer { queue: subs[i].sender, frame, outcome: outcomes[i] },
    )
}

impl RouterView {
    /// The subscribers of a channel.
    pub open spec fn subscribers(self, channel: Seq<u8>) -> Seq<Subscriber> {
        if self.channels.contains_key(channel) {
            self.channels[channel]
        } else {
            Seq::empty()
        }
    }

    /// Whether a connection is subscribed to a channel.
    pub open spec fn subscribed(self, channel: Seq<u8>, id: SubscriberId) -> bool {
        has_id(self.subscribers(channel), id)
    }

    /// The channels that a connection is subscribed to.
    pub open spec fn channels_of(self, id: SubscriberId) -> Set<Seq<u8>> {
        self.channels.dom().filter(|c: Seq<u8>| has_id(self.channels[c], id))
    }

    /// The number of subscriptions that the router counts for a connection.
    pub open spec fn sub_count(self, id: SubscriberId) -> nat {
        if self.sub_counts.contains_key(id) {
            self.sub_counts[id]
        } else {
            0
        }
    }

    /// The number of subscriptions over all channels.
    pub open spec fn subscriptions(self) -> nat {
        total(self.channels.map_values(|subs: Seq<Subscriber>| subs.len()))
    }

    /// Every channel has subscribers, no connection is twice among those of one channel, none has
    /// lost too many frames in a row, the count kept for a connection is the number of its
    /// channels, and both limits hold.
    pub open spec fn wf(self) -> bool {
        &&& self.channels.dom().finite()
        &&& self.channels.len() <= self.max_channels
        &&& forall|c: Seq<u8>| #[trigger]
            self.channels.contains_key(c) ==> {
                &&& self.channels[c].len() > 0
                &&& ids_distinct(self.channels[c])
                &&& within(self.channels[c], self.slow_consumer_threshold as u32)
            }
        &&& forall|id: SubscriberId| #[trigger]
            self.sub_count(id) == self.channels_of(id).len() && self.sub_count(id)
                <= self.max_subscriptions
    }

    /// The router with `subs` as the subscribers of a channel: a channel without any is dropped.
    pub open spec fn with_subscribers(self, channel: Seq<u8>, subs: Seq<Subscriber>) -> RouterView {
        RouterView {
            channels: if subs.len() == 0 {
                self.channels.remove(channel)
            } else {
                self.channels.insert(channel, subs)
            },
            ..self
        }
    }

    /// Why a subscription is refused, if it is.
    pub open spec fn refusal(self, channel: Seq<u8>, id: SubscriberId) -> Option<Seq<char>> {
        if self.sub_count(id) >= self.max_subscriptions {
            Some("subscription limit reached"@)
        } else if !self.channels.contains_key(channel) && self.channels.len() >= self.max_channels {
            Some("channel limit reached"@)
        } else {
            None
        }
    }

    /// The router after a subscription that is not refused.
    pub open spec fn after_subscribe(self, channel: Seq<u8>, sub: Subscriber) -> RouterView {
        if self.subscribed(channel, sub.id) {
            self
        } else {
            RouterView {
                sub_counts: self.sub_counts.insert(sub.id, self.sub_count(sub.id) + 1),
                ..self.with_subscribers(channel, self.subscribers(channel).push(sub))
            }
        }
    }

    /// The router after a connection has left a channel.
    pub open spec fn after_unsubscribe(self, channel: Seq<u8>, id: SubscriberId) -> RouterView {
        if self.subscribed(channel, id) {
            RouterView {
                sub_counts: self.sub_counts.insert(id, (self.sub_count(id) - 1) as nat),
                ..self.with_subscribers(channel, without_id(self.subscribers(channel), id))
            }
        } else {
            self
        }
    }

    /// The router after a connection has left.
    pub open spec fn after_remove(self, id: SubscriberId) -> RouterView {
        RouterView {
            channels: Map::new(
                |c: Seq<u8>|
                    self.channels.contains_key(c) && without_id(self.channels[c], id).len() > 0,
                |c: Seq<u8>| without_id(self.channels[c], id),
            ),
            sub_counts: self.sub_counts.remove(id),
            ..self
        }
    }

    /// The router after the frame of a message has met `outcomes` at the subscribers of its
    /// channel.
    pub open spec fn after_sending(
        self,
        channel: Seq<u8>,
        outcomes: Seq<SendOutcome>,
    ) -> RouterView {
        let subs = self.subscribers(channel);
        let gone = put_out(subs, outcomes, self.slow_consumer_threshold as u32);
        RouterView {
            sub_counts: Map::new(
                |id: SubscriberId| self.sub_counts.contains_key(id),
                |id: SubscriberId|
                    if is_gone(subs, gone, id) {
                        (self.sub_counts[id] - 1) as nat
                    } else {
                        self.sub_counts[id]
                    },
            ),
            ..self.with_subscribers(channel, evict(recounted(subs, outcomes), gone))
        }
    }

    /// The frame that carries `payload` to the subscribers of a channel.
    pub open spec fn next_frame(self, channel: Seq<u8>, payload: Seq<u8>) -> Seq<u8> {
        encode(data_of(self.next_msg_id, channel, payload))
    }

    /// The router after a message: each subscriber of its channel has been offered its frame once,
    /// and its number is used up.
    pub open spec fn after_publish(
        self,
        channel: Seq<u8>,
        payload: Seq<u8>,
        outcomes: Seq<SendOutcome>,
    ) -> RouterView {
        RouterView {
            next_msg_id: next_u32(self.next_msg_id),
            offers: self.offers + offers_to(
                self.subscribers(channel),
                self.next_frame(channel, payload),
                outcomes,
            ),
            ..self.after_sending(channel, outcomes)
        }
    }
}

} // verus!
