//! Who is subscribed to what, and who is sent what.

use super::laws::{lemma_evict, lemma_recounted, lemma_without_id, stays};
use super::model::{
    evict, has_id, ids_distinct, next_u32, next_u64, put_out, recounted, sent, without_id,
    RouterView,
};
use super::{listening, Listener, SendOutcome, Subscriber, SubscriberId};
use crate::protocol::message::{
    data_of, decode, decode_encode, MessageType, MessageView, ProtocolError,
};
use crate::protocol::promises::frames_lay_out_their_message;
use crate::sums::{lemma_total_empty, lemma_total_insert, lemma_total_remove};
use vstd::prelude::*;

verus! {

/// Counters count up by one, and begin anew behind the last number.
pub proof fn counters_count_up(m: u32, n: u64)
    ensures
        next_u32(m) == (m + 1) % 0x1_0000_0000,
        next_u64(n) == (n + 1) % 0x1_0000_0000_0000_0000,
{
}

/// A subscription is refused exactly where the connection has as many as it may have, or where the
/// channel would be one too many; the first of these that holds is the reason.
pub proof fn subscriptions_are_refused_for_cause(
    r: RouterView,
    channel: Seq<u8>,
    id: SubscriberId,
)
    ensures
        ({
            let refusal = r.refusal(channel, id);
            let quota = r.sub_count(id) < r.max_subscriptions;
            let room = r.channels.contains_key(channel) || r.channels.len() < r.max_channels;
            &&& refusal is None <==> quota && room
            &&& !quota ==> refusal == Some("subscription limit reached"@)
            &&& quota && !room ==> refusal == Some("channel limit reached"@)
        }),
{
}

/// Who is subscribed to a channel is who is on its list; a channel that is not there has none.
pub proof fn subscribers_are_listed(r: RouterView, channel: Seq<u8>, id: SubscriberId)
    ensures
        r.channels.contains_key(channel) ==> r.subscribers(channel) == r.channels[channel],
        !r.channels.contains_key(channel) ==> r.subscribers(channel).len() == 0,
        r.subscribed(channel, id) <==> exists|i: int|
            0 <= i < r.subscribers(channel).len() && (#[trigger] r.subscribers(channel)[i]).id
                == id,
        r.sub_counts.contains_key(id) ==> r.sub_count(id) == r.sub_counts[id],
        !r.sub_counts.contains_key(id) ==> r.sub_count(id) == 0,
{
}

/// Subscribing puts the connection behind the subscribers that the channel has, and counts it,
/// once. Nothing else changes.
pub proof fn subscribing_appends(
    r: RouterView,
    channel: Seq<u8>,
    sub: Subscriber,
    other: Seq<u8>,
    someone: SubscriberId,
)
    ensures
        ({
            let after = r.after_subscribe(channel, sub);
            let was = r.subscribers(channel);
            let is = after.subscribers(channel);
            &&& r.subscribed(channel, sub.id) ==> after == r
            &&& !r.subscribed(channel, sub.id) ==> {
                &&& is.len() == was.len() + 1
                &&& forall|i: int| 0 <= i < was.len() ==> #[trigger] is[i] == was[i]
                &&& is[was.len() as int] == sub
                &&& after.sub_count(sub.id) == r.sub_count(sub.id) + 1
            }
            &&& someone != sub.id ==> after.sub_count(someone) == r.sub_count(someone)
            &&& other != channel ==> after.channels.contains_key(other) == r.channels.contains_key(
                other,
            ) && after.subscribers(other) == r.subscribers(other)
            &&& after.next_id == r.next_id
            &&& after.next_msg_id == r.next_msg_id
            &&& after.offers == r.offers
            &&& after.max_subscriptions == r.max_subscriptions
            &&& after.max_channels == r.max_channels
            &&& after.slow_consumer_threshold == r.slow_consumer_threshold
        }),
{
}

/// Whether `is` is `was` without its item `k`, or `was` where there is no such item.
pub open spec fn taken_out(was: Seq<Subscriber>, is: Seq<Subscriber>, k: int) -> bool {
    if 0 <= k < was.len() {
        &&& is.len() == was.len() - 1
        &&& forall|i: int| 0 <= i < k ==> #[trigger] is[i] == was[i]
        &&& forall|i: int| k <= i < is.len() ==> #[trigger] is[i] == was[i + 1]
    } else {
        &&& is.len() == was.len()
        &&& forall|i: int| 0 <= i < is.len() ==> #[trigger] is[i] == was[i]
    }
}

/// Where a connection stands among subscribers, or behind them all.
pub open spec fn stand(subs: Seq<Subscriber>, id: SubscriberId) -> int
    decreases subs.len(),
{
    if subs.len() == 0 {
        0
    } else if subs.last().id == id {
        subs.len() - 1
    } else if has_id(subs, id) {
        stand(subs.drop_last(), id)
    } else {
        subs.len() as int
    }
}

proof fn lemma_taken_out(subs: Seq<Subscriber>, id: SubscriberId)
    requires
        ids_distinct(subs),
    ensures
        taken_out(subs, without_id(subs, id), stand(subs, id)),
        0 <= stand(subs, id) <= subs.len(),
        stand(subs, id) < subs.len() ==> subs[stand(subs, id)].id == id,
        stand(subs, id) < subs.len() <==> has_id(subs, id),
    decreases subs.len(),
{
    reveal(Seq::filter);
    if subs.len() > 0 {
        let rest = subs.drop_last();
        lemma_taken_out(rest, id);
        lemma_without_id(subs, id);
        lemma_without_id(rest, id);
        if subs.last().id == id {
            assert(subs[subs.len() - 1].id == id);
            assert(!has_id(rest, id)) by {
                if has_id(rest, id) {
                    let i = choose|i: int| 0 <= i < rest.len() && (#[trigger] rest[i]).id == id;
                    assert(subs[i].id != subs[subs.len() - 1].id);
                }
            }
            assert(without_id(subs, id) == rest);
        } else if has_id(subs, id) {
            let i = choose|i: int| 0 <= i < subs.len() && (#[trigger] subs[i]).id == id;
            assert(rest[i].id == id);
            assert(has_id(rest, id));
            assert(without_id(subs, id) == without_id(rest, id).push(subs.last()));
        }
    }
}

/// Leaving a channel takes the connection, and nobody else, off its list, which keeps its order,
/// and off the count, once. The channel goes where nobody is left. Nothing else changes.
pub proof fn unsubscribing_takes_one_out(
    r: RouterView,
    channel: Seq<u8>,
    id: SubscriberId,
    other: Seq<u8>,
    someone: SubscriberId,
)
    requires
        r.wf(),
    ensures
        ({
            let after = r.after_unsubscribe(channel, id);
            let was = r.subscribers(channel);
            let k = stand(was, id);
            &&& k < was.len() <==> r.subscribed(channel, id)
            &&& 0 <= k < was.len() ==> was[k].id == id
            &&& taken_out(was, after.subscribers(channel), k)
            &&& after.channels.contains_key(channel) <==> after.subscribers(channel).len() > 0
            &&& after.sub_count(id) == r.sub_count(id) - if r.subscribed(channel, id) {
                1int
            } else {
                0int
            }
            &&& someone != id ==> after.sub_count(someone) == r.sub_count(someone)
            &&& other != channel ==> after.channels.contains_key(other) == r.channels.contains_key(
                other,
            ) && after.subscribers(other) == r.subscribers(other)
            &&& after.next_id == r.next_id
            &&& after.next_msg_id == r.next_msg_id
            &&& after.offers == r.offers
            &&& after.max_subscriptions == r.max_subscriptions
            &&& after.max_channels == r.max_channels
            &&& after.slow_consumer_threshold == r.slow_consumer_threshold
        }),
{
    let was = r.subscribers(channel);
    assert(ids_distinct(was));
    lemma_taken_out(was, id);
    if r.subscribed(channel, id) {
        super::laws::lemma_subscribed_counts(r, channel, id);
        let after = r.after_unsubscribe(channel, id);
        assert(after.subscribers(channel) =~= without_id(was, id));
    }
}

/// A connection that leaves is taken, alone, off every list, which keeps its order, and out of the
/// counts. Channels go where nobody is left. Nothing else changes.
pub proof fn leaving_takes_one_out_everywhere(
    r: RouterView,
    id: SubscriberId,
    channel: Seq<u8>,
    someone: SubscriberId,
)
    requires
        r.wf(),
    ensures
        ({
            let after = r.after_remove(id);
            let was = r.subscribers(channel);
            let k = stand(was, id);
            &&& k < was.len() <==> r.subscribed(channel, id)
            &&& 0 <= k < was.len() ==> was[k].id == id
            &&& taken_out(was, after.subscribers(channel), k)
            &&& after.channels.contains_key(channel) <==> after.subscribers(channel).len() > 0
            &&& after.sub_count(id) == 0
            &&& someone != id ==> after.sub_count(someone) == r.sub_count(someone)
            &&& after.next_id == r.next_id
            &&& after.next_msg_id == r.next_msg_id
            &&& after.offers == r.offers
            &&& after.max_subscriptions == r.max_subscriptions
            &&& after.max_channels == r.max_channels
            &&& after.slow_consumer_threshold == r.slow_consumer_threshold
        }),
{
    let was = r.subscribers(channel);
    assert(ids_distinct(was));
    lemma_taken_out(was, id);
    lemma_without_id(was, id);
    let after = r.after_remove(id);
    if r.channels.contains_key(channel) {
        assert(after.subscribers(channel) =~= without_id(was, id));
    }
}

/// Subscriptions add up: with no channels there are none, and another list of a channel adds its
/// length in place of that of the list before.
pub proof fn subscriptions_add_up(r: RouterView, channel: Seq<u8>, subs: Seq<Subscriber>)
    requires
        r.channels.dom().finite(),
    ensures
        r.channels.dom() == Set::<Seq<u8>>::empty() ==> r.subscriptions() == 0,
        (RouterView { channels: r.channels.insert(channel, subs), ..r }).subscriptions()
            == r.subscriptions() + subs.len() - r.subscribers(channel).len(),
{
    let length = |subs: Seq<Subscriber>| subs.len();
    let sizes = r.channels.map_values(length);
    assert(sizes.dom() =~= r.channels.dom());
    if r.channels.dom() == Set::<Seq<u8>>::empty() {
        lemma_total_empty(sizes);
    }
    lemma_total_insert(sizes, channel, subs.len());
    assert(r.channels.insert(channel, subs).map_values(length) =~= sizes.insert(
        channel,
        subs.len(),
    ));
    if r.channels.contains_key(channel) {
        lemma_total_remove(sizes, channel);
    } else {
        assert(sizes.remove(channel) =~= sizes);
    }
}

/// Who listens is seen one by one.
pub proof fn listeners_are_seen_one_by_one(subs: Seq<Listener>, i: int)
    requires
        0 <= i < subs.len(),
    ensures
        listening(subs).len() == subs.len(),
        listening(subs)[i] == subs[i]@,
{
}

/// The frames that were taken are counted one by one.
pub proof fn deliveries_are_counted(outcomes: Seq<SendOutcome>, outcome: SendOutcome)
    ensures
        sent(Seq::<SendOutcome>::empty()) == 0,
        sent(outcomes.push(outcome)) == sent(outcomes) + if outcome is Sent {
            1nat
        } else {
            0nat
        },
{
    reveal(Seq::filter);
    assert(outcomes.push(outcome).drop_last() =~= outcomes);
}

/// Marked subscribers go from the last one down, and the last of all takes the place of each.
pub proof fn marked_subscribers_go_from_the_last(subs: Seq<Subscriber>, gone: Seq<bool>)
    requires
        gone.len() < subs.len(),
    ensures
        evict(subs, Seq::<bool>::empty()) == subs,
        evict(subs, gone.push(false)) == evict(subs, gone),
        evict(subs, gone.push(true)) == evict(
            Seq::new(
                (subs.len() - 1) as nat,
                |i: int|
                    if i == gone.len() {
                        subs[subs.len() - 1]
                    } else {
                        subs[i]
                    },
            ),
            gone,
        ),
{
    assert(gone.push(false).drop_last() =~= gone);
    assert(gone.push(true).drop_last() =~= gone);
    let shorter = Seq::new(
        (subs.len() - 1) as nat,
        |i: int|
            if i == gone.len() {
                subs[subs.len() - 1]
            } else {
                subs[i]
            },
    );
    assert(super::model::swap_removed(subs, gone.len() as int) =~= shorter);
}

/// After a frame, a subscriber whose queue took it stays with no frame lost. One whose queue was
/// full stays with one more lost, unless that makes as many as a threshold that is not zero. Nobody
/// else stays and nobody joins. Who goes is taken off the count, once; the channel goes where
/// nobody is left. Nothing else changes.
pub proof fn sending_sorts_subscribers(
    r: RouterView,
    channel: Seq<u8>,
    outcomes: Seq<SendOutcome>,
    k: int,
    other: Seq<u8>,
)
    requires
        r.wf(),
        outcomes.len() == r.subscribers(channel).len(),
        0 <= k < outcomes.len(),
    ensures
        ({
            let after = r.after_sending(channel, outcomes);
            let was = r.subscribers(channel);
            let is = after.subscribers(channel);
            let threshold = r.slow_consumer_threshold as u32;
            let s = was[k];
            let lost = (s.drop_count + 1) % 0x1_0000_0000;
            let keeps = outcomes[k] is Sent || (outcomes[k] is Full && (threshold == 0 || lost
                < threshold));
            &&& keeps <==> after.subscribed(channel, s.id)
            &&& outcomes[k] is Sent ==> is.contains(
                (Subscriber { id: s.id, sender: s.sender, drop_count: 0 }),
            )
            &&& outcomes[k] is Full && keeps ==> is.contains(
                (Subscriber { id: s.id, sender: s.sender, drop_count: lost as u32 }),
            )
            &&& forall|j: int|
                0 <= j < is.len() ==> exists|i: int|
                    0 <= i < was.len() && (#[trigger] was[i]).id == (#[trigger] is[j]).id
                        && was[i].sender == is[j].sender
            &&& after.sub_count(s.id) == r.sub_count(s.id) - if keeps {
                0int
            } else {
                1int
            }
            &&& after.channels.contains_key(channel) <==> is.len() > 0
            &&& other != channel ==> after.channels.contains_key(other) == r.channels.contains_key(
                other,
            ) && after.subscribers(other) == r.subscribers(other)
            &&& after.next_id == r.next_id
            &&& after.next_msg_id == r.next_msg_id
            &&& after.offers == r.offers
            &&& after.max_subscriptions == r.max_subscriptions
            &&& after.max_channels == r.max_channels
            &&& after.slow_consumer_threshold == r.slow_consumer_threshold
        }),
{
    let after = r.after_sending(channel, outcomes);
    let was = r.subscribers(channel);
    let is = after.subscribers(channel);
    let t = r.slow_consumer_threshold as u32;
    let counted = recounted(was, outcomes);
    let gone = put_out(was, outcomes, t);
    super::laws::sending_puts_out_only_the_marked(r, channel, outcomes, k);
    lemma_recounted(was, outcomes, gone);
    lemma_evict(counted, gone);
    assert(is =~= evict(counted, gone));
    if !gone[k] {
        assert(stays(counted, gone, counted[k]));
        assert(is.contains(counted[k]));
    }
    assert forall|j: int| 0 <= j < is.len() implies exists|i: int|
        0 <= i < was.len() && (#[trigger] was[i]).id == (#[trigger] is[j]).id && was[i].sender
            == is[j].sender by {
        assert(is.contains(is[j]));
        assert(stays(counted, gone, is[j]));
        let i = choose|i: int|
            0 <= i < counted.len() && (i < gone.len() ==> !gone[i]) && #[trigger] counted[i]
                == is[j];
        assert(was[i].id == is[j].id);
    }
    assert(has_id(was, was[k].id));
    super::laws::lemma_subscribed_counts(r, channel, was[k].id);
    assert(super::model::is_gone(was, gone, was[k].id) <==> gone[k]) by {
        if gone[k] {
            assert(was[k].id == was[k].id);
        }
        if super::model::is_gone(was, gone, was[k].id) {
            let g = choose|g: int|
                0 <= g < gone.len() && gone[g] && (#[trigger] was[g]).id == was[k].id;
            assert(g < k ==> was[g].id != was[k].id);
            assert(k < g ==> was[k].id != was[g].id);
        }
    }
}

/// After a frame, subscribers with their runs of lost frames brought up to date stand where taking
/// out the marked ones leaves them. Marked are those that keep no place: whose queue is closed, or
/// was full and has made them lose as many frames as a threshold that is not zero.
pub proof fn sending_leaves_places(
    r: RouterView,
    channel: Seq<u8>,
    outcomes: Seq<SendOutcome>,
    counted: Seq<Subscriber>,
    gone: Seq<bool>,
)
    requires
        outcomes.len() == counted.len() == gone.len() == r.subscribers(channel).len(),
        forall|i: int|
            0 <= i < counted.len() ==> {
                let s = r.subscribers(channel)[i];
                &&& (#[trigger] counted[i]).id == s.id
                &&& counted[i].sender == s.sender
                &&& counted[i].drop_count == match outcomes[i] {
                    SendOutcome::Sent => 0,
                    SendOutcome::Full => (s.drop_count + 1) % 0x1_0000_0000,
                    SendOutcome::Closed => s.drop_count as int,
                }
            },
        forall|i: int|
            0 <= i < gone.len() ==> {
                let lost = (r.subscribers(channel)[i].drop_count + 1) % 0x1_0000_0000;
                let threshold = r.slow_consumer_threshold as u32;
                #[trigger] gone[i] == match outcomes[i] {
                    SendOutcome::Sent => false,
                    SendOutcome::Full => threshold > 0 && lost >= threshold,
                    SendOutcome::Closed => true,
                }
            },
    ensures
        r.after_sending(channel, outcomes).subscribers(channel) == evict(counted, gone),
{
    let was = r.subscribers(channel);
    assert forall|i: int| 0 <= i < counted.len() implies counted[i] == recounted(
        was,
        outcomes,
    )[i] by {
        assert(counted[i].id == was[i].id);
    }
    assert(counted =~= recounted(was, outcomes));
    assert(gone =~= put_out(was, outcomes, r.slow_consumer_threshold as u32));
    assert(r.after_sending(channel, outcomes).subscribers(channel) =~= evict(counted, gone));
}

/// Whoever is not among the subscribers of the channel keeps their count.
pub proof fn sending_concerns_subscribers_only(
    r: RouterView,
    channel: Seq<u8>,
    outcomes: Seq<SendOutcome>,
    someone: SubscriberId,
)
    requires
        outcomes.len() == r.subscribers(channel).len(),
        !r.subscribed(channel, someone),
    ensures
        r.after_sending(channel, outcomes).sub_count(someone) == r.sub_count(someone),
{
    let subs = r.subscribers(channel);
    let gone = put_out(subs, outcomes, r.slow_consumer_threshold as u32);
    if super::model::is_gone(subs, gone, someone) {
        let g = choose|g: int|
            0 <= g < gone.len() && gone[g] && (#[trigger] subs[g]).id == someone;
        assert(subs[g].id == someone);
    }
}

/// What each subscriber is offered when a message is published: the frame of a data message with
/// the next number, the channel, and the whole payload, byte for byte. Each is offered it once, in
/// turn, and nobody else is offered anything. For the rest, publishing is sending.
pub proof fn publishing_offers_the_whole_payload(
    r: RouterView,
    channel: Seq<u8>,
    payload: Seq<u8>,
    outcomes: Seq<SendOutcome>,
    k: int,
)
    requires
        channel.len() == 32,
        outcomes.len() == r.subscribers(channel).len(),
        0 <= k < outcomes.len(),
    ensures
        ({
            let after = r.after_publish(channel, payload, outcomes);
            let n = r.offers.len();
            let f = after.offers[n + k].frame;
            &&& after.offers.len() == n + r.subscribers(channel).len()
            &&& after.offers[n + k].queue == r.subscribers(channel)[k].sender
            &&& after.offers[n + k].outcome == outcomes[k]
            &&& f.len() == 37 + payload.len()
            &&& f[0] == 0x20
            &&& f[1] * 0x100_0000 + f[2] * 0x1_0000 + f[3] * 0x100 + f[4] == r.next_msg_id
            &&& forall|i: int| 0 <= i < 32 ==> #[trigger] channel[i] == f[5 + i]
            &&& forall|i: int| 0 <= i < payload.len() ==> #[trigger] payload[i] == f[37 + i]
            &&& decode(f) == Ok::<MessageView, ProtocolError>(
                (MessageView {
                    msg_type: MessageType::Data,
                    id: r.next_msg_id,
                    channel,
                    payload,
                }),
            )
        }),
{
    frames_lay_out_their_message(data_of(r.next_msg_id, channel, payload));
    decode_encode(data_of(r.next_msg_id, channel, payload));
}

/// Publishing leaves what was offered before as it is, uses up one number, and is sending for the
/// rest; without subscribers nothing is offered.
pub proof fn publishing_is_sending(
    r: RouterView,
    channel: Seq<u8>,
    payload: Seq<u8>,
    outcomes: Seq<SendOutcome>,
)
    ensures
        ({
            let after = r.after_publish(channel, payload, outcomes);
            let plain = r.after_sending(channel, outcomes);
            &&& after.offers.len() == r.offers.len() + r.subscribers(channel).len()
            &&& forall|i: int| 0 <= i < r.offers.len() ==> #[trigger] after.offers[i] == r.offers[i]
            &&& after.next_msg_id == (r.next_msg_id + 1) % 0x1_0000_0000
            &&& after.channels == plain.channels
            &&& after.sub_counts == plain.sub_counts
            &&& after.next_id == r.next_id
            &&& after.max_subscriptions == r.max_subscriptions
            &&& after.max_channels == r.max_channels
            &&& after.slow_consumer_threshold == r.slow_consumer_threshold
        }),
{
}

} // verus!
