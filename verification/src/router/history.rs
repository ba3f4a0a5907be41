//! What a router has been through, and what it makes of slow subscribers.

use super::laws::{
    channels_are_separate, leaving_keeps_order, lemma_counters_aside, lemma_evict, lemma_evict_ids,
    lemma_recounted, lemma_subscribed_counts, lemma_without_id, sending_keeps_order,
    sending_puts_out_only_the_marked, stays, subscribing_keeps_order, unsubscribing_keeps_order,
    unsubscribing_unsubscribes,
};
use super::model::{
    evict, has_id, ids_distinct, is_gone, lost_in_row, put_out, puts_out, recounted, without_id,
    RouterView,
};
use super::{SendOutcome, Subscriber, SubscriberId};
use vstd::prelude::*;

verus! {

/// Something that changes who listens to what.
pub enum Event {
    /// A connection subscribes to a channel.
    Subscribe { channel: Seq<u8>, sub: Subscriber },
    /// A connection leaves a channel.
    Unsubscribe { channel: Seq<u8>, id: SubscriberId },
    /// A connection leaves.
    Leave { id: SubscriberId },
    /// A message goes out to the subscribers of a channel.
    Publish { channel: Seq<u8>, payload: Seq<u8>, outcomes: Seq<SendOutcome> },
}

/// Whether an event can happen to a router: a subscription is not refused and begins with no frame
/// lost, and there is an outcome for each subscriber.
pub open spec fn possible(r: RouterView, e: Event) -> bool {
    match e {
        Event::Subscribe { channel, sub } => r.refusal(channel, sub.id) is None && sub.drop_count
            == 0,
        Event::Publish { channel, outcomes, .. } => outcomes.len() == r.subscribers(channel).len(),
        _ => true,
    }
}

/// The router after an event.
pub open spec fn after_event(r: RouterView, e: Event) -> RouterView {
    match e {
        Event::Subscribe { channel, sub } => r.after_subscribe(channel, sub),
        Event::Unsubscribe { channel, id } => r.after_unsubscribe(channel, id),
        Event::Leave { id } => r.after_remove(id),
        Event::Publish { channel, payload, outcomes } => r.after_publish(
            channel,
            payload,
            outcomes,
        ),
    }
}

/// The router after events.
pub open spec fn after_events(r: RouterView, events: Seq<Event>) -> RouterView
    decreases events.len(),
{
    if events.len() == 0 {
        r
    } else {
        after_event(after_events(r, events.drop_last()), events.last())
    }
}

/// Whether events can happen to a router, one after the other.
pub open spec fn all_possible(r: RouterView, events: Seq<Event>) -> bool
    decreases events.len(),
{
    events.len() > 0 ==> {
        &&& all_possible(r, events.drop_last())
        &&& possible(after_events(r, events.drop_last()), events.last())
    }
}

/// Where a connection stands among subscribers.
pub open spec fn place(subs: Seq<Subscriber>, id: SubscriberId) -> int {
    choose|i: int| 0 <= i < subs.len() && (#[trigger] subs[i]).id == id
}

/// The subscription of a connection to a channel.
pub open spec fn subscription(r: RouterView, channel: Seq<u8>, id: SubscriberId) -> Subscriber {
    r.subscribers(channel)[place(r.subscribers(channel), id)]
}

/// What the queue of a connection has answered to the frames of a channel since the connection
/// subscribed to it.
pub open spec fn answers(
    r: RouterView,
    events: Seq<Event>,
    channel: Seq<u8>,
    id: SubscriberId,
) -> Seq<SendOutcome>
    decreases events.len(),
{
    if events.len() == 0 {
        Seq::empty()
    } else {
        let before = after_events(r, events.drop_last());
        let so_far = answers(r, events.drop_last(), channel, id);
        match events.last() {
            Event::Publish { channel: c, outcomes, .. } => if c == channel && before.subscribed(
                channel,
                id,
            ) {
                so_far.push(outcomes[place(before.subscribers(channel), id)])
            } else {
                so_far
            },
            Event::Subscribe { channel: c, sub } => if c == channel && sub.id == id
                && !before.subscribed(channel, id) {
                Seq::empty()
            } else {
                so_far
            },
            _ => so_far,
        }
    }
}

/// The number of full queues at the end of a sequence of answers.
pub open spec fn full_run(answers: Seq<SendOutcome>) -> nat
    decreases answers.len(),
{
    if answers.len() > 0 && answers.last() is Full {
        full_run(answers.drop_last()) + 1
    } else {
        0
    }
}

/// Whether the last `n` answers are all that the queue was full.
pub open spec fn full_at_last(answers: Seq<SendOutcome>, n: nat) -> bool {
    &&& answers.len() >= n
    &&& forall|i: int| answers.len() - n <= i < answers.len() ==> #[trigger] answers[i] is Full
}

/// A run of full queues is at least as long as `n` exactly where the last `n` answers are of them.
pub proof fn runs_are_last_answers(answers: Seq<SendOutcome>, n: nat)
    ensures
        full_run(answers) >= n <==> full_at_last(answers, n),
    decreases answers.len(),
{
    if n > 0 {
        if answers.len() > 0 && answers.last() is Full {
            let rest = answers.drop_last();
            runs_are_last_answers(rest, (n - 1) as nat);
            if full_at_last(rest, (n - 1) as nat) {
                assert forall|i: int| answers.len() - n <= i < answers.len() implies
                    #[trigger] answers[i] is Full by {
                    if i < rest.len() {
                        assert(rest[i] is Full);
                    }
                }
            }
            if full_at_last(answers, n) {
                assert forall|i: int| rest.len() - (n - 1) <= i < rest.len() implies
                    #[trigger] rest[i] is Full by {
                    assert(answers[i] is Full);
                }
            }
        } else if full_at_last(answers, n) {
            assert(answers[answers.len() - 1] is Full);
        }
    }
}

/// Who is among subscribers stands where it is found.
proof fn lemma_place(subs: Seq<Subscriber>, s: Subscriber)
    requires
        ids_distinct(subs),
        subs.contains(s),
    ensures
        has_id(subs, s.id),
        subs[place(subs, s.id)] == s,
        0 <= place(subs, s.id) < subs.len(),
{
    let j = choose|j: int| 0 <= j < subs.len() && subs[j] == s;
    assert(subs[j].id == s.id);
    let i = place(subs, s.id);
    assert(0 <= i < subs.len() && subs[i].id == s.id);
    assert(i < j ==> subs[i].id != subs[j].id);
    assert(j < i ==> subs[j].id != subs[i].id);
}

/// Whoever is subscribed is among the subscribers.
proof fn lemma_subscription(r: RouterView, channel: Seq<u8>, id: SubscriberId)
    requires
        r.wf(),
        r.subscribed(channel, id),
    ensures
        ({
            let subs = r.subscribers(channel);
            let i = place(subs, id);
            &&& r.channels.contains_key(channel)
            &&& ids_distinct(subs)
            &&& 0 <= i < subs.len()
            &&& subs[i] == subscription(r, channel, id)
            &&& subs[i].id == id
            &&& subs.contains(subs[i])
        }),
{
    let subs = r.subscribers(channel);
    let i = choose|i: int| 0 <= i < subs.len() && (#[trigger] subs[i]).id == id;
    assert(subs[i].id == id);
}

/// Taking another connection out keeps a subscriber.
proof fn lemma_kept(subs: Seq<Subscriber>, gone: SubscriberId, s: Subscriber)
    requires
        subs.contains(s),
        s.id != gone,
    ensures
        without_id(subs, gone).contains(s),
{
    let i = choose|i: int| 0 <= i < subs.len() && subs[i] == s;
    subs.lemma_filter_contains(|x: Subscriber| x.id != gone, i);
}

/// Events keep the router in order.
pub proof fn events_keep_order(r: RouterView, events: Seq<Event>)
    requires
        r.wf(),
        all_possible(r, events),
    ensures
        after_events(r, events).wf(),
        after_events(r, events).slow_consumer_threshold == r.slow_consumer_threshold,
    decreases events.len(),
{
    if events.len() > 0 {
        events_keep_order(r, events.drop_last());
        let before = after_events(r, events.drop_last());
        match events.last() {
            Event::Subscribe { channel, sub } => {
                subscribing_keeps_order(before, channel, sub);
            },
            Event::Unsubscribe { channel, id } => {
                unsubscribing_keeps_order(before, channel, id);
            },
            Event::Leave { id } => {
                leaving_keeps_order(before, id);
            },
            Event::Publish { channel, payload, outcomes } => {
                sending_keeps_order(before, channel, outcomes);
                lemma_counters_aside(
                    before.after_sending(channel, outcomes),
                    before.after_publish(channel, payload, outcomes),
                );
            },
        }
    }
}

/// What a message does to the subscription of a connection to its channel.
proof fn lemma_published(
    r: RouterView,
    channel: Seq<u8>,
    payload: Seq<u8>,
    outcomes: Seq<SendOutcome>,
    id: SubscriberId,
)
    requires
        r.wf(),
        outcomes.len() == r.subscribers(channel).len(),
        r.subscribed(channel, id),
    ensures
        ({
            let after = r.after_publish(channel, payload, outcomes);
            let lost = subscription(r, channel, id).drop_count;
            let outcome = outcomes[place(r.subscribers(channel), id)];
            &&& after.subscribed(channel, id) <==> !puts_out(
                lost,
                outcome,
                r.slow_consumer_threshold as u32,
            )
            &&& after.subscribed(channel, id) ==> subscription(after, channel, id).drop_count
                == lost_in_row(lost, outcome)
        }),
{
    let after = r.after_publish(channel, payload, outcomes);
    let subs = r.subscribers(channel);
    let t = r.slow_consumer_threshold as u32;
    let i = place(subs, id);
    lemma_subscription(r, channel, id);
    sending_puts_out_only_the_marked(r, channel, outcomes, i);
    let sent = r.after_sending(channel, outcomes);
    assert(after.subscribers(channel) == sent.subscribers(channel));
    if after.subscribed(channel, id) {
        let counted = recounted(subs, outcomes);
        let gone = put_out(subs, outcomes, t);
        let left = evict(counted, gone);
        sending_keeps_order(r, channel, outcomes);
        lemma_evict(counted, gone);
        assert(after.subscribers(channel) =~= left);
        assert(!gone[i]);
        assert(stays(counted, gone, counted[i]));
        assert(left.contains(counted[i]));
        lemma_subscription(sent, channel, id);
        lemma_place(left, counted[i]);
    }
}

/// What an event other than a message for the channel does to the subscription of a connection.
proof fn lemma_untouched(r: RouterView, e: Event, channel: Seq<u8>, id: SubscriberId)
    requires
        r.wf(),
        possible(r, e),
        after_event(r, e).wf(),
        after_event(r, e).subscribed(channel, id),
        e matches Event::Publish { channel: c, .. } ==> c != channel,
    ensures
        r.subscribed(channel, id) ==> subscription(after_event(r, e), channel, id) == subscription(
            r,
            channel,
            id,
        ),
        !r.subscribed(channel, id) ==> {
            &&& e matches Event::Subscribe { channel: c, sub } && c == channel && sub.id == id
            &&& subscription(after_event(r, e), channel, id).drop_count == 0
        },
{
    let after = after_event(r, e);
    let subs = r.subscribers(channel);
    if r.subscribed(channel, id) {
        lemma_subscription(r, channel, id);
    }
    lemma_subscription(after, channel, id);
    match e {
        Event::Subscribe { channel: c, sub } => {
            if c == channel && !r.subscribed(channel, sub.id) {
                let grown = subs.push(sub);
                assert(after.subscribers(channel) == grown);
                assert(grown[subs.len() as int] == sub);
                if r.subscribed(channel, id) {
                    let s = subscription(r, channel, id);
                    assert(grown[place(subs, id)] == s);
                    assert(grown.contains(s));
                    lemma_place(grown, s);
                } else {
                    let i = place(grown, id);
                    if i < subs.len() {
                        assert(subs[i].id == id);
                    }
                    assert(grown[i] == sub);
                }
            } else {
                assert(after.subscribers(channel) == subs);
            }
        },
        Event::Unsubscribe { channel: c, id: x } => {
            if c == channel && r.subscribed(channel, x) {
                unsubscribing_unsubscribes(r, channel, x, id);
                assert(x != id);
                let left = without_id(subs, x);
                assert(after.subscribers(channel) =~= left);
                let s = subscription(r, channel, id);
                lemma_kept(subs, x, s);
                lemma_place(left, s);
            } else {
                assert(after.subscribers(channel) == subs);
            }
        },
        Event::Leave { id: x } => {
            assert(r.channels.contains_key(channel));
            let left = without_id(subs, x);
            assert(after.subscribers(channel) == left);
            lemma_without_id(subs, x);
            assert(has_id(left, id) <==> id != x && has_id(subs, id));
            let s = subscription(r, channel, id);
            lemma_kept(subs, x, s);
            lemma_place(left, s);
        },
        Event::Publish { channel: c, payload, outcomes } => {
            channels_are_separate(r, c, channel, subscription(after, channel, id), outcomes);
            assert(after.subscribers(channel) == r.after_sending(c, outcomes).subscribers(channel));
        },
    }
}

/// The frames that the router counts as lost for a subscriber are the full queues since the last
/// frame that it took, or since it subscribed. Whatever else happens does not change them.
pub proof fn lost_frames_are_the_last_answers(
    r: RouterView,
    events: Seq<Event>,
    channel: Seq<u8>,
    id: SubscriberId,
)
    requires
        r.wf(),
        all_possible(r, events),
        !r.subscribed(channel, id),
        r.slow_consumer_threshold as u32 > 0,
    ensures
        after_events(r, events).subscribed(channel, id) ==> {
            let lost = subscription(after_events(r, events), channel, id).drop_count;
            &&& lost == full_run(answers(r, events, channel, id))
            &&& lost < r.slow_consumer_threshold as u32
        },
    decreases events.len(),
{
    let after = after_events(r, events);
    events_keep_order(r, events);
    if after.subscribed(channel, id) {
        lemma_subscription(after, channel, id);
        assert(subscription(after, channel, id).drop_count < r.slow_consumer_threshold as u32);
        let earlier = events.drop_last();
        let before = after_events(r, earlier);
        let e = events.last();
        events_keep_order(r, earlier);
        lost_frames_are_the_last_answers(r, earlier, channel, id);
        let at_channel = e matches Event::Publish { channel: c, .. } && c == channel;
        if at_channel {
            if let Event::Publish { channel: c, payload, outcomes } = e {
                if before.subscribed(channel, id) {
                    lemma_published(before, channel, payload, outcomes, id);
                    let so_far = answers(r, earlier, channel, id);
                    let now = answers(r, events, channel, id);
                    assert(now.drop_last() =~= so_far);
                } else {
                    lemma_nobody_joins(before, channel, payload, outcomes, id);
                }
            }
        } else {
            lemma_untouched(before, e, channel, id);
        }
    }
}

/// A message subscribes nobody.
proof fn lemma_nobody_joins(
    r: RouterView,
    channel: Seq<u8>,
    payload: Seq<u8>,
    outcomes: Seq<SendOutcome>,
    id: SubscriberId,
)
    requires
        r.wf(),
        outcomes.len() == r.subscribers(channel).len(),
        !r.subscribed(channel, id),
    ensures
        !r.after_publish(channel, payload, outcomes).subscribed(channel, id),
{
    let subs = r.subscribers(channel);
    let counted = recounted(subs, outcomes);
    let gone = put_out(subs, outcomes, r.slow_consumer_threshold as u32);
    lemma_recounted(subs, outcomes, gone);
    assert(!has_id(counted, id));
    assert(ids_distinct(subs));
    lemma_evict_ids(counted, gone, id);
    assert(r.after_publish(channel, payload, outcomes).subscribers(channel) =~= evict(
        counted,
        gone,
    ));
}

/// Who leaves with a message, after whatever a router has been through: a subscriber of its channel
/// whose queue is closed, or whose queue was full at this message and at as many messages of the
/// channel before it as make the threshold. It gains room for another subscription by that. Nobody
/// leaves another channel, and the channel goes exactly when nobody is left on it.
pub proof fn slow_consumers_leave_at_the_threshold(
    r: RouterView,
    events: Seq<Event>,
    channel: Seq<u8>,
    payload: Seq<u8>,
    outcomes: Seq<SendOutcome>,
    id: SubscriberId,
    other: Seq<u8>,
)
    requires
        r.wf(),
        all_possible(r, events),
        !r.subscribed(channel, id),
        after_events(r, events).subscribed(channel, id),
        outcomes.len() == after_events(r, events).subscribers(channel).len(),
    ensures
        ({
            let before = after_events(r, events);
            let message = Event::Publish { channel, payload, outcomes };
            let after = after_events(r, events.push(message));
            let met = answers(r, events.push(message), channel, id);
            let threshold = r.slow_consumer_threshold as u32;
            let leaves = met.last() is Closed || (threshold > 0 && full_at_last(
                met,
                threshold as nat,
            ));
            &&& after == before.after_publish(channel, payload, outcomes)
            &&& met.len() > 0
            &&& met.last() == outcomes[place(before.subscribers(channel), id)]
            &&& after.subscribed(channel, id) <==> !leaves
            &&& after.sub_count(id) + (if leaves {
                1nat
            } else {
                0nat
            }) == before.sub_count(id)
            &&& other != channel ==> after.subscribers(other) == before.subscribers(other)
            &&& after.channels.contains_key(channel) <==> exists|x: SubscriberId| #[trigger]
                after.subscribed(channel, x)
        }),
{
    let before = after_events(r, events);
    let message = Event::Publish { channel, payload, outcomes };
    let more = events.push(message);
    assert(more.drop_last() =~= events);
    let after = after_events(r, more);
    let met = answers(r, more, channel, id);
    let t = r.slow_consumer_threshold as u32;
    events_keep_order(r, events);
    assert(all_possible(r, more));
    events_keep_order(r, more);
    lemma_published(before, channel, payload, outcomes, id);
    assert(met.drop_last() =~= answers(r, events, channel, id));
    if t > 0 {
        lost_frames_are_the_last_answers(r, events, channel, id);
        runs_are_last_answers(met, t as nat);
    }
    let subs = before.subscribers(channel);
    let gone = put_out(subs, outcomes, t);
    let i = place(subs, id);
    lemma_subscription(before, channel, id);
    assert(is_gone(subs, gone, id) <==> gone[i]) by {
        if gone[i] {
            assert(subs[i].id == id);
        }
        if is_gone(subs, gone, id) {
            let g = choose|g: int| 0 <= g < gone.len() && gone[g] && (#[trigger] subs[g]).id == id;
            assert(g < i ==> subs[g].id != subs[i].id);
            assert(i < g ==> subs[i].id != subs[g].id);
        }
    }
    lemma_subscribed_counts(before, channel, id);
    if other != channel {
        channels_are_separate(before, channel, other, subs[i], outcomes);
        assert(after.subscribers(other) == before.after_sending(channel, outcomes).subscribers(
            other,
        ));
    }
    if after.channels.contains_key(channel) {
        let first = after.channels[channel][0];
        assert(after.subscribed(channel, first.id));
    }
}

} // verus!
