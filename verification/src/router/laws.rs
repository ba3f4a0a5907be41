//! What holds of the router over all its operations.

use super::model::{
    evict, has_id, ids_distinct, is_gone, next_u32, next_u64, put_out, puts_out, recounted, sent,
    swap_removed, within, without_id, RouterView,
};
use super::{Offer, SendOutcome, Subscriber, SubscriberId};
use vstd::prelude::*;

verus! {

/// Taking a connection out of subscribers leaves all the others, and only them.
pub(crate) proof fn lemma_without_id(subs: Seq<Subscriber>, id: SubscriberId)
    ensures
        forall|x: SubscriberId| #[trigger]
            has_id(without_id(subs, id), x) <==> x != id && has_id(subs, x),
        ids_distinct(subs) ==> ids_distinct(without_id(subs, id)),
        !has_id(subs, id) ==> without_id(subs, id) == subs,
        ids_distinct(subs) && has_id(subs, id) ==> without_id(subs, id).len() == subs.len() - 1,
    decreases subs.len(),
{
    reveal(Seq::filter);
    let kept = without_id(subs, id);
    if subs.len() > 0 {
        let rest = subs.drop_last();
        let last = subs.last();
        lemma_without_id(rest, id);
        let kept_rest = without_id(rest, id);
        assert forall|x: SubscriberId| #[trigger] has_id(subs, x) <==> has_id(rest, x) || last.id
            == x by {
            if has_id(subs, x) {
                let i = choose|i: int| 0 <= i < subs.len() && (#[trigger] subs[i]).id == x;
                assert(i < rest.len() ==> rest[i].id == x);
            }
            if has_id(rest, x) {
                let i = choose|i: int| 0 <= i < rest.len() && (#[trigger] rest[i]).id == x;
                assert(subs[i].id == x);
            }
            assert(subs[subs.len() - 1] == last);
        }
        assert forall|x: SubscriberId| #[trigger] has_id(kept, x) <==> has_id(kept_rest, x) || (
        last.id != id && last.id == x) by {
            if has_id(kept, x) {
                let i = choose|i: int| 0 <= i < kept.len() && (#[trigger] kept[i]).id == x;
                assert(i < kept_rest.len() ==> kept_rest[i].id == x);
            }
            if has_id(kept_rest, x) {
                let i = choose|i: int|
                    0 <= i < kept_rest.len() && (#[trigger] kept_rest[i]).id == x;
                assert(kept[i].id == x);
            }
            if last.id != id {
                assert(kept[kept.len() - 1] == last);
            }
        }
        if ids_distinct(subs) {
            assert(ids_distinct(rest));
            if last.id != id {
                assert(!has_id(rest, last.id)) by {
                    if has_id(rest, last.id) {
                        let i = choose|i: int|
                            0 <= i < rest.len() && (#[trigger] rest[i]).id == last.id;
                        assert(subs[i].id == subs[subs.len() - 1].id);
                    }
                }
                assert(!has_id(kept_rest, last.id));
                assert forall|i: int, j: int| 0 <= i < j < kept.len() implies (
                #[trigger] kept[i]).id != (#[trigger] kept[j]).id by {
                    if j == kept_rest.len() {
                        assert(kept_rest[i].id != last.id);
                    } else {
                        assert(kept_rest[i].id != kept_rest[j].id);
                    }
                }
            }
        }
        if !has_id(subs, id) {
            assert(!has_id(rest, id));
            assert(kept =~= subs);
        }
    }
}

/// Taking a connection out of subscribers keeps the runs of lost frames of the others.
pub(crate) proof fn lemma_without_id_within(
    subs: Seq<Subscriber>,
    id: SubscriberId,
    threshold: u32,
)
    requires
        within(subs, threshold),
    ensures
        within(without_id(subs, id), threshold),
{
    let kept = without_id(subs, id);
    if threshold > 0 {
        assert forall|i: int| 0 <= i < kept.len() implies (#[trigger] kept[i]).drop_count
            < threshold by {
            assert(kept.contains(kept[i]));
            subs.lemma_filter_contains_rev(|s: Subscriber| s.id != id, kept[i]);
            let j = choose|j: int| 0 <= j < subs.len() && subs[j] == kept[i];
            assert(subs[j].drop_count < threshold);
        }
    }
}

/// Putting out those that have lost too many frames in a row leaves none of them.
proof fn lemma_sent_within(subs: Seq<Subscriber>, outcomes: Seq<SendOutcome>, threshold: u32)
    requires
        within(subs, threshold),
        outcomes.len() == subs.len(),
    ensures
        within(
            evict(recounted(subs, outcomes), put_out(subs, outcomes, threshold)),
            threshold,
        ),
{
    let counted = recounted(subs, outcomes);
    let gone = put_out(subs, outcomes, threshold);
    let left = evict(counted, gone);
    lemma_evict(counted, gone);
    if threshold > 0 {
        assert forall|j: int| 0 <= j < left.len() implies (#[trigger] left[j]).drop_count
            < threshold by {
            assert(left.contains(left[j]));
            assert(stays(counted, gone, left[j]));
            let i = choose|i: int|
                0 <= i < counted.len() && (i < gone.len() ==> !gone[i]) && #[trigger] counted[i]
                    == left[j];
            assert(!puts_out(subs[i].drop_count, outcomes[i], threshold));
            assert(subs[i].drop_count < threshold);
        }
    }
}

/// Whether `s` is among the subscribers that are not marked. Those behind the marks are not.
pub open spec fn stays(subs: Seq<Subscriber>, gone: Seq<bool>, s: Subscriber) -> bool {
    exists|i: int|
        0 <= i < subs.len() && (i < gone.len() ==> !gone[i]) && #[trigger] subs[i] == s
}

/// Putting marked subscribers out leaves the others, and only them.
pub(crate) proof fn lemma_evict(subs: Seq<Subscriber>, gone: Seq<bool>)
    requires
        gone.len() <= subs.len(),
    ensures
        forall|s: Subscriber| #[trigger]
            evict(subs, gone).contains(s) <==> stays(subs, gone, s),
        ids_distinct(subs) ==> ids_distinct(evict(subs, gone)),
        evict(subs, gone).len() <= subs.len(),
    decreases gone.len(),
{
    if gone.len() == 0 {
        assert forall|s: Subscriber| #[trigger] subs.contains(s) <==> stays(subs, gone, s) by {
            if subs.contains(s) {
                let i = choose|i: int| 0 <= i < subs.len() && subs[i] == s;
                assert(subs[i] == s);
            }
        }
    } else {
        let k = gone.len() - 1;
        let rest = gone.drop_last();
        if gone.last() {
            let t = swap_removed(subs, k);
            lemma_evict(t, rest);
            assert forall|s: Subscriber| #[trigger] stays(t, rest, s) <==> stays(subs, gone, s) by {
                if stays(t, rest, s) {
                    let i = choose|i: int|
                        0 <= i < t.len() && (i < rest.len() ==> !rest[i]) && #[trigger] t[i] == s;
                    if i == k {
                        assert(subs[subs.len() - 1] == s);
                    } else {
                        assert(subs[i] == s);
                    }
                }
                if stays(subs, gone, s) {
                    let i = choose|i: int|
                        0 <= i < subs.len() && (i < gone.len() ==> !gone[i]) && #[trigger] subs[i]
                            == s;
                    assert(i != k);
                    if i == subs.len() - 1 {
                        assert(t[k] == s);
                    } else {
                        assert(t[i] == s);
                    }
                }
            }
            if ids_distinct(subs) {
                assert(ids_distinct(t));
            }
        } else {
            lemma_evict(subs, rest);
            assert forall|s: Subscriber| #[trigger]
                stays(subs, rest, s) <==> stays(subs, gone, s) by {
                if stays(subs, rest, s) {
                    let i = choose|i: int|
                        0 <= i < subs.len() && (i < rest.len() ==> !rest[i]) && #[trigger] subs[i]
                            == s;
                    assert(i < gone.len() ==> !gone[i]);
                }
                if stays(subs, gone, s) {
                    let i = choose|i: int|
                        0 <= i < subs.len() && (i < gone.len() ==> !gone[i]) && #[trigger] subs[i]
                            == s;
                    assert(i < rest.len() ==> !rest[i]);
                }
            }
        }
    }
}

/// Who is marked from `k` on.
pub(crate) proof fn lemma_gone_from(subs: Seq<Subscriber>, gone: Seq<bool>, k: int)
    requires
        0 <= k < gone.len() == subs.len(),
    ensures
        forall|id: SubscriberId| #[trigger]
            is_gone(subs.skip(k), gone.skip(k), id) <==> is_gone(
                subs.skip(k + 1),
                gone.skip(k + 1),
                id,
            ) || (gone[k] && subs[k].id == id),
{
    let (s, g) = (subs.skip(k), gone.skip(k));
    let (t, h) = (subs.skip(k + 1), gone.skip(k + 1));
    assert forall|id: SubscriberId| #[trigger] is_gone(s, g, id) <==> is_gone(t, h, id) || (gone[k]
        && subs[k].id == id) by {
        if is_gone(s, g, id) {
            let i = choose|i: int| 0 <= i < g.len() && g[i] && (#[trigger] s[i]).id == id;
            if i > 0 {
                assert(h[i - 1] && t[i - 1].id == id);
            }
        }
        if is_gone(t, h, id) {
            let i = choose|i: int| 0 <= i < h.len() && h[i] && (#[trigger] t[i]).id == id;
            assert(g[i + 1] && s[i + 1].id == id);
        }
        if gone[k] && subs[k].id == id {
            assert(g[0] && s[0].id == id);
        }
    }
}

/// Who is left when marked subscribers are put out.
pub(crate) proof fn lemma_evict_ids(subs: Seq<Subscriber>, gone: Seq<bool>, id: SubscriberId)
    requires
        gone.len() == subs.len(),
        ids_distinct(subs),
    ensures
        has_id(evict(subs, gone), id) <==> has_id(subs, id) && !is_gone(subs, gone, id),
{
    lemma_evict(subs, gone);
    let left = evict(subs, gone);
    if has_id(left, id) {
        let j = choose|j: int| 0 <= j < left.len() && (#[trigger] left[j]).id == id;
        assert(left.contains(left[j]));
        assert(stays(subs, gone, left[j]));
        let i = choose|i: int|
            0 <= i < subs.len() && (i < gone.len() ==> !gone[i]) && #[trigger] subs[i] == left[j];
        assert(subs[i].id == id);
        if is_gone(subs, gone, id) {
            let g = choose|g: int| 0 <= g < gone.len() && gone[g] && (#[trigger] subs[g]).id == id;
            assert(g != i);
            assert(g < i ==> subs[g].id != subs[i].id);
            assert(i < g ==> subs[i].id != subs[g].id);
        }
    }
    if has_id(subs, id) && !is_gone(subs, gone, id) {
        let i = choose|i: int| 0 <= i < subs.len() && (#[trigger] subs[i]).id == id;
        assert(!gone[i]);
        assert(stays(subs, gone, subs[i]));
        assert(left.contains(subs[i]));
        let j = choose|j: int| 0 <= j < left.len() && left[j] == subs[i];
        assert(left[j].id == id);
    }
}

/// How the channels of a connection change with the subscribers of one channel.
pub(crate) proof fn lemma_channels_of(
    r: RouterView,
    channel: Seq<u8>,
    subs: Seq<Subscriber>,
    id: SubscriberId,
)
    requires
        r.channels.dom().finite(),
    ensures
        ({
            let after = r.with_subscribers(channel, subs);
            &&& after.channels.dom().finite()
            &&& after.channels_of(id).len() + (if r.subscribed(channel, id) {
                1nat
            } else {
                0nat
            }) == r.channels_of(id).len() + (if has_id(subs, id) {
                1nat
            } else {
                0nat
            })
        }),
{
    let after = r.with_subscribers(channel, subs);
    let old_set = r.channels_of(id);
    let new_set = after.channels_of(id);
    r.channels.dom().lemma_len_filter(|c: Seq<u8>| has_id(r.channels[c], id));
    if has_id(subs, id) {
        assert(subs.len() > 0);
        assert(new_set =~= old_set.insert(channel));
    } else {
        assert(new_set =~= old_set.remove(channel));
    }
}

/// A subscriber is among those of its channel, and its channel among its own.
pub(crate) proof fn lemma_subscribed_counts(r: RouterView, channel: Seq<u8>, id: SubscriberId)
    requires
        r.wf(),
        r.subscribed(channel, id),
    ensures
        r.sub_counts.contains_key(id),
        r.sub_counts[id] >= 1,
{
    assert(r.sub_count(id) == r.channels_of(id).len());
    assert(r.channels_of(id).contains(channel));
    r.channels.dom().lemma_len_filter(|c: Seq<u8>| has_id(r.channels[c], id));
    assert(r.channels_of(id).len() >= 1);
}

/// Whether a router is in order does not depend on its counters and its record.
pub(crate) proof fn lemma_counters_aside(a: RouterView, b: RouterView)
    requires
        a.wf(),
        b == (RouterView {
            next_id: b.next_id,
            next_msg_id: b.next_msg_id,
            offers: b.offers,
            ..a
        }),
    ensures
        b.wf(),
{
    assert forall|id: SubscriberId| #[trigger]
        b.sub_count(id) == b.channels_of(id).len() && b.sub_count(id) <= b.max_subscriptions by {
        assert(b.channels_of(id) =~= a.channels_of(id));
        assert(a.sub_count(id) == a.channels_of(id).len());
    }
}

/// A subscription that is not refused keeps the router in order: every channel has subscribers,
/// none is there twice, the counts are right and the limits hold.
pub proof fn subscribing_keeps_order(r: RouterView, channel: Seq<u8>, sub: Subscriber)
    requires
        r.wf(),
        r.refusal(channel, sub.id) is None,
        sub.drop_count == 0,
    ensures
        r.after_subscribe(channel, sub).wf(),
{
    let after = r.after_subscribe(channel, sub);
    if !r.subscribed(channel, sub.id) {
        let old_subs = r.subscribers(channel);
        let subs = old_subs.push(sub);
        assert(subs[old_subs.len() as int] == sub);
        assert forall|id: SubscriberId| #[trigger] has_id(subs, id) <==> has_id(old_subs, id) || id
            == sub.id by {
            if has_id(subs, id) {
                let i = choose|i: int| 0 <= i < subs.len() && (#[trigger] subs[i]).id == id;
                assert(i < old_subs.len() ==> old_subs[i].id == id);
            }
            if has_id(old_subs, id) {
                let i = choose|i: int| 0 <= i < old_subs.len() && (#[trigger] old_subs[i]).id == id;
                assert(subs[i].id == id);
            }
        }
        assert(ids_distinct(subs)) by {
            assert forall|i: int, j: int| 0 <= i < j < subs.len() implies (#[trigger] subs[i]).id
                != (#[trigger] subs[j]).id by {
                if j == old_subs.len() {
                    assert(old_subs[i].id != sub.id);
                } else {
                    assert(old_subs[i].id != old_subs[j].id);
                }
            }
        }
        assert forall|id: SubscriberId| #[trigger]
            after.sub_count(id) == after.channels_of(id).len() && after.sub_count(id)
                <= after.max_subscriptions by {
            lemma_channels_of(r, channel, subs, id);
            assert(after.channels_of(id) =~= r.with_subscribers(channel, subs).channels_of(id));
            assert(r.sub_count(id) == r.channels_of(id).len());
        }
        lemma_channels_of(r, channel, subs, sub.id);
    }
}

/// Leaving a channel keeps the router in order.
pub proof fn unsubscribing_keeps_order(r: RouterView, channel: Seq<u8>, id: SubscriberId)
    requires
        r.wf(),
    ensures
        r.after_unsubscribe(channel, id).wf(),
{
    let after = r.after_unsubscribe(channel, id);
    if r.subscribed(channel, id) {
        let subs = without_id(r.subscribers(channel), id);
        lemma_without_id(r.subscribers(channel), id);
        lemma_without_id_within(
            r.subscribers(channel),
            id,
            r.slow_consumer_threshold as u32,
        );
        lemma_subscribed_counts(r, channel, id);
        assert forall|x: SubscriberId| #[trigger]
            after.sub_count(x) == after.channels_of(x).len() && after.sub_count(x)
                <= after.max_subscriptions by {
            lemma_channels_of(r, channel, subs, x);
            assert(after.channels_of(x) =~= r.with_subscribers(channel, subs).channels_of(x));
            assert(r.sub_count(x) == r.channels_of(x).len());
        }
        lemma_channels_of(r, channel, subs, id);
    }
}

/// A connection that leaves keeps the router in order, and nothing of it is left.
pub proof fn leaving_keeps_order(r: RouterView, id: SubscriberId)
    requires
        r.wf(),
    ensures
        r.after_remove(id).wf(),
        r.after_remove(id).channels_of(id) == Set::<Seq<u8>>::empty(),
        r.after_remove(id).sub_count(id) == 0,
{
    let after = r.after_remove(id);
    assert(after.channels.dom() =~= r.channels.dom().filter(
        |c: Seq<u8>| without_id(r.channels[c], id).len() > 0,
    ));
    r.channels.dom().lemma_len_filter(|c: Seq<u8>| without_id(r.channels[c], id).len() > 0);
    assert forall|c: Seq<u8>| #[trigger] after.channels.contains_key(c) implies {
        &&& after.channels[c].len() > 0
        &&& ids_distinct(after.channels[c])
        &&& within(after.channels[c], after.slow_consumer_threshold as u32)
    } by {
        assert(r.channels.contains_key(c));
        lemma_without_id(r.channels[c], id);
        lemma_without_id_within(r.channels[c], id, r.slow_consumer_threshold as u32);
    }
    assert forall|x: SubscriberId| #[trigger]
        after.sub_count(x) == after.channels_of(x).len() && after.sub_count(x)
            <= after.max_subscriptions by {
        assert(r.sub_count(x) == r.channels_of(x).len());
        assert forall|c: Seq<u8>| #[trigger]
            after.channels_of(x).contains(c) <==> x != id && r.channels_of(x).contains(c) by {
            if r.channels.contains_key(c) {
                lemma_without_id(r.channels[c], id);
                assert(has_id(without_id(r.channels[c], id), x) <==> x != id && has_id(
                    r.channels[c],
                    x,
                ));
            }
        }
        if x == id {
            assert(after.channels_of(x) =~= Set::empty());
        } else {
            assert(after.channels_of(x) =~= r.channels_of(x));
        }
    }
    assert(after.sub_count(id) == after.channels_of(id).len());
    assert forall|c: Seq<u8>| !after.channels_of(id).contains(c) by {
        if r.channels.contains_key(c) {
            lemma_without_id(r.channels[c], id);
            assert(has_id(without_id(r.channels[c], id), id) ==> false);
        }
    }
    assert(after.channels_of(id) =~= Set::empty());
}

/// Sending, whatever its outcomes, keeps the router in order.
pub proof fn sending_keeps_order(r: RouterView, channel: Seq<u8>, outcomes: Seq<SendOutcome>)
    requires
        r.wf(),
        outcomes.len() == r.subscribers(channel).len(),
    ensures
        r.after_sending(channel, outcomes).wf(),
{
    let after = r.after_sending(channel, outcomes);
    let subs = r.subscribers(channel);
    let gone = put_out(subs, outcomes, r.slow_consumer_threshold as u32);
    let counted = recounted(subs, outcomes);
    let left = evict(counted, gone);
    lemma_recounted(subs, outcomes, gone);
    lemma_evict(counted, gone);
    lemma_sent_within(subs, outcomes, r.slow_consumer_threshold as u32);
    assert forall|x: SubscriberId| #[trigger]
        after.sub_count(x) == after.channels_of(x).len() && after.sub_count(x)
            <= after.max_subscriptions by {
        lemma_channels_of(r, channel, left, x);
        assert(after.channels_of(x) =~= r.with_subscribers(channel, left).channels_of(x));
        assert(r.sub_count(x) == r.channels_of(x).len());
        lemma_evict_ids(counted, gone, x);
        assert(has_id(counted, x) <==> has_id(subs, x));
        assert(is_gone(counted, gone, x) <==> is_gone(subs, gone, x));
        if is_gone(subs, gone, x) {
            let i = choose|i: int| 0 <= i < gone.len() && gone[i] && (#[trigger] subs[i]).id == x;
            assert(has_id(subs, x));
            lemma_subscribed_counts(r, channel, x);
        }
    }
    lemma_channels_of(r, channel, left, 0);
    if left.len() > 0 && !r.channels.contains_key(channel) {
        assert(counted.len() == 0);
    }
}

/// A frame for a channel without subscribers changes nothing.
pub(crate) proof fn lemma_sent_to_nobody(r: RouterView, channel: Seq<u8>)
    requires
        !r.channels.contains_key(channel),
    ensures
        r.after_sending(channel, Seq::empty()) == r,
        sent(Seq::empty()) == 0,
{
    reveal(Seq::filter);
    let want = r.after_sending(channel, Seq::empty());
    assert(recounted(r.subscribers(channel), Seq::empty()) =~= Seq::empty());
    assert(want.channels =~= r.channels);
    assert(want.sub_counts =~= r.sub_counts);
}

/// Counting lost frames changes no subscriber's identity.
pub(crate) proof fn lemma_recounted(
    subs: Seq<Subscriber>,
    outcomes: Seq<SendOutcome>,
    gone: Seq<bool>,
)
    requires
        gone.len() == subs.len(),
    ensures
        ids_distinct(subs) ==> ids_distinct(recounted(subs, outcomes)),
        forall|x: SubscriberId| #[trigger]
            has_id(recounted(subs, outcomes), x) <==> has_id(subs, x),
        forall|x: SubscriberId| #[trigger]
            is_gone(recounted(subs, outcomes), gone, x) <==> is_gone(subs, gone, x),
{
    let counted = recounted(subs, outcomes);
    assert forall|x: SubscriberId| #[trigger] has_id(counted, x) <==> has_id(subs, x) by {
        if has_id(counted, x) {
            let i = choose|i: int| 0 <= i < counted.len() && (#[trigger] counted[i]).id == x;
            assert(subs[i].id == x);
        }
        if has_id(subs, x) {
            let i = choose|i: int| 0 <= i < subs.len() && (#[trigger] subs[i]).id == x;
            assert(counted[i].id == x);
        }
    }
    assert forall|x: SubscriberId| #[trigger] is_gone(counted, gone, x) <==> is_gone(
        subs,
        gone,
        x,
    ) by {
        if is_gone(counted, gone, x) {
            let i = choose|i: int|
                0 <= i < gone.len() && gone[i] && (#[trigger] counted[i]).id == x;
            assert(subs[i].id == x);
        }
        if is_gone(subs, gone, x) {
            let i = choose|i: int| 0 <= i < gone.len() && gone[i] && (#[trigger] subs[i]).id == x;
            assert(counted[i].id == x);
        }
    }
}

/// A connection that subscribes is subscribed, once; who was subscribed before still is, and
/// subscribing again changes nothing.
pub proof fn subscribing_subscribes(
    r: RouterView,
    channel: Seq<u8>,
    sub: Subscriber,
    again: Subscriber,
    other: SubscriberId,
)
    requires
        r.wf(),
        again.id == sub.id,
    ensures
        r.after_subscribe(channel, sub).subscribed(channel, sub.id),
        r.subscribed(channel, other) ==> r.after_subscribe(channel, sub).subscribed(channel, other),
        r.after_subscribe(channel, sub).after_subscribe(channel, again) == r.after_subscribe(
            channel,
            sub,
        ),
{
    let after = r.after_subscribe(channel, sub);
    if !r.subscribed(channel, sub.id) {
        let old_subs = r.subscribers(channel);
        let subs = old_subs.push(sub);
        assert(after.subscribers(channel) == subs);
        assert(subs[old_subs.len() as int].id == sub.id);
        if has_id(old_subs, other) {
            let i = choose|i: int| 0 <= i < old_subs.len() && (#[trigger] old_subs[i]).id == other;
            assert(subs[i].id == other);
        }
    }
}

/// A connection that leaves a channel is not subscribed to it any more; the others still are.
pub proof fn unsubscribing_unsubscribes(
    r: RouterView,
    channel: Seq<u8>,
    id: SubscriberId,
    other: SubscriberId,
)
    requires
        r.wf(),
    ensures
        !r.after_unsubscribe(channel, id).subscribed(channel, id),
        other != id ==> (r.after_unsubscribe(channel, id).subscribed(channel, other)
            <==> r.subscribed(channel, other)),
{
    let after = r.after_unsubscribe(channel, id);
    if r.subscribed(channel, id) {
        let subs = without_id(r.subscribers(channel), id);
        lemma_without_id(r.subscribers(channel), id);
        assert(after.subscribers(channel) =~= subs);
        assert(has_id(subs, id) ==> false);
        assert(has_id(subs, other) <==> other != id && has_id(r.subscribers(channel), other));
    }
}

/// Leaving a channel undoes subscribing to it.
pub proof fn unsubscribing_undoes_subscribing(
    r: RouterView,
    channel: Seq<u8>,
    sub: Subscriber,
    id: SubscriberId,
)
    requires
        r.wf(),
        !r.subscribed(channel, sub.id),
    ensures
        ({
            let back = r.after_subscribe(channel, sub).after_unsubscribe(channel, sub.id);
            &&& back.channels == r.channels
            &&& back.sub_count(id) == r.sub_count(id)
        }),
{
    let there = r.after_subscribe(channel, sub);
    let back = there.after_unsubscribe(channel, sub.id);
    let old_subs = r.subscribers(channel);
    let subs = old_subs.push(sub);
    subscribing_subscribes(r, channel, sub, sub, sub.id);
    assert(there.subscribers(channel) == subs);
    assert(without_id(subs, sub.id) == old_subs) by {
        reveal(Seq::filter);
        assert(subs.drop_last() =~= old_subs);
        lemma_without_id(old_subs, sub.id);
    }
    assert(back.channels =~= r.channels);
}

/// Who is subscribed to a channel after a frame has been sent to it: all that were, but for those
/// that the outcome puts out.
pub proof fn sending_puts_out_only_the_marked(
    r: RouterView,
    channel: Seq<u8>,
    outcomes: Seq<SendOutcome>,
    i: int,
)
    requires
        r.wf(),
        outcomes.len() == r.subscribers(channel).len(),
        0 <= i < outcomes.len(),
    ensures
        ({
            let sub = r.subscribers(channel)[i];
            r.after_sending(channel, outcomes).subscribed(channel, sub.id) <==> !puts_out(
                sub.drop_count,
                outcomes[i],
                r.slow_consumer_threshold as u32,
            )
        }),
{
    let subs = r.subscribers(channel);
    let gone = put_out(subs, outcomes, r.slow_consumer_threshold as u32);
    let counted = recounted(subs, outcomes);
    let id = subs[i].id;
    lemma_recounted(subs, outcomes, gone);
    lemma_evict_ids(counted, gone, id);
    assert(has_id(subs, id));
    assert(has_id(counted, id));
    assert(r.after_sending(channel, outcomes).subscribers(channel) =~= evict(counted, gone));
    assert(is_gone(subs, gone, id) <==> gone[i]) by {
        if gone[i] {
            assert(subs[i].id == id);
        }
        if is_gone(subs, gone, id) {
            let g = choose|g: int| 0 <= g < gone.len() && gone[g] && (#[trigger] subs[g]).id == id;
            assert(g < i ==> subs[g].id != subs[i].id);
            assert(i < g ==> subs[i].id != subs[g].id);
        }
    }
    assert(is_gone(counted, gone, id) <==> is_gone(subs, gone, id));
}

/// Where every queue takes the frame, everyone stays, in their order, with no frame lost.
pub proof fn sending_to_all_keeps_all(
    r: RouterView,
    channel: Seq<u8>,
    outcomes: Seq<SendOutcome>,
)
    requires
        r.wf(),
        outcomes.len() == r.subscribers(channel).len(),
        forall|i: int| 0 <= i < outcomes.len() ==> #[trigger] outcomes[i] == SendOutcome::Sent,
    ensures
        sent(outcomes) == r.subscribers(channel).len(),
        r.after_sending(channel, outcomes).subscribers(channel) == Seq::new(
            r.subscribers(channel).len(),
            |i: int| Subscriber { drop_count: 0, ..r.subscribers(channel)[i] },
        ),
        r.after_sending(channel, outcomes).sub_counts == r.sub_counts,
{
    let subs = r.subscribers(channel);
    let gone = put_out(subs, outcomes, r.slow_consumer_threshold as u32);
    let counted = recounted(subs, outcomes);
    lemma_sent_all(outcomes);
    lemma_evict_none(counted, gone);
    assert(counted =~= Seq::new(subs.len(), |i: int| Subscriber { drop_count: 0, ..subs[i] }));
    assert(r.after_sending(channel, outcomes).subscribers(channel) =~= counted);
    assert(r.after_sending(channel, outcomes).sub_counts =~= r.sub_counts);
}

proof fn lemma_sent_all(outcomes: Seq<SendOutcome>)
    requires
        forall|i: int| 0 <= i < outcomes.len() ==> #[trigger] outcomes[i] == SendOutcome::Sent,
    ensures
        sent(outcomes) == outcomes.len(),
    decreases outcomes.len(),
{
    reveal(Seq::filter);
    if outcomes.len() > 0 {
        lemma_sent_all(outcomes.drop_last());
    }
}

proof fn lemma_evict_none(subs: Seq<Subscriber>, gone: Seq<bool>)
    requires
        gone.len() <= subs.len(),
        forall|i: int| 0 <= i < gone.len() ==> !#[trigger] gone[i],
    ensures
        evict(subs, gone) == subs,
    decreases gone.len(),
{
    if gone.len() > 0 {
        lemma_evict_none(subs, gone.drop_last());
    }
}

/// No more subscribers are reached than there are.
pub proof fn no_more_sent_than_offered(outcomes: Seq<SendOutcome>)
    ensures
        sent(outcomes) <= outcomes.len(),
{
    outcomes.lemma_filter_len(|o: SendOutcome| o is Sent);
}

/// With a threshold of zero, no subscriber is put out for being slow.
pub proof fn no_threshold_no_slow_consumers(lost: u32)
    ensures
        !puts_out(lost, SendOutcome::Full, 0),
{
}

/// Whatever happens on one channel leaves the subscribers of the others as they are.
pub proof fn channels_are_separate(
    r: RouterView,
    channel: Seq<u8>,
    other: Seq<u8>,
    sub: Subscriber,
    outcomes: Seq<SendOutcome>,
)
    requires
        other != channel,
    ensures
        r.after_subscribe(channel, sub).subscribers(other) == r.subscribers(other),
        r.after_unsubscribe(channel, sub.id).subscribers(other) == r.subscribers(other),
        r.after_sending(channel, outcomes).subscribers(other) == r.subscribers(other),
{
}

/// A connection that leaves takes no other off any channel.
pub proof fn leaving_leaves_the_others(
    r: RouterView,
    id: SubscriberId,
    other: SubscriberId,
    channel: Seq<u8>,
)
    requires
        other != id,
    ensures
        r.after_remove(id).subscribed(channel, other) <==> r.subscribed(channel, other),
        r.after_remove(id).sub_count(other) == r.sub_count(other),
{
    if r.channels.contains_key(channel) {
        let subs = r.channels[channel];
        lemma_without_id(subs, id);
        assert(has_id(without_id(subs, id), other) <==> has_id(subs, other));
    }
}

/// The name that a connection gets after `n` others have got theirs.
pub open spec fn name_after(id: SubscriberId, n: nat) -> SubscriberId
    decreases n,
{
    if n == 0 {
        id
    } else {
        next_u64(name_after(id, (n - 1) as nat))
    }
}

/// No two connections have the same name, as long as there are fewer than 64 bits of them.
pub proof fn names_are_distinct(id: SubscriberId, m: nat, n: nat)
    requires
        m < n <= u64::MAX,
    ensures
        name_after(id, m) != name_after(id, n),
{
    lemma_name_after(id, m);
    lemma_name_after(id, n);
}

proof fn lemma_name_after(id: SubscriberId, n: nat)
    requires
        n <= u64::MAX,
    ensures
        name_after(id, n) == if id + n <= u64::MAX {
            id + n
        } else {
            id + n - u64::MAX - 1
        },
    decreases n,
{
    if n > 0 {
        lemma_name_after(id, (n - 1) as nat);
    }
}

/// A message is offered once to each subscriber of its channel, always as the same frame, and to
/// nobody else; without subscribers it is offered to nobody. Its number is used up either way.
pub proof fn publishing_offers_once(
    r: RouterView,
    channel: Seq<u8>,
    payload: Seq<u8>,
    outcomes: Seq<SendOutcome>,
)
    requires
        outcomes.len() == r.subscribers(channel).len(),
    ensures
        ({
            let after = r.after_publish(channel, payload, outcomes);
            let subs = r.subscribers(channel);
            let n = r.offers.len();
            &&& after.offers.len() == n + subs.len()
            &&& after.offers.take(n as int) == r.offers
            &&& forall|i: int|
                0 <= i < subs.len() ==> #[trigger] after.offers[n + i] == (Offer {
                    queue: subs[i].sender,
                    frame: r.next_frame(channel, payload),
                    outcome: outcomes[i],
                })
            &&& after.next_msg_id == next_u32(r.next_msg_id)
        }),
{
    let after = r.after_publish(channel, payload, outcomes);
    assert(after.offers.take(r.offers.len() as int) =~= r.offers);
}

} // verus!
