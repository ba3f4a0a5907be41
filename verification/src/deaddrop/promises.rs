//! What is kept, handed out and taken, envelope by envelope.

use super::laws::{lemma_bytes_insert, lemma_without_stale};
use super::model::{bytes_of, fresh, payloads, DeadDropView, EnvelopeView};
use super::store::{list_view, queue_view, StoredEnvelope};
use crate::clock::{cutoff_of, horizon};
use crate::sums::{lemma_total_empty, lemma_total_insert, lemma_total_remove};
use vstd::prelude::*;

verus! {

/// A cutoff lies as many seconds before `now` as it should, or before the start of the clock.
pub proof fn cutoffs_lie_back_in_seconds(now: u64, age_secs: u64)
    ensures
        cutoff_of(now, age_secs) matches Some(point) ==> point + 1_000_000_000 * age_secs == now,
        cutoff_of(now, age_secs) is None <==> 1_000_000_000 * age_secs > now,
        cutoff_of(now, age_secs) matches Some(point) ==> horizon(now, age_secs) == point,
        cutoff_of(now, age_secs) is None ==> horizon(now, age_secs) == 0,
{
}

/// An envelope is taken exactly where its channel is there or there is room for another, and its
/// bytes go with all others into the limit; otherwise the first of these that fails is the reason.
pub proof fn envelopes_are_refused_for_cause(d: DeadDropView, channel: Seq<u8>, len: nat)
    ensures
        ({
            let refusal = d.refusal(channel, len);
            let room = d.drops.contains_key(channel) || d.drops.len() < d.max_channels;
            &&& refusal is None <==> room && d.bytes() + len <= d.max_total_bytes
            &&& !room ==> refusal == Some("deaddrop channel limit reached"@)
            &&& room && d.bytes() + len > d.max_total_bytes ==> refusal == Some(
                "deaddrop storage limit reached"@,
            )
        }),
{
}

/// The bytes of envelopes add up, and so do those of channels.
pub proof fn bytes_add_up(
    d: DeadDropView,
    channel: Seq<u8>,
    queue: Seq<EnvelopeView>,
    e: EnvelopeView,
)
    requires
        d.drops.dom().finite(),
    ensures
        bytes_of(Seq::<EnvelopeView>::empty()) == 0,
        bytes_of(queue.push(e)) == bytes_of(queue) + e.data.len(),
        d.drops.dom() == Set::<Seq<u8>>::empty() ==> d.bytes() == 0,
        (DeadDropView { drops: d.drops.insert(channel, queue), ..d }).bytes() == d.bytes()
            + bytes_of(queue) - if d.drops.contains_key(channel) {
            bytes_of(d.drops[channel])
        } else {
            0
        },
{
    assert(queue.push(e).drop_last() =~= queue);
    lemma_bytes_insert(d, channel, queue);
    assert(bytes_of(Seq::<EnvelopeView>::empty()) == 0);
    if d.drops.dom() == Set::<Seq<u8>>::empty() {
        assert(d.sizes().dom() =~= Set::empty());
        lemma_total_empty(d.sizes());
    }
}

/// Envelopes add up: with no channels there are none, and another queue of a channel adds its
/// length in place of that of the queue before.
pub proof fn envelopes_add_up(d: DeadDropView, channel: Seq<u8>, queue: Seq<EnvelopeView>)
    requires
        d.drops.dom().finite(),
    ensures
        d.drops.dom() == Set::<Seq<u8>>::empty() ==> d.envelopes() == 0,
        (DeadDropView { drops: d.drops.insert(channel, queue), ..d }).envelopes() == d.envelopes()
            + queue.len() - if d.drops.contains_key(channel) {
            d.drops[channel].len()
        } else {
            0
        },
{
    let sizes = d.lengths();
    let after = DeadDropView { drops: d.drops.insert(channel, queue), ..d };
    assert(sizes.dom() =~= d.drops.dom());
    if d.drops.dom() == Set::<Seq<u8>>::empty() {
        lemma_total_empty(sizes);
    }
    lemma_total_insert(sizes, channel, queue.len());
    assert(after.lengths() =~= sizes.insert(channel, queue.len()));
    if d.drops.contains_key(channel) {
        lemma_total_remove(sizes, channel);
    } else {
        assert(sizes.remove(channel) =~= sizes);
    }
}

/// Lists and queues are seen item by item.
pub proof fn envelopes_are_seen_one_by_one(
    list: Seq<Vec<u8>>,
    queue: Seq<StoredEnvelope>,
    i: int,
    j: int,
)
    requires
        0 <= i < list.len(),
        0 <= j < queue.len(),
    ensures
        list_view(list).len() == list.len(),
        list_view(list)[i] == list[i]@,
        queue_view(queue).len() == queue.len(),
        queue_view(queue)[j].data == queue[j].data@,
        queue_view(queue)[j].stored_at == queue[j].stored_at,
{
}

/// Storing puts the whole envelope behind those that its channel holds. Where that makes too many,
/// the oldest go, and as few as can be. Nothing else changes.
pub proof fn storing_appends(
    d: DeadDropView,
    channel: Seq<u8>,
    data: Seq<u8>,
    now: u64,
    other: Seq<u8>,
)
    ensures
        ({
            let after = d.after_store(channel, data, now);
            let was = d.queue(channel);
            let is = after.queue(channel);
            let gone = was.len() + 1 - is.len();
            &&& after.drops.contains_key(channel)
            &&& is.len() == if was.len() + 1 <= d.max_per_drop {
                was.len() + 1
            } else {
                d.max_per_drop
            }
            &&& forall|i: int| 0 <= i < is.len() - 1 ==> #[trigger] is[i] == was[gone + i]
            &&& is.len() > 0 ==> is.last().data == data && is.last().stored_at == now
            &&& other != channel ==> after.drops.contains_key(other) == d.drops.contains_key(other)
                && after.queue(other) == d.queue(other)
            &&& after.max_per_drop == d.max_per_drop
            &&& after.max_channels == d.max_channels
            &&& after.max_total_bytes == d.max_total_bytes
            &&& after.default_ttl_secs == d.default_ttl_secs
        }),
{
}

/// Whether `out` is what the envelopes at the places `at` hold, in their order, and these are all
/// envelopes from `cutoff` on; without a cutoff, all there are.
pub open spec fn picked(
    queue: Seq<EnvelopeView>,
    cutoff: Option<u64>,
    at: Seq<int>,
    out: Seq<Seq<u8>>,
) -> bool {
    &&& at.len() == out.len()
    &&& forall|i: int, j: int| 0 <= i < j < at.len() ==> #[trigger] at[i] < #[trigger] at[j]
    &&& forall|i: int|
        0 <= i < at.len() ==> {
            &&& 0 <= #[trigger] at[i] < queue.len()
            &&& out[i] == queue[at[i]].data
            &&& cutoff is None || queue[at[i]].stored_at >= cutoff->0
        }
    &&& forall|j: int|
        0 <= j < queue.len() && (cutoff is None || queue[j].stored_at >= cutoff->0)
            ==> #[trigger] at.contains(j)
}

/// The places of the envelopes from `cutoff` on.
pub open spec fn places(queue: Seq<EnvelopeView>, cutoff: Option<u64>) -> Seq<int>
    decreases queue.len(),
{
    if queue.len() == 0 {
        Seq::empty()
    } else {
        let before = places(queue.drop_last(), cutoff);
        if cutoff matches Some(point) && queue.last().stored_at < point {
            before
        } else {
            before.push(queue.len() - 1)
        }
    }
}

/// What is retrieved is all that the channel holds from the cutoff on, each whole and in its order,
/// and nothing else.
pub proof fn retrieving_leaves_nothing_out(d: DeadDropView, channel: Seq<u8>, cutoff: Option<u64>)
    ensures
        picked(
            d.queue(channel),
            cutoff,
            places(d.queue(channel), cutoff),
            d.retrieved(channel, cutoff),
        ),
{
    let queue = d.queue(channel);
    match cutoff {
        Some(point) => lemma_picked(queue, cutoff, payloads(fresh(queue, point))),
        None => lemma_picked(queue, cutoff, payloads(queue)),
    }
}

proof fn lemma_picked(queue: Seq<EnvelopeView>, cutoff: Option<u64>, out: Seq<Seq<u8>>)
    requires
        out == match cutoff {
            Some(point) => payloads(fresh(queue, point)),
            None => payloads(queue),
        },
    ensures
        picked(queue, cutoff, places(queue, cutoff), out),
    decreases queue.len(),
{
    reveal(Seq::filter);
    if queue.len() == 0 {
        assert(out =~= Seq::empty());
        assert(picked(queue, cutoff, places(queue, cutoff), out));
    } else {
        let rest = queue.drop_last();
        let shorter = match cutoff {
            Some(point) => payloads(fresh(rest, point)),
            None => payloads(rest),
        };
        lemma_picked(rest, cutoff, shorter);
        let before = places(rest, cutoff);
        let at = places(queue, cutoff);
        let old = cutoff matches Some(point) && queue.last().stored_at < point;
        if old {
            assert(out =~= shorter);
        } else {
            assert(out =~= shorter.push(queue.last().data));
            assert(at[at.len() - 1] == queue.len() - 1);
        }
        assert forall|j: int|
            0 <= j < queue.len() && (cutoff is None || queue[j].stored_at >= cutoff->0) implies
            #[trigger] at.contains(j) by {
            if j < rest.len() {
                assert(rest[j] == queue[j]);
                assert(before.contains(j));
                let i = choose|i: int| 0 <= i < before.len() && before[i] == j;
                assert(at[i] == j);
            } else {
                assert(at[at.len() - 1] == j);
            }
        }
        assert forall|i: int| 0 <= i < at.len() implies {
            &&& 0 <= #[trigger] at[i] < queue.len()
            &&& out[i] == queue[at[i]].data
            &&& cutoff is None || queue[at[i]].stored_at >= cutoff->0
        } by {
            if i < before.len() {
                assert(at[i] == before[i]);
                assert(out[i] == shorter[i]);
                assert(rest[before[i]] == queue[before[i]]);
            }
        }
        assert forall|i: int, j: int| 0 <= i < j < at.len() implies #[trigger] at[i]
            < #[trigger] at[j] by {
            assert(at[i] == before[i]);
            if j < before.len() {
                assert(at[j] == before[j]);
            }
        }
    }
}

/// A cleanup takes envelopes from the front of each channel, just those in front of the first that
/// is from the cutoff or later. A channel goes exactly where nothing is left of it. Nothing else
/// changes.
pub proof fn cleanups_take_stale_fronts(d: DeadDropView, cutoff: u64, channel: Seq<u8>)
    ensures
        ({
            let after = d.after_cleanup(cutoff);
            let was = d.queue(channel);
            let is = after.queue(channel);
            let gone = was.len() - is.len();
            &&& 0 <= gone
            &&& forall|i: int| 0 <= i < gone ==> (#[trigger] was[i]).stored_at < cutoff
            &&& forall|i: int| 0 <= i < is.len() ==> #[trigger] is[i] == was[gone + i]
            &&& is.len() > 0 ==> is[0].stored_at >= cutoff
            &&& after.drops.contains_key(channel) <==> is.len() > 0
            &&& after.max_per_drop == d.max_per_drop
            &&& after.max_channels == d.max_channels
            &&& after.max_total_bytes == d.max_total_bytes
            &&& after.default_ttl_secs == d.default_ttl_secs
        }),
{
    lemma_without_stale(d.queue(channel), cutoff);
}

/// A cleanup goes by the time to live of the store, where the clock reaches back that far.
pub proof fn cleanups_go_by_the_time_to_live(d: DeadDropView, now: u64)
    ensures
        d.after_cleanup_at(now, false) == d,
        1_000_000_000 * d.default_ttl_secs <= now ==> d.after_cleanup_at(now, true)
            == d.after_cleanup((now - 1_000_000_000 * d.default_ttl_secs) as u64),
        1_000_000_000 * d.default_ttl_secs > now ==> d.after_cleanup_at(now, true)
            == d.after_cleanup(0),
{
    cutoffs_lie_back_in_seconds(now, d.default_ttl_secs);
}

} // verus!
