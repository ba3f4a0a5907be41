//! What holds of the store over all its operations.

use super::model::{
    bytes_of, fresh, newest, without_stale, DeadDropView, EnvelopeView,
};
use crate::clock::{cutoff_of, horizon, NANOS_PER_SEC};
use crate::sums::{lemma_total_insert, lemma_total_remove, lemma_total_within};
use vstd::prelude::*;

verus! {

/// The bytes of a queue are those of its front and those of the rest.
pub(crate) proof fn lemma_bytes_skip(queue: Seq<EnvelopeView>, n: int)
    requires
        0 <= n <= queue.len(),
    ensures
        bytes_of(queue) == bytes_of(queue.take(n)) + bytes_of(queue.skip(n)),
    decreases queue.len() - n,
{
    if n == queue.len() {
        assert(queue.take(n) =~= queue);
        assert(queue.skip(n) =~= Seq::empty());
    } else {
        let rest = queue.drop_last();
        lemma_bytes_skip(rest, n);
        assert(rest.take(n) =~= queue.take(n));
        assert(queue.skip(n).drop_last() =~= rest.skip(n));
        assert(queue.skip(n).last() == queue.last());
    }
}

/// The bytes of a queue without its first envelope.
pub(crate) proof fn lemma_bytes_pop(queue: Seq<EnvelopeView>)
    requires
        queue.len() > 0,
    ensures
        bytes_of(queue) == queue[0].data.len() + bytes_of(queue.skip(1)),
{
    lemma_bytes_skip(queue, 1);
    let first = queue.take(1);
    assert(first.drop_last() =~= Seq::empty());
    assert(bytes_of(first.drop_last()) == 0);
}

/// What is left of a queue without its stale front.
pub(crate) proof fn lemma_without_stale(queue: Seq<EnvelopeView>, cutoff: u64)
    ensures
        ({
            let n = queue.len() - without_stale(queue, cutoff).len();
            &&& 0 <= n <= queue.len()
            &&& without_stale(queue, cutoff) == queue.skip(n)
            &&& forall|i: int| 0 <= i < n ==> (#[trigger] queue[i]).stored_at < cutoff
            &&& n < queue.len() ==> queue[n].stored_at >= cutoff
        }),
        bytes_of(without_stale(queue, cutoff)) <= bytes_of(queue),
    decreases queue.len(),
{
    let left = without_stale(queue, cutoff);
    if queue.len() > 0 && queue[0].stored_at < cutoff {
        let rest = queue.skip(1);
        lemma_without_stale(rest, cutoff);
        lemma_bytes_pop(queue);
        let n = queue.len() - left.len();
        assert(left =~= queue.skip(n));
        assert forall|i: int| 0 <= i < n implies (#[trigger] queue[i]).stored_at < cutoff by {
            if i > 0 {
                assert(rest[i - 1].stored_at < cutoff);
            }
        }
        if n < queue.len() {
            assert(rest[n - 1].stored_at >= cutoff);
        }
    } else {
        assert(left =~= queue.skip(0));
    }
}

/// How the bytes of the store change with the envelopes of one channel.
pub(crate) proof fn lemma_bytes_insert(
    d: DeadDropView,
    channel: Seq<u8>,
    queue: Seq<EnvelopeView>,
)
    requires
        d.drops.dom().finite(),
    ensures
        ({
            let after = DeadDropView { drops: d.drops.insert(channel, queue), ..d };
            after.bytes() + bytes_of(d.queue(channel)) == d.bytes() + bytes_of(queue)
        }),
{
    let after = DeadDropView { drops: d.drops.insert(channel, queue), ..d };
    let sizes = d.sizes();
    assert(sizes.dom() =~= d.drops.dom());
    assert(after.sizes() =~= sizes.insert(channel, bytes_of(queue)));
    lemma_total_insert(sizes, channel, bytes_of(queue));
    if d.drops.contains_key(channel) {
        lemma_total_remove(sizes, channel);
    } else {
        assert(sizes.remove(channel) =~= sizes);
    }
}

/// How the bytes of the store change when a channel goes.
pub(crate) proof fn lemma_bytes_remove(d: DeadDropView, channel: Seq<u8>)
    requires
        d.drops.dom().finite(),
        d.drops.contains_key(channel),
    ensures
        ({
            let after = DeadDropView { drops: d.drops.remove(channel), ..d };
            after.bytes() + bytes_of(d.drops[channel]) == d.bytes()
        }),
{
    let after = DeadDropView { drops: d.drops.remove(channel), ..d };
    assert(after.sizes() =~= d.sizes().remove(channel));
    assert(d.sizes().dom() =~= d.drops.dom());
    lemma_total_remove(d.sizes(), channel);
}

/// Storing what is not refused keeps within all limits.
pub proof fn storing_keeps_limits(d: DeadDropView, channel: Seq<u8>, data: Seq<u8>, now: u64)
    requires
        d.wf(),
        d.refusal(channel, data.len()) is None,
    ensures
        d.after_store(channel, data, now).wf(),
{
    let long = d.queue(channel).push(EnvelopeView { data, stored_at: now });
    let queue = newest(long, d.max_per_drop);
    assert(long.drop_last() =~= d.queue(channel));
    assert(bytes_of(long) == bytes_of(d.queue(channel)) + data.len());
    if long.len() > d.max_per_drop {
        lemma_bytes_skip(long, long.len() - d.max_per_drop);
    }
    lemma_bytes_insert(d, channel, queue);
}

/// A cleanup keeps within all limits.
pub proof fn cleaning_keeps_limits(d: DeadDropView, cutoff: u64)
    requires
        d.wf(),
    ensures
        d.after_cleanup(cutoff).wf(),
        d.after_cleanup(cutoff).bytes() <= d.bytes(),
{
    let after = d.after_cleanup(cutoff);
    assert(after.drops.dom() =~= d.drops.dom().filter(
        |c: Seq<u8>| without_stale(d.drops[c], cutoff).len() > 0,
    ));
    d.drops.dom().lemma_len_filter(|c: Seq<u8>| without_stale(d.drops[c], cutoff).len() > 0);
    assert forall|c: Seq<u8>| #[trigger] after.sizes().contains_key(c) implies
        d.sizes().contains_key(c) && after.sizes()[c] <= d.sizes()[c] by {
        lemma_without_stale(d.drops[c], cutoff);
    }
    assert forall|c: Seq<u8>| #[trigger] after.drops.contains_key(c) implies
        after.drops[c].len() <= after.max_per_drop by {
        assert(d.drops.contains_key(c));
        lemma_without_stale(d.drops[c], cutoff);
    }
    assert(after.sizes().dom() =~= after.drops.dom());
    assert(d.sizes().dom() =~= d.drops.dom());
    lemma_total_within(after.sizes(), d.sizes());
}

/// What is stored is what is retrieved: as long as it is young enough, and until as many newer
/// ones have come as the channel holds, an envelope comes back as it was given, behind those that
/// were there before.
pub proof fn stored_is_retrieved(
    d: DeadDropView,
    channel: Seq<u8>,
    data: Seq<u8>,
    now: u64,
    cutoff: Option<u64>,
)
    requires
        d.max_per_drop > 0,
        cutoff matches Some(point) ==> point <= now,
    ensures
        d.after_store(channel, data, now).retrieved(channel, cutoff).len() > 0,
        d.after_store(channel, data, now).retrieved(channel, cutoff).last() == data,
        d.queue(channel).len() < d.max_per_drop ==> d.after_store(channel, data, now).retrieved(
            channel,
            cutoff,
        ) == d.retrieved(channel, cutoff).push(data),
{
    let new = EnvelopeView { data, stored_at: now };
    let old_queue = d.queue(channel);
    let long = old_queue.push(new);
    let queue = newest(long, d.max_per_drop);
    let after = d.after_store(channel, data, now);
    assert(after.queue(channel) == queue);
    assert(queue.last() == new);
    assert(long.drop_last() =~= old_queue);
    match cutoff {
        Some(point) => {
            reveal(Seq::filter);
            assert(fresh(queue, point) == fresh(queue.drop_last(), point).push(new));
            if old_queue.len() < d.max_per_drop {
                assert(after.retrieved(channel, cutoff) =~= d.retrieved(channel, cutoff).push(
                    data,
                ));
            }
        },
        None => {
            if old_queue.len() < d.max_per_drop {
                assert(after.retrieved(channel, cutoff) =~= d.retrieved(channel, cutoff).push(
                    data,
                ));
            }
        },
    }
}

/// Whether `data` is in an envelope that was stored at `cutoff` or later.
pub open spec fn holds_since(queue: Seq<EnvelopeView>, cutoff: u64, data: Seq<u8>) -> bool {
    exists|j: int|
        0 <= j < queue.len() && (#[trigger] queue[j]).stored_at >= cutoff && queue[j].data == data
}

/// Nothing is retrieved that is older than asked for, and nothing younger is left out.
pub proof fn retrieval_goes_by_age(d: DeadDropView, channel: Seq<u8>, cutoff: u64)
    ensures
        forall|i: int|
            0 <= i < d.retrieved(channel, Some(cutoff)).len() ==> holds_since(
                d.queue(channel),
                cutoff,
                #[trigger] d.retrieved(channel, Some(cutoff))[i],
            ),
        forall|j: int|
            0 <= j < d.queue(channel).len() && (#[trigger] d.queue(channel)[j]).stored_at >= cutoff
                ==> d.retrieved(channel, Some(cutoff)).contains(d.queue(channel)[j].data),
{
    let queue = d.queue(channel);
    let p = |e: EnvelopeView| e.stored_at >= cutoff;
    let young = fresh(queue, cutoff);
    let got = d.retrieved(channel, Some(cutoff));
    assert forall|i: int| 0 <= i < got.len() implies holds_since(
        queue,
        cutoff,
        #[trigger] got[i],
    ) by {
        queue.lemma_filter_pred(p, i);
        assert(young.contains(young[i]));
        queue.lemma_filter_contains_rev(p, young[i]);
        let j = choose|j: int| 0 <= j < queue.len() && queue[j] == young[i];
        assert(queue[j].data == got[i]);
    }
    assert forall|j: int| 0 <= j < queue.len() && (#[trigger] queue[j]).stored_at
        >= cutoff implies got.contains(queue[j].data) by {
        queue.lemma_filter_contains(p, j);
        assert(young.contains(queue[j]));
        let i = choose|i: int| 0 <= i < young.len() && young[i] == queue[j];
        assert(got[i] == queue[j].data);
    }
}

/// Leaving a stale front out does not change which envelopes are young.
proof fn lemma_fresh_skip(queue: Seq<EnvelopeView>, n: int, cutoff: u64)
    requires
        0 <= n <= queue.len(),
        forall|i: int| 0 <= i < n ==> (#[trigger] queue[i]).stored_at < cutoff,
    ensures
        fresh(queue.skip(n), cutoff) == fresh(queue, cutoff),
    decreases queue.len(),
{
    reveal(Seq::filter);
    if queue.len() > 0 {
        let rest = queue.drop_last();
        if n < queue.len() {
            lemma_fresh_skip(rest, n, cutoff);
            assert(queue.skip(n).drop_last() =~= rest.skip(n));
            assert(queue.skip(n).last() == queue.last());
        } else {
            lemma_fresh_skip(rest, n - 1, cutoff);
            assert(rest.skip(n - 1) =~= Seq::empty());
            assert(queue.skip(n) =~= Seq::empty());
        }
    }
}

/// A cleanup takes nothing that anyone who asks for no more than the time to live would get.
pub proof fn cleanup_takes_only_the_expired(
    d: DeadDropView,
    now: u64,
    reaches: bool,
    channel: Seq<u8>,
    age_secs: u64,
)
    requires
        age_secs <= d.default_ttl_secs,
    ensures
        d.after_cleanup_at(now, reaches).retrieved(channel, cutoff_of(now, age_secs))
            == d.retrieved(channel, cutoff_of(now, age_secs)),
{
    let limit = horizon(now, d.default_ttl_secs);
    let queue = d.queue(channel);
    let left = without_stale(queue, limit);
    lemma_without_stale(queue, limit);
    assert(d.after_cleanup(limit).queue(channel) =~= left);
    assert(age_secs * NANOS_PER_SEC <= d.default_ttl_secs * NANOS_PER_SEC) by (nonlinear_arith)
        requires
            age_secs <= d.default_ttl_secs,
    ;
    if let Some(cutoff) = cutoff_of(now, age_secs) {
        lemma_fresh_skip(queue, queue.len() - left.len(), cutoff);
    } else {
        assert(left =~= queue);
    }
}

/// A cleanup leaves no channel that holds nothing, whatever its cutoff is.
pub proof fn cleanup_leaves_no_empty_channel(d: DeadDropView, cutoff: u64, channel: Seq<u8>)
    requires
        d.queue(channel).len() == 0,
    ensures
        !d.after_cleanup(cutoff).drops.contains_key(channel),
{
}

/// Whether envelopes stand in the order in which they were stored.
pub open spec fn in_order(queue: Seq<EnvelopeView>) -> bool {
    forall|i: int, j: int|
        0 <= i <= j < queue.len() ==> (#[trigger] queue[i]).stored_at <= (
        #[trigger] queue[j]).stored_at
}

/// Envelopes stand in the order in which they were stored, if the clock does not go back.
pub proof fn storing_keeps_order(d: DeadDropView, channel: Seq<u8>, data: Seq<u8>, now: u64)
    requires
        in_order(d.queue(channel)),
        forall|i: int|
            0 <= i < d.queue(channel).len() ==> (#[trigger] d.queue(channel)[i]).stored_at <= now,
    ensures
        in_order(d.after_store(channel, data, now).queue(channel)),
{
}

/// After a cleanup of a channel whose envelopes stand in order, none is left that is older than
/// the time to live.
pub proof fn cleanup_takes_all_expired(d: DeadDropView, cutoff: u64, channel: Seq<u8>)
    requires
        in_order(d.queue(channel)),
    ensures
        forall|i: int|
            0 <= i < d.after_cleanup(cutoff).queue(channel).len() ==> (
            #[trigger] d.after_cleanup(cutoff).queue(channel)[i]).stored_at >= cutoff,
        in_order(d.after_cleanup(cutoff).queue(channel)),
{
    let queue = d.queue(channel);
    let left = without_stale(queue, cutoff);
    lemma_without_stale(queue, cutoff);
    let n = queue.len() - left.len();
    assert(d.after_cleanup(cutoff).queue(channel) =~= left);
    assert forall|i: int| 0 <= i < left.len() implies (#[trigger] left[i]).stored_at >= cutoff by {
        assert(queue[n].stored_at <= queue[n + i].stored_at);
    }
    assert forall|i: int, j: int| 0 <= i <= j < left.len() implies (#[trigger] left[i]).stored_at
        <= (#[trigger] left[j]).stored_at by {
        assert(queue[n + i].stored_at <= queue[n + j].stored_at);
    }
}

/// Storing for one channel leaves what the others hold as it is.
pub proof fn channels_are_separate(
    d: DeadDropView,
    channel: Seq<u8>,
    other: Seq<u8>,
    data: Seq<u8>,
    now: u64,
    cutoff: Option<u64>,
)
    requires
        other != channel,
    ensures
        d.after_store(channel, data, now).retrieved(other, cutoff) == d.retrieved(other, cutoff),
{
}

} // verus!
