//! What holds of the store over all its operations.

use super::model::{complete, consumed, opk, opks, PreKeyView};
use crate::bytes::{be16, be16_round_trip};
use vstd::prelude::*;

verus! {

/// A complete bundle without its first one-time key is complete, has one less, and keeps its head
/// and its other keys, in their order.
pub proof fn consuming_takes_the_first_key(bundle: Seq<u8>)
    requires
        complete(bundle),
        opks(bundle) > 0,
    ensures
        complete(consumed(bundle)),
        opks(consumed(bundle)) == opks(bundle) - 1,
        consumed(bundle).take(128) == bundle.take(128),
        consumed(bundle).len() == bundle.len() - 36,
        forall|i: int|
            0 <= i < opks(bundle) - 1 ==> #[trigger] opk(consumed(bundle), i) == opk(bundle, i + 1),
{
    let left = consumed(bundle);
    let count = (opks(bundle) - 1) as u16;
    assert(left.subrange(128, 130) =~= be16(count));
    be16_round_trip(count, be16(count));
    assert(left.take(128) =~= bundle.take(128));
    assert forall|i: int| 0 <= i < opks(bundle) - 1 implies #[trigger] opk(left, i) == opk(
        bundle,
        i + 1,
    ) by {
        assert(opk(left, i) =~= opk(bundle, i + 1));
    }
}

/// A bundle without one-time keys is handed out as it is.
pub proof fn nothing_left_to_consume(bundle: Seq<u8>)
    requires
        opks(bundle) == 0,
    ensures
        consumed(bundle) == bundle,
{
}

/// The bundle after it has been handed out `n` times.
pub open spec fn consumed_times(bundle: Seq<u8>, n: nat) -> Seq<u8>
    decreases n,
{
    if n == 0 {
        bundle
    } else {
        consumed(consumed_times(bundle, (n - 1) as nat))
    }
}

/// Each one-time key goes to one who asks: the one who asks after `n` others gets a bundle whose
/// first key is the one that was uploaded as number `n`. When all are gone, bundles come without.
pub proof fn each_key_goes_once(bundle: Seq<u8>, n: nat)
    requires
        complete(bundle),
    ensures
        complete(consumed_times(bundle, n)),
        opks(consumed_times(bundle, n)) == if n <= opks(bundle) {
            (opks(bundle) - n) as nat
        } else {
            0
        },
        consumed_times(bundle, n).take(128) == bundle.take(128),
        n < opks(bundle) ==> opk(consumed_times(bundle, n), 0) == opk(bundle, n as int),
        forall|i: int|
            0 <= i < opks(bundle) - n ==> #[trigger] opk(consumed_times(bundle, n), i) == opk(
                bundle,
                n + i,
            ),
    decreases n,
{
    if n > 0 {
        let before = consumed_times(bundle, (n - 1) as nat);
        each_key_goes_once(bundle, (n - 1) as nat);
        if opks(before) > 0 {
            consuming_takes_the_first_key(before);
            let left = consumed_times(bundle, n);
            assert forall|i: int| 0 <= i < opks(bundle) - n implies #[trigger] opk(left, i) == opk(
                bundle,
                n + i,
            ) by {
                assert(opk(left, i) == opk(before, i + 1));
                assert(opk(before, i + 1) == opk(bundle, n - 1 + (i + 1)));
            }
            if n < opks(bundle) {
                assert(opk(left, 0) == opk(bundle, n + 0int));
            }
        }
    }
}

/// Uploading what is not refused, handing out and cleaning up keep every bundle complete and
/// within the limits.
pub proof fn operations_keep_bundles_complete(
    p: PreKeyView,
    channel: Seq<u8>,
    bundle: Seq<u8>,
    now: u64,
    cutoff: Option<u64>,
)
    requires
        p.wf(),
    ensures
        p.refusal(bundle) is None ==> p.after_upload(channel, bundle, now).wf(),
        p.after_fetch(channel).wf(),
        p.after_cleanup(cutoff).wf(),
{
    if p.bundles.contains_key(channel) && opks(p.bundles[channel].data) > 0 {
        consuming_takes_the_first_key(p.bundles[channel].data);
    }
    assert forall|c: Seq<u8>| #[trigger] p.after_cleanup(cutoff).bundles.contains_key(c) implies
        p.bundles.contains_key(c) by {
    }
}

/// What was uploaded is what is handed out next.
pub proof fn uploaded_is_fetched(p: PreKeyView, channel: Seq<u8>, bundle: Seq<u8>, now: u64)
    ensures
        p.after_upload(channel, bundle, now).fetched(channel) == Some(bundle),
{
}

/// The bundles of other channels are not touched.
pub proof fn channels_are_separate(
    p: PreKeyView,
    channel: Seq<u8>,
    other: Seq<u8>,
    bundle: Seq<u8>,
    now: u64,
)
    requires
        other != channel,
    ensures
        p.after_upload(channel, bundle, now).fetched(other) == p.fetched(other),
        p.after_fetch(channel).fetched(other) == p.fetched(other),
{
}

/// The store after a bundle has been handed out `n` times.
pub open spec fn fetched_times(p: PreKeyView, channel: Seq<u8>, n: nat) -> PreKeyView
    decreases n,
{
    if n == 0 {
        p
    } else {
        fetched_times(p, channel, (n - 1) as nat).after_fetch(channel)
    }
}

/// Who asks for a bundle after `n` others have gets it as it is after `n` of its one-time keys are
/// gone.
pub proof fn fetching_consumes(p: PreKeyView, channel: Seq<u8>, n: nat)
    requires
        p.bundles.contains_key(channel),
    ensures
        fetched_times(p, channel, n).bundles.contains_key(channel),
        fetched_times(p, channel, n).fetched(channel) == Some(
            consumed_times(p.bundles[channel].data, n),
        ),
        fetched_times(p, channel, n).bundles[channel].stored_at == p.bundles[channel].stored_at,
    decreases n,
{
    if n > 0 {
        fetching_consumes(p, channel, (n - 1) as nat);
    }
}

/// A cleanup takes the bundles that were stored before the cutoff, and leaves the others as they
/// are.
pub proof fn cleanup_goes_by_age(p: PreKeyView, cutoff: u64, channel: Seq<u8>)
    ensures
        p.after_cleanup(Some(cutoff)).fetched(channel) == if p.bundles.contains_key(channel)
            && p.bundles[channel].stored_at < cutoff {
            None
        } else {
            p.fetched(channel)
        },
        p.after_cleanup(None) == p,
{
}

} // verus!
