//! What a bucket gives, in tokens and nanoseconds.

use super::bucket::{parts, BucketView};
use vstd::prelude::*;

verus! {

/// A token is a million parts.
pub proof fn tokens_have_a_million_parts(n: u32)
    ensures
        parts(n) == 1_000_000 * n,
{
}

/// A refill brings the whole parts that the rate gives in the time since the last one, up to the
/// capacity, and no more; where rate and time have no product in 64 bits, it fills the bucket. It
/// changes nothing else but the time of the last refill.
pub proof fn refills_bring_what_time_gives(b: BucketView, now: u64)
    requires
        b.wf(),
    ensures
        ({
            let after = b.refilled(now);
            let time = if now > b.last_refill_nanos {
                now - b.last_refill_nanos
            } else {
                0
            };
            let got = after.tokens - b.tokens;
            &&& after.last_refill_nanos == now
            &&& after.rate == b.rate
            &&& after.capacity == b.capacity
            &&& b.tokens <= after.tokens <= b.capacity
            &&& b.rate * time <= u64::MAX ==> got * 1_000_000_000 <= b.rate * time
            &&& b.rate * time <= u64::MAX && after.tokens < b.capacity ==> b.rate * time < (got + 1)
                * 1_000_000_000
            &&& b.rate * time > u64::MAX ==> after.tokens == b.capacity
        }),
{
    let time = b.elapsed(now);
    let brought = b.rate * time;
    assert(brought / 1_000_000_000nat * 1_000_000_000 <= brought < (brought / 1_000_000_000nat + 1)
        * 1_000_000_000) by (nonlinear_arith);
}

/// A request is granted exactly where the bucket, refilled, holds a million parts for each token of
/// its cost. It takes just these; a refused one takes none.
pub proof fn grants_take_their_cost(b: BucketView, now: u64, cost: u32)
    ensures
        b.grants(now, cost) <==> 1_000_000 * cost <= b.refilled(now).tokens,
        b.grants(now, cost) ==> b.after(now, cost).tokens == b.refilled(now).tokens - 1_000_000
            * cost,
        !b.grants(now, cost) ==> b.after(now, cost) == b.refilled(now),
        b.after(now, cost).last_refill_nanos == b.refilled(now).last_refill_nanos,
        b.after(now, cost).rate == b.rate,
        b.after(now, cost).capacity == b.capacity,
{
}

} // verus!
