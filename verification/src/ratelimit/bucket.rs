//! A token bucket.

use crate::clock::{instant_now, nanos_since, NANOS_PER_SEC};
use std::time::Instant;
use vstd::prelude::*;

verus! {

/// The parts that a token is counted in.
pub const PRECISION: u64 = 1_000_000;

/// A bucket of tokens that fills at a fixed rate up to a capacity.
pub struct TokenBucket {
    tokens: u64,
    last_refill_nanos: u64,
    epoch: Instant,
    rate: u64,
    capacity: u64,
}

/// The state of a bucket. Tokens, rate and capacity count parts of a token; the rate is per
/// second, and times are nanoseconds since the bucket was made.
pub struct BucketView {
    pub tokens: nat,
    pub last_refill_nanos: nat,
    pub rate: nat,
    pub capacity: nat,
}

/// The parts of `n` tokens.
pub open spec fn parts(n: u32) -> nat {
    (n * PRECISION) as nat
}

impl BucketView {
    /// A bucket holds no more than its capacity, and its capacity and rate are those of whole
    /// numbers of tokens.
    pub open spec fn wf(self) -> bool {
        &&& self.tokens <= self.capacity
        &&& self.capacity <= parts(u32::MAX)
        &&& self.rate <= parts(u32::MAX)
        &&& self.last_refill_nanos <= u64::MAX
    }

    /// The time between the last refill and `now`.
    pub open spec fn elapsed(self, now: u64) -> nat {
        if now >= self.last_refill_nanos {
            (now - self.last_refill_nanos) as nat
        } else {
            0
        }
    }

    /// What `elapsed` nanoseconds bring: what the rate gives in that time, or a whole bucket
    /// where the product of the two has no room in 64 bits.
    pub open spec fn accrual(self, elapsed: nat) -> nat {
        if self.rate * elapsed <= u64::MAX {
            self.rate * elapsed / NANOS_PER_SEC as nat
        } else {
            self.capacity
        }
    }

    /// The bucket after a refill at `now`.
    pub open spec fn refilled(self, now: u64) -> BucketView {
        let sum = self.tokens + self.accrual(self.elapsed(now));
        BucketView {
            tokens: if sum <= self.capacity {
                sum
            } else {
                self.capacity
            },
            last_refill_nanos: now as nat,
            ..self
        }
    }

    /// Whether a request for `cost` tokens at `now` is granted.
    pub open spec fn grants(self, now: u64, cost: u32) -> bool {
        parts(cost) <= self.refilled(now).tokens
    }

    /// The bucket after a request for `cost` tokens at `now`.
    pub open spec fn after(self, now: u64, cost: u32) -> BucketView {
        let full = self.refilled(now);
        if self.grants(now, cost) {
            BucketView { tokens: (full.tokens - parts(cost)) as nat, ..full }
        } else {
            full
        }
    }

    /// The bucket after a sequence of requests, each given by its time and cost.
    pub open spec fn after_all(self, requests: Seq<(u64, u32)>) -> BucketView
        decreases requests.len(),
    {
        if requests.len() == 0 {
            self
        } else {
            let last = requests.last();
            self.after_all(requests.drop_last()).after(last.0, last.1)
        }
    }

    /// The tokens granted over a sequence of requests.
    pub open spec fn granted(self, requests: Seq<(u64, u32)>) -> nat
        decreases requests.len(),
    {
        if requests.len() == 0 {
            0
        } else {
            let (now, cost) = requests.last();
            let before = requests.drop_last();
            self.granted(before) + if self.after_all(before).grants(now, cost) {
                cost as nat
            } else {
                0
            }
        }
    }

    /// Whether no refill over a sequence of requests brings more than the rate gives in its
    /// time. Only a pause so long that rate and time have no product in 64 bits can do so, in a
    /// bucket that such a pause does not fill.
    pub open spec fn steady(self, requests: Seq<(u64, u32)>) -> bool {
        forall|i: int|
            0 <= i < requests.len() ==> {
                let gap = self.after_all(#[trigger] requests.take(i)).elapsed(requests[i].0);
                self.rate * gap > u64::MAX ==> self.capacity * NANOS_PER_SEC <= self.rate * gap
            }
    }

    /// Whether the times of a sequence of requests follow the clock.
    pub open spec fn in_order(self, requests: Seq<(u64, u32)>) -> bool {
        &&& forall|i: int|
            0 <= i < requests.len() ==> self.last_refill_nanos <= (#[trigger] requests[i]).0
        &&& forall|i: int, j: int|
            0 <= i <= j < requests.len() ==> (#[trigger] requests[i]).0 <= (
            #[trigger] requests[j]).0
    }
}

/// A refill keeps a bucket within its capacity, and so does a request.
pub proof fn capacity_is_never_exceeded(b: BucketView, now: u64, cost: u32)
    requires
        b.wf(),
    ensures
        b.refilled(now).wf(),
        b.after(now, cost).wf(),
{
}

/// A request in the instant of the last refill is granted exactly where the tokens at hand pay
/// for it.
pub proof fn no_refill_without_time(b: BucketView, cost: u32)
    requires
        b.wf(),
    ensures
        b.grants(b.last_refill_nanos as u64, cost) <==> parts(cost) <= b.tokens,
{
    assert(b.rate * 0 == 0) by (nonlinear_arith);
}

/// A refused request takes nothing: at the same instant, what was to be had before it is to be
/// had after it.
pub proof fn refusal_costs_nothing(b: BucketView, now: u64, cost: u32, next: u32)
    requires
        b.wf(),
        !b.grants(now, cost),
    ensures
        b.after(now, cost).grants(now, next) <==> b.grants(now, next),
{
    no_refill_without_time(b.after(now, cost), next);
}

/// Once the rate has given what a request costs, the request is granted, unless it costs more
/// than the bucket holds.
pub proof fn waiting_pays(b: BucketView, now: u64, cost: u32)
    requires
        b.wf(),
        parts(cost) <= b.capacity,
        parts(cost) * NANOS_PER_SEC <= b.rate * b.elapsed(now),
    ensures
        b.grants(now, cost),
{
    let brought = b.rate * b.elapsed(now);
    assert(parts(cost) <= brought / NANOS_PER_SEC as nat) by (nonlinear_arith)
        requires
            parts(cost) * NANOS_PER_SEC <= brought,
            NANOS_PER_SEC == 1_000_000_000,
    ;
}

/// Over any sequence of requests that follow the clock, no more is granted than the bucket held
/// and its rate gave in the meantime.
pub proof fn grants_are_bounded(b: BucketView, requests: Seq<(u64, u32)>)
    requires
        b.wf(),
        b.in_order(requests),
        b.steady(requests),
        requests.len() > 0,
    ensures
        (b.granted(requests) * PRECISION + b.after_all(requests).tokens) * NANOS_PER_SEC
            <= b.tokens * NANOS_PER_SEC + b.rate * (requests.last().0 - b.last_refill_nanos),
{
    lemma_run(b, requests);
}

proof fn lemma_run(b: BucketView, requests: Seq<(u64, u32)>)
    requires
        b.wf(),
        b.in_order(requests),
        b.steady(requests),
    ensures
        ({
            let end = b.after_all(requests);
            &&& end.wf()
            &&& end.rate == b.rate
            &&& end.capacity == b.capacity
            &&& end.last_refill_nanos == if requests.len() == 0 {
                b.last_refill_nanos
            } else {
                requests.last().0 as nat
            }
            &&& (b.granted(requests) * PRECISION + end.tokens) * NANOS_PER_SEC <= b.tokens
                * NANOS_PER_SEC + b.rate * (end.last_refill_nanos - b.last_refill_nanos)
        }),
    decreases requests.len(),
{
    if requests.len() == 0 {
        assert(b.rate * 0 == 0) by (nonlinear_arith);
    } else {
        let before = requests.drop_last();
        let (now, cost) = requests.last();
        assert forall|i: int| 0 <= i < before.len() implies before.take(i) == requests.take(i) by {
            assert(before.take(i) =~= requests.take(i));
        }
        assert(before =~= requests.take(requests.len() - 1));
        assert forall|i: int| 0 <= i < before.len() implies {
            let gap = b.after_all(#[trigger] before.take(i)).elapsed(before[i].0);
            b.rate * gap > u64::MAX ==> b.capacity * NANOS_PER_SEC <= b.rate * gap
        } by {
            assert(before.take(i) == requests.take(i));
            assert(before[i] == requests[i]);
        }
        lemma_run(b, before);
        let mid = b.after_all(before);
        let gap = mid.elapsed(now);
        assert(mid.last_refill_nanos <= now) by {
            if before.len() > 0 {
                assert(before.last() == requests[requests.len() - 2]);
                assert(requests[requests.len() - 2].0 <= requests[requests.len() - 1].0);
            } else {
                assert(requests[0].0 >= b.last_refill_nanos);
            }
        }
        assert(mid.accrual(gap) * NANOS_PER_SEC <= mid.rate * gap) by {
            let brought = mid.rate * gap;
            assert(brought / NANOS_PER_SEC as nat * NANOS_PER_SEC <= brought) by (nonlinear_arith)
                requires
                    NANOS_PER_SEC == 1_000_000_000,
            ;
        }
        let (t0, t1) = (mid.last_refill_nanos - b.last_refill_nanos, now - b.last_refill_nanos);
        assert(b.rate * t0 + b.rate * gap == b.rate * t1) by (nonlinear_arith)
            requires
                t0 + gap == t1,
        ;
    }
}

/// The tokens that a sequence of requests costs.
pub open spec fn cost_of(requests: Seq<(u64, u32)>) -> nat
    decreases requests.len(),
{
    if requests.len() == 0 {
        0
    } else {
        cost_of(requests.drop_last()) + requests.last().1 as nat
    }
}

/// Whatever the clock says, requests that cost no more than a bucket holds are all granted.
pub proof fn what_is_there_is_granted(b: BucketView, requests: Seq<(u64, u32)>)
    requires
        b.wf(),
        cost_of(requests) * PRECISION <= b.tokens,
    ensures
        b.granted(requests) == cost_of(requests),
        b.after_all(requests).wf(),
        b.after_all(requests).tokens + cost_of(requests) * PRECISION >= b.tokens,
    decreases requests.len(),
{
    if requests.len() > 0 {
        what_is_there_is_granted(b, requests.drop_last());
    }
}

impl View for TokenBucket {
    type V = BucketView;

    closed spec fn view(&self) -> BucketView {
        BucketView {
            tokens: self.tokens as nat,
            last_refill_nanos: self.last_refill_nanos as nat,
            rate: self.rate as nat,
            capacity: self.capacity as nat,
        }
    }
}

impl TokenBucket {
    /// A full bucket that holds `burst` tokens and gains `tokens_per_second`.
    pub fn new(tokens_per_second: u32, burst: u32) -> (bucket: Self)
        ensures
            bucket@.wf(),
            bucket@ == (BucketView {
                tokens: parts(burst),
                last_refill_nanos: 0,
                rate: parts(tokens_per_second),
                capacity: parts(burst),
            }),
    {
        let capacity: u64 = burst as u64 * PRECISION;
        TokenBucket {
            tokens: capacity,
            last_refill_nanos: 0,
            epoch: instant_now(),
            rate: tokens_per_second as u64 * PRECISION,
            capacity,
        }
    }

    /// Reads the clock of the bucket. Nothing is known of what it says.
    pub(crate) fn reading(&self) -> (now: u64) {
        nanos_since(&self.epoch)
    }

    /// Takes `cost` tokens, if they are there now.
    pub fn try_acquire(&mut self, cost: u32) -> (granted: bool)
        requires
            old(self)@.wf(),
        ensures
            final(self)@.wf(),
            exists|now: u64|
                {
                    &&& granted == old(self)@.grants(now, cost)
                    &&& final(self)@ == #[trigger] old(self)@.after(now, cost)
                },
    {
        let now: u64 = self.reading();
        self.try_acquire_at(now, cost)
    }

    /// Takes `cost` tokens, if they are there at `now`, in nanoseconds since the bucket was made.
    pub fn try_acquire_at(&mut self, now: u64, cost: u32) -> (granted: bool)
        requires
            old(self)@.wf(),
        ensures
            final(self)@.wf(),
            granted == old(self)@.grants(now, cost),
            final(self)@ == old(self)@.after(now, cost),
    {
        self.refill_at(now);
        let required: u64 = cost as u64 * PRECISION;
        if self.tokens < required {
            return false;
        }
        self.tokens = self.tokens - required;
        true
    }

    /// Takes one token, if it is there now.
    pub fn try_acquire_one(&mut self) -> (granted: bool)
        requires
            old(self)@.wf(),
        ensures
            final(self)@.wf(),
            exists|now: u64|
                {
                    &&& granted == old(self)@.grants(now, 1)
                    &&& final(self)@ == #[trigger] old(self)@.after(now, 1)
                },
    {
        self.try_acquire(1)
    }

    /// Adds what the time since the last refill has brought.
    pub fn refill(&mut self)
        requires
            old(self)@.wf(),
        ensures
            final(self)@.wf(),
            exists|now: u64| final(self)@ == #[trigger] old(self)@.refilled(now),
    {
        let now: u64 = self.reading();
        self.refill_at(now);
    }

    /// Adds what the time from the last refill to `now` has brought.
    pub fn refill_at(&mut self, now: u64)
        requires
            old(self)@.wf(),
        ensures
            final(self)@.wf(),
            final(self)@ == old(self)@.refilled(now),
    {
        let prev: u64 = self.last_refill_nanos;
        self.last_refill_nanos = now;
        let elapsed: u64 = now.saturating_sub(prev);
        if elapsed == 0 {
            assert(self.rate * 0 == 0) by (nonlinear_arith);
            return;
        }
        let add: u64 = match self.rate.checked_mul(elapsed) {
            Some(brought) => brought / NANOS_PER_SEC,
            None => self.capacity,
        };
        let sum: u64 = self.tokens + add;
        self.tokens = if sum <= self.capacity {
            sum
        } else {
            self.capacity
        };
    }
}

} // verus!
