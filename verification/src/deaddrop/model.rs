//! What the store's operations do, over mathematical maps and sequences.

use crate::clock::horizon;
use crate::sums::total;
use vstd::prelude::*;

verus! {

/// An envelope and the time at which it was stored.
#[verifier::ext_equal]
pub struct EnvelopeView {
    pub data: Seq<u8>,
    pub stored_at: u64,
}

/// The envelopes of each channel, the oldest first, and the limits of the store.
#[verifier::ext_equal]
pub struct DeadDropView {
    pub drops: Map<Seq<u8>, Seq<EnvelopeView>>,
    pub max_per_drop: nat,
    pub max_channels: nat,
    pub max_total_bytes: nat,
    pub default_ttl_secs: u64,
}

/// The bytes that envelopes hold.
pub open spec fn bytes_of(queue: Seq<EnvelopeView>) -> nat
    decreases queue.len(),
{
    if queue.len() == 0 {
        0
    } else {
        bytes_of(queue.drop_last()) + queue.last().data.len()
    }
}

/// The last `max` envelopes.
pub open spec fn newest(queue: Seq<EnvelopeView>, max: nat) -> Seq<EnvelopeView> {
    if queue.len() > max {
        queue.skip(queue.len() - max)
    } else {
        queue
    }
}

/// The envelopes without those in front that were stored before `cutoff`.
pub open spec fn without_stale(queue: Seq<EnvelopeView>, cutoff: u64) -> Seq<EnvelopeView>
    decreases queue.len(),
{
    if queue.len() > 0 && queue[0].stored_at < cutoff {
        without_stale(queue.skip(1), cutoff)
    } else {
        queue
    }
}

/// The envelopes that were stored at `cutoff` or later.
pub open spec fn fresh(queue: Seq<EnvelopeView>, cutoff: u64) -> Seq<EnvelopeView> {
    queue.filter(|e: EnvelopeView| e.stored_at >= cutoff)
}

/// What envelopes hold.
pub open spec fn payloads(queue: Seq<EnvelopeView>) -> Seq<Seq<u8>> {
    Seq::new(queue.len(), |i: int| queue[i].data)
}

impl DeadDropView {
    /// The envelopes of a channel.
    pub open spec fn queue(self, channel: Seq<u8>) -> Seq<EnvelopeView> {
        if self.drops.contains_key(channel) {
            self.drops[channel]
        } else {
            Seq::empty()
        }
    }

    /// The bytes that each channel holds.
    pub open spec fn sizes(self) -> Map<Seq<u8>, nat> {
        self.drops.map_values(|queue: Seq<EnvelopeView>| bytes_of(queue))
    }

    /// The bytes that the store holds.
    pub open spec fn bytes(self) -> nat {
        total(self.sizes())
    }

    /// The number of envelopes of each channel.
    pub open spec fn lengths(self) -> Map<Seq<u8>, nat> {
        self.drops.map_values(|queue: Seq<EnvelopeView>| queue.len())
    }

    /// The number of envelopes in the store.
    pub open spec fn envelopes(self) -> nat {
        total(self.lengths())
    }

    /// All limits hold, and no channel is there without envelopes, unless none can be stored.
    pub open spec fn wf(self) -> bool {
        &&& self.drops.dom().finite()
        &&& self.drops.len() <= self.max_channels
        &&& self.bytes() <= self.max_total_bytes
        &&& forall|c: Seq<u8>| #[trigger]
            self.drops.contains_key(c) ==> self.drops[c].len() <= self.max_per_drop
        &&& self.max_per_drop > 0 ==> forall|c: Seq<u8>| #[trigger]
            self.drops.contains_key(c) ==> self.drops[c].len() > 0
    }

    /// Why `len` bytes are not stored for a channel, if they are not.
    pub open spec fn refusal(self, channel: Seq<u8>, len: nat) -> Option<Seq<char>> {
        if !self.drops.contains_key(channel) && self.drops.len() >= self.max_channels {
            Some("deaddrop channel limit reached"@)
        } else if self.bytes() + len > self.max_total_bytes {
            Some("deaddrop storage limit reached"@)
        } else {
            None
        }
    }

    /// The store after an envelope that is not refused: where a channel has too many, the oldest
    /// goes.
    pub open spec fn after_store(self, channel: Seq<u8>, data: Seq<u8>, now: u64) -> DeadDropView {
        DeadDropView {
            drops: self.drops.insert(
                channel,
                newest(
                    self.queue(channel).push(EnvelopeView { data, stored_at: now }),
                    self.max_per_drop,
                ),
            ),
            ..self
        }
    }

    /// What a channel holds that was stored at `cutoff` or later; without a cutoff, all of it.
    pub open spec fn retrieved(self, channel: Seq<u8>, cutoff: Option<u64>) -> Seq<Seq<u8>> {
        match cutoff {
            Some(cutoff) => payloads(fresh(self.queue(channel), cutoff)),
            None => payloads(self.queue(channel)),
        }
    }

    /// The store without what was stored before `cutoff`, and without channels that hold nothing
    /// then.
    pub open spec fn after_cleanup(self, cutoff: u64) -> DeadDropView {
        DeadDropView {
            drops: Map::new(
                |c: Seq<u8>|
                    self.drops.contains_key(c) && without_stale(self.drops[c], cutoff).len() > 0,
                |c: Seq<u8>| without_stale(self.drops[c], cutoff),
            ),
            ..self
        }
    }

    /// The store after a cleanup at the time `now`. `reaches` says whether the machine's clock
    /// reaches back as far as the time to live; where it does not, nothing goes.
    pub open spec fn after_cleanup_at(self, now: u64, reaches: bool) -> DeadDropView {
        if reaches {
            self.after_cleanup(horizon(now, self.default_ttl_secs))
        } else {
            self
        }
    }
}

} // verus!
