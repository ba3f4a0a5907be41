//! Bundles and what the store's operations do with them.
//!
//! A bundle is a head of 128 bytes, the number of its one-time keys as two bytes, and the one-time
//! keys: 36 bytes each, an id of four and a key of 32.

use crate::bytes::{be16, from_be16};
use vstd::prelude::*;

verus! {

/// Where the number of one-time keys stands.
pub const OPK_COUNT_OFFSET: usize = 128;

/// Where the one-time keys start.
pub const OPK_START: usize = 130;

/// The length of a one-time key with its id.
pub const OPK_ENTRY_SIZE: usize = 36;

/// The length of a bundle without one-time keys.
pub const MIN_BUNDLE_SIZE: usize = 130;

/// The number of one-time keys that a bundle says it has.
pub open spec fn opks(bundle: Seq<u8>) -> nat {
    if bundle.len() < OPK_START {
        0
    } else {
        from_be16(bundle.subrange(128, 130)) as nat
    }
}

/// Whether a bundle is as long as its number of one-time keys says.
pub open spec fn complete(bundle: Seq<u8>) -> bool {
    bundle.len() == OPK_START + opks(bundle) * OPK_ENTRY_SIZE
}

/// The one-time key `i` of a bundle.
pub open spec fn opk(bundle: Seq<u8>, i: int) -> Seq<u8> {
    bundle.subrange(130 + i * 36, 166 + i * 36)
}

/// The bundle without its first one-time key.
pub open spec fn consumed(bundle: Seq<u8>) -> Seq<u8> {
    if opks(bundle) == 0 {
        bundle
    } else {
        bundle.take(128) + be16((opks(bundle) - 1) as u16) + if 166 <= bundle.len() {
            bundle.skip(166)
        } else {
            Seq::empty()
        }
    }
}

/// A bundle and the time at which it was stored.
#[verifier::ext_equal]
pub struct BundleView {
    pub data: Seq<u8>,
    pub stored_at: u64,
}

/// The bundle of each channel, and the limits of the store.
#[verifier::ext_equal]
pub struct PreKeyView {
    pub bundles: Map<Seq<u8>, BundleView>,
    pub max_prekeys_per_user: nat,
    pub max_bundle_size_bytes: nat,
    pub bundle_ttl_secs: u64,
}

impl PreKeyView {
    /// Every bundle is complete and within the limits.
    pub open spec fn wf(self) -> bool {
        forall|c: Seq<u8>| #[trigger]
            self.bundles.contains_key(c) ==> {
                &&& complete(self.bundles[c].data)
                &&& opks(self.bundles[c].data) <= self.max_prekeys_per_user
                &&& self.bundles[c].data.len() <= self.max_bundle_size_bytes
            }
    }

    /// Why a bundle is not stored, if it is not.
    pub open spec fn refusal(self, bundle: Seq<u8>) -> Option<Seq<char>> {
        if bundle.len() < MIN_BUNDLE_SIZE {
            Some("bundle too small"@)
        } else if bundle.len() > self.max_bundle_size_bytes {
            Some("bundle too large"@)
        } else if opks(bundle) > self.max_prekeys_per_user {
            Some("too many one-time prekeys"@)
        } else if !complete(bundle) {
            Some("bundle length inconsistent with OPK count"@)
        } else {
            None
        }
    }

    /// The store after a bundle that is not refused.
    pub open spec fn after_upload(self, channel: Seq<u8>, bundle: Seq<u8>, now: u64) -> PreKeyView {
        PreKeyView {
            bundles: self.bundles.insert(channel, BundleView { data: bundle, stored_at: now }),
            ..self
        }
    }

    /// The bundle that is handed out for a channel.
    pub open spec fn fetched(self, channel: Seq<u8>) -> Option<Seq<u8>> {
        if self.bundles.contains_key(channel) {
            Some(self.bundles[channel].data)
        } else {
            None
        }
    }

    /// The store after a bundle has been handed out: the one-time key that went with it is gone.
    pub open spec fn after_fetch(self, channel: Seq<u8>) -> PreKeyView {
        if self.bundles.contains_key(channel) {
            let bundle = self.bundles[channel];
            PreKeyView {
                bundles: self.bundles.insert(
                    channel,
                    BundleView { data: consumed(bundle.data), ..bundle },
                ),
                ..self
            }
        } else {
            self
        }
    }

    /// The store without bundles that were stored before `cutoff`. Without a cutoff, nothing goes.
    pub open spec fn after_cleanup(self, cutoff: Option<u64>) -> PreKeyView {
        match cutoff {
            Some(cutoff) => PreKeyView {
                bundles: Map::new(
                    |c: Seq<u8>|
                        self.bundles.contains_key(c) && self.bundles[c].stored_at >= cutoff,
                    |c: Seq<u8>| self.bundles[c],
                ),
                ..self
            },
            None => self,
        }
    }
}

} // verus!
