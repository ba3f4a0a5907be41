//! What becomes of a bundle, byte by byte.

use super::model::{complete, consumed, opks, PreKeyView};
use crate::protocol::promises::{bytes_are_big_endian, numbers_are_big_endian};
use vstd::prelude::*;

verus! {

/// The number of one-time keys stands in the two bytes behind the first 128.
pub proof fn keys_are_counted_in_two_bytes(b: Seq<u8>)
    ensures
        b.len() < 130 ==> opks(b) == 0,
        b.len() >= 130 ==> opks(b) == b[128] * 0x100 + b[129],
        complete(b) <==> b.len() == 130 + 36 * opks(b),
{
    if b.len() >= 130 {
        let s = b.subrange(128, 130);
        assert(s[0] == b[128] && s[1] == b[129]);
        bytes_are_big_endian(s, b.subrange(0, 4), b.subrange(0, 8));
    }
}

/// A bundle is taken exactly where it is at least 130 bytes and no more than the limit long, names
/// no more one-time keys than the limit, and is as long as 130 bytes and 36 for each of them;
/// otherwise the first of these that fails is the reason.
pub proof fn bundles_are_refused_for_cause(p: PreKeyView, b: Seq<u8>)
    ensures
        ({
            let refusal = p.refusal(b);
            let count = b[128] * 0x100 + b[129];
            &&& refusal is None <==> {
                &&& 130 <= b.len() <= p.max_bundle_size_bytes
                &&& count <= p.max_prekeys_per_user
                &&& b.len() == 130 + 36 * count
            }
            &&& b.len() < 130 ==> refusal == Some("bundle too small"@)
            &&& b.len() >= 130 && b.len() > p.max_bundle_size_bytes ==> refusal == Some(
                "bundle too large"@,
            )
            &&& 130 <= b.len() <= p.max_bundle_size_bytes && count > p.max_prekeys_per_user
                ==> refusal == Some("too many one-time prekeys"@)
            &&& 130 <= b.len() <= p.max_bundle_size_bytes && count <= p.max_prekeys_per_user
                && b.len() != 130 + 36 * count ==> refusal == Some(
                "bundle length inconsistent with OPK count"@,
            )
        }),
{
    keys_are_counted_in_two_bytes(b);
}

/// What is left of a bundle: with no one-time key, all of it; otherwise its first 128 bytes, a
/// count that is one less, and what stands behind the first one-time key.
pub proof fn one_key_is_consumed(b: Seq<u8>)
    ensures
        b.len() < 130 || b[128] * 0x100 + b[129] == 0 ==> consumed(b) == b,
        b.len() >= 130 && b[128] * 0x100 + b[129] > 0 ==> {
            let left = consumed(b);
            &&& left.len() == if b.len() >= 166 {
                b.len() - 36
            } else {
                130
            }
            &&& forall|i: int| 0 <= i < 128 ==> #[trigger] left[i] == b[i]
            &&& left[128] * 0x100 + left[129] == b[128] * 0x100 + b[129] - 1
            &&& forall|i: int| 130 <= i < left.len() ==> #[trigger] left[i] == b[i + 36]
        },
{
    keys_are_counted_in_two_bytes(b);
    if b.len() >= 130 && opks(b) > 0 {
        numbers_are_big_endian((opks(b) - 1) as u16, 0, 0);
    }
}

/// A bundle that is uploaded is the bundle of its channel from then on, whole, with its time;
/// nothing else changes.
pub proof fn uploads_replace_one_bundle(
    p: PreKeyView,
    channel: Seq<u8>,
    b: Seq<u8>,
    now: u64,
    other: Seq<u8>,
)
    ensures
        ({
            let after = p.after_upload(channel, b, now);
            &&& after.bundles.contains_key(channel)
            &&& after.bundles[channel].data == b
            &&& after.bundles[channel].stored_at == now
            &&& after.fetched(channel) == Some(b)
            &&& other != channel ==> after.bundles.contains_key(other) == p.bundles.contains_key(
                other,
            ) && after.bundles[other] == p.bundles[other]
            &&& after.max_prekeys_per_user == p.max_prekeys_per_user
            &&& after.max_bundle_size_bytes == p.max_bundle_size_bytes
            &&& after.bundle_ttl_secs == p.bundle_ttl_secs
        }),
{
}

/// What is fetched is the bundle of the channel, whole. It stays, one key shorter and no younger,
/// and nothing else changes.
pub proof fn fetches_hand_out_and_consume(p: PreKeyView, channel: Seq<u8>, other: Seq<u8>)
    ensures
        !p.bundles.contains_key(channel) ==> p.fetched(channel) is None && p.after_fetch(channel)
            == p,
        p.bundles.contains_key(channel) ==> {
            let after = p.after_fetch(channel);
            &&& p.fetched(channel) == Some(p.bundles[channel].data)
            &&& after.bundles.contains_key(channel)
            &&& after.bundles[channel].data == consumed(p.bundles[channel].data)
            &&& after.bundles[channel].stored_at == p.bundles[channel].stored_at
            &&& other != channel ==> after.bundles.contains_key(other) == p.bundles.contains_key(
                other,
            ) && after.bundles[other] == p.bundles[other]
            &&& after.max_prekeys_per_user == p.max_prekeys_per_user
            &&& after.max_bundle_size_bytes == p.max_bundle_size_bytes
            &&& after.bundle_ttl_secs == p.bundle_ttl_secs
        },
{
}

/// A cleanup takes exactly the bundles from before the cutoff, and changes nothing else.
pub proof fn cleanups_take_the_old(p: PreKeyView, cutoff: u64, channel: Seq<u8>)
    ensures
        ({
            let after = p.after_cleanup(Some(cutoff));
            &&& after.bundles.contains_key(channel) <==> p.bundles.contains_key(channel)
                && p.bundles[channel].stored_at >= cutoff
            &&& after.bundles.contains_key(channel) ==> after.bundles[channel] == p.bundles[channel]
            &&& after.max_prekeys_per_user == p.max_prekeys_per_user
            &&& after.max_bundle_size_bytes == p.max_bundle_size_bytes
            &&& after.bundle_ttl_secs == p.bundle_ttl_secs
        }),
        p.after_cleanup(None) == p,
{
}

} // verus!
