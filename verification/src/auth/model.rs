//! What is signed, and when it is accepted.

use crate::bytes::{be64, from_be64};
use vstd::prelude::*;

verus! {

/// Begins what is signed to log in: `$hatter$-auth-v1` and a zero.
pub const AUTH_DOMAIN: [u8; 17] = [
    0x24, 0x68, 0x61, 0x74, 0x74, 0x65, 0x72, 0x24, 0x2d, 0x61, 0x75, 0x74, 0x68, 0x2d, 0x76, 0x31,
    0x00,
];

/// Begins what is signed for a channel: `$hatter$-chan-v1` and a zero.
pub const CHAN_DOMAIN: [u8; 17] = [
    0x24, 0x68, 0x61, 0x74, 0x74, 0x65, 0x72, 0x24, 0x2d, 0x63, 0x68, 0x61, 0x6e, 0x2d, 0x76, 0x31,
    0x00,
];

/// The length of a signature.
pub const PROOF_SIZE: usize = 64;

/// The length of a key.
pub const PUBKEY_SIZE: usize = 32;

/// The length of a login: a key, a time and a signature.
pub const AUTH_PAYLOAD_MIN: usize = 104;

/// What is signed to log in with a key at a time, in milliseconds of the Unix epoch.
pub open spec fn auth_message(pubkey: Seq<u8>, timestamp_ms: u64) -> Seq<u8> {
    AUTH_DOMAIN@ + pubkey + be64(timestamp_ms)
}

/// What is signed for a channel.
pub open spec fn channel_message(channel: Seq<u8>) -> Seq<u8> {
    CHAN_DOMAIN@ + channel
}

/// The key that a login names.
pub open spec fn login_key(payload: Seq<u8>) -> Seq<u8> {
    payload.take(32)
}

/// The time that a login names.
pub open spec fn login_time(payload: Seq<u8>) -> u64 {
    from_be64(payload.subrange(32, 40))
}

/// The signature of a login.
pub open spec fn login_signature(payload: Seq<u8>) -> Seq<u8> {
    payload.subrange(40, 104)
}

/// What the signature of a login is to be of.
pub open spec fn login_message(payload: Seq<u8>) -> Seq<u8> {
    auth_message(login_key(payload), login_time(payload))
}

/// The time between two points.
pub open spec fn apart(a: u64, b: u64) -> nat {
    if a <= b {
        (b - a) as nat
    } else {
        (a - b) as nat
    }
}

/// How far a login may be off the time, in milliseconds. There is no more than 64 bits of it.
pub open spec fn allowance(max_skew_secs: u64) -> nat {
    if max_skew_secs * 1000 <= u64::MAX {
        (max_skew_secs * 1000) as nat
    } else {
        u64::MAX as nat
    }
}

/// Why a login at `now_ms` is refused, if it is. `key_valid` says whether what it names is a key,
/// and `signature_valid` whether its signature is one of that key.
pub open spec fn login_refusal(
    payload: Seq<u8>,
    max_skew_secs: u64,
    now_ms: u64,
    key_valid: bool,
    signature_valid: bool,
) -> Option<Seq<char>> {
    if payload.len() < AUTH_PAYLOAD_MIN {
        Some("auth payload too short"@)
    } else if apart(now_ms, login_time(payload)) > allowance(max_skew_secs) {
        Some("auth timestamp expired"@)
    } else if !key_valid {
        Some("invalid public key"@)
    } else if !signature_valid {
        Some("auth signature invalid"@)
    } else {
        None
    }
}

/// Who is logged in after a login that was refused, or was not.
pub open spec fn after_login(
    key: Option<Seq<u8>>,
    payload: Seq<u8>,
    refusal: Option<Seq<char>>,
) -> Option<Seq<u8>> {
    if refusal is None {
        Some(login_key(payload))
    } else {
        key
    }
}

/// Why a payload does not open a channel, if it does not. `proof_valid` says whether it begins
/// with a signature for the channel of the key that is logged in.
pub open spec fn proof_refusal(
    key: Option<Seq<u8>>,
    payload: Seq<u8>,
    proof_valid: bool,
) -> Option<Seq<char>> {
    if key is None {
        Some("not authenticated"@)
    } else if payload.len() < PROOF_SIZE {
        Some("channel proof missing"@)
    } else if !proof_valid {
        Some("channel proof invalid"@)
    } else {
        None
    }
}

} // verus!
