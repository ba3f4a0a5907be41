//! What holds of logins and of proofs for channels.

use super::model::{
    after_login, allowance, apart, auth_message, channel_message, login_refusal, login_time,
    proof_refusal, AUTH_DOMAIN, CHAN_DOMAIN,
};
use crate::bytes::{be64, be64_round_trip};
use vstd::prelude::*;

verus! {

/// Nothing is signed both to log in and for a channel.
pub proof fn domains_are_separate(pubkey: Seq<u8>, timestamp_ms: u64, channel: Seq<u8>)
    ensures
        auth_message(pubkey, timestamp_ms) != channel_message(channel),
{
    assert(auth_message(pubkey, timestamp_ms)[9] == AUTH_DOMAIN@[9]);
    assert(channel_message(channel)[9] == CHAN_DOMAIN@[9]);
}

/// What is signed to log in tells the key and the time.
pub proof fn logins_are_bound(key: Seq<u8>, time: u64, other_key: Seq<u8>, other_time: u64)
    requires
        key.len() == other_key.len(),
        auth_message(key, time) == auth_message(other_key, other_time),
    ensures
        key == other_key,
        time == other_time,
{
    let signed = auth_message(key, time);
    let n = key.len() as int;
    assert(key =~= signed.subrange(17, 17 + n));
    assert(other_key =~= signed.subrange(17, 17 + n));
    assert(be64(time) =~= signed.skip(17 + n));
    assert(be64(other_time) =~= signed.skip(17 + n));
    be64_round_trip(time, be64(time));
    be64_round_trip(other_time, be64(other_time));
}

/// What is signed for a channel tells the channel.
pub proof fn proofs_are_bound(channel: Seq<u8>, other: Seq<u8>)
    requires
        channel_message(channel) == channel_message(other),
    ensures
        channel == other,
{
    assert(channel =~= channel_message(channel).skip(17));
    assert(other =~= channel_message(other).skip(17));
}

/// A login that is too far off the time is refused, whatever it is signed with.
pub proof fn old_logins_are_refused(
    payload: Seq<u8>,
    max_skew_secs: u64,
    now_ms: u64,
    key_valid: bool,
    signature_valid: bool,
)
    requires
        apart(now_ms, login_time(payload)) > allowance(max_skew_secs),
    ensures
        login_refusal(payload, max_skew_secs, now_ms, key_valid, signature_valid) is Some,
{
}

/// Who is logged in stays logged in whatever later logins come to; a refused one changes nothing.
pub proof fn logins_are_kept(key: Option<Seq<u8>>, payload: Seq<u8>, refusal: Option<Seq<char>>)
    ensures
        key is Some ==> after_login(key, payload, refusal) is Some,
        refusal is Some ==> after_login(key, payload, refusal) == key,
{
}

/// Who is not logged in opens no channel, whatever they send.
pub proof fn no_login_no_channel(payload: Seq<u8>, proof_valid: bool)
    ensures
        proof_refusal(None, payload, proof_valid) == Some("not authenticated"@),
{
}

} // verus!
