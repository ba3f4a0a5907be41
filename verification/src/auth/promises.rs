//! What is signed, byte by byte, and what is accepted.

use super::login_outcome;
use super::model::{
    after_login, auth_message, channel_message, login_key, login_message, login_refusal,
    login_signature, login_time, proof_refusal,
};
use crate::protocol::promises::{bytes_are_big_endian, numbers_are_big_endian};
use vstd::prelude::*;

verus! {

/// To log in, 17 bytes are signed that nothing else begins with, then the bytes of the key in their
/// own order, then the time in eight bytes with the most significant first.
pub proof fn logins_are_signed_in_full(key: Seq<u8>, time: u64)
    ensures
        ({
            let s = auth_message(key, time);
            let n = 17 + key.len() as int;
            &&& s.len() == n + 8
            &&& s.take(17) == seq![
                0x24u8, 0x68, 0x61, 0x74, 0x74, 0x65, 0x72, 0x24, 0x2d, 0x61, 0x75, 0x74, 0x68,
                0x2d, 0x76, 0x31, 0x00,
            ]
            &&& forall|i: int| 0 <= i < key.len() ==> #[trigger] key[i] == s[17 + i]
            &&& (s[n] * 0x100_0000 + s[n + 1] * 0x1_0000 + s[n + 2] * 0x100 + s[n + 3])
                * 0x1_0000_0000 + s[n + 4] * 0x100_0000 + s[n + 5] * 0x1_0000 + s[n + 6] * 0x100
                + s[n + 7] == time
        }),
{
    numbers_are_big_endian(0, 0, time);
    assert(auth_message(key, time).take(17) =~= seq![
        0x24u8, 0x68, 0x61, 0x74, 0x74, 0x65, 0x72, 0x24, 0x2d, 0x61, 0x75, 0x74, 0x68, 0x2d, 0x76,
        0x31, 0x00,
    ]);
}

/// For a channel, 17 bytes are signed that nothing else begins with, then the bytes of the channel
/// in their own order.
pub proof fn channels_are_signed_in_full(channel: Seq<u8>)
    ensures
        ({
            let s = channel_message(channel);
            &&& s.len() == 17 + channel.len()
            &&& s.take(17) == seq![
                0x24u8, 0x68, 0x61, 0x74, 0x74, 0x65, 0x72, 0x24, 0x2d, 0x63, 0x68, 0x61, 0x6e,
                0x2d, 0x76, 0x31, 0x00,
            ]
            &&& forall|i: int| 0 <= i < channel.len() ==> #[trigger] channel[i] == s[17 + i]
        }),
{
    assert(channel_message(channel).take(17) =~= seq![
        0x24u8, 0x68, 0x61, 0x74, 0x74, 0x65, 0x72, 0x24, 0x2d, 0x63, 0x68, 0x61, 0x6e, 0x2d, 0x76,
        0x31, 0x00,
    ]);
}

/// A login is a key of 32 bytes, a time of eight and a signature of 64, in this order; what is to
/// be signed ends with the key and the time as they stand in the login.
pub proof fn logins_are_read_as_laid_out(p: Seq<u8>)
    requires
        p.len() >= 104,
    ensures
        login_key(p).len() == 32,
        forall|i: int| 0 <= i < 32 ==> #[trigger] login_key(p)[i] == p[i],
        (p[32] * 0x100_0000 + p[33] * 0x1_0000 + p[34] * 0x100 + p[35]) * 0x1_0000_0000 + p[36]
            * 0x100_0000 + p[37] * 0x1_0000 + p[38] * 0x100 + p[39] == login_time(p),
        login_signature(p).len() == 64,
        forall|i: int| 0 <= i < 64 ==> #[trigger] login_signature(p)[i] == p[40 + i],
        login_message(p).len() == 57,
        login_message(p).take(17) == seq![
            0x24u8, 0x68, 0x61, 0x74, 0x74, 0x65, 0x72, 0x24, 0x2d, 0x61, 0x75, 0x74, 0x68, 0x2d,
            0x76, 0x31, 0x00,
        ],
        forall|i: int| 0 <= i < 40 ==> #[trigger] p[i] == login_message(p)[17 + i],
{
    let t = p.subrange(32, 40);
    assert(t[0] == p[32] && t[1] == p[33] && t[2] == p[34] && t[3] == p[35]);
    assert(t[4] == p[36] && t[5] == p[37] && t[6] == p[38] && t[7] == p[39]);
    bytes_are_big_endian(p.subrange(0, 2), p.subrange(0, 4), t);
    logins_are_signed_in_full(login_key(p), login_time(p));
    crate::bytes::be64_round_trip(0, t);
    let m = login_message(p);
    assert(m =~= m.take(17) + p.take(40));
}

/// A login is taken exactly where it is long enough, is off the time by no more than the allowance,
/// names a key and is signed with it; otherwise the first of these that fails is the reason.
pub proof fn logins_are_refused_for_cause(
    p: Seq<u8>,
    max_skew_secs: u64,
    now_ms: u64,
    key_valid: bool,
    signature_valid: bool,
)
    ensures
        ({
            let refusal = login_refusal(p, max_skew_secs, now_ms, key_valid, signature_valid);
            let off = now_ms - login_time(p);
            let in_time = -1000 * max_skew_secs <= off <= 1000 * max_skew_secs;
            &&& refusal is None <==> p.len() >= 104 && in_time && key_valid && signature_valid
            &&& p.len() < 104 ==> refusal == Some("auth payload too short"@)
            &&& p.len() >= 104 && !in_time ==> refusal == Some("auth timestamp expired"@)
            &&& p.len() >= 104 && in_time && !key_valid ==> refusal == Some("invalid public key"@)
            &&& p.len() >= 104 && in_time && key_valid && !signature_valid ==> refusal == Some(
                "auth signature invalid"@,
            )
        }),
{
}

/// After a login that is taken its key is logged in, all 32 bytes of it; after any other, whoever
/// was before.
pub proof fn logins_log_their_key_in(
    key: Option<Seq<u8>>,
    p: Seq<u8>,
    max_skew_secs: u64,
    now_ms: u64,
    key_valid: bool,
    signature_valid: bool,
    after: Option<Seq<u8>>,
    r: Result<(), &'static str>,
)
    requires
        login_outcome(key, p, max_skew_secs, now_ms, key_valid, signature_valid, after, r),
    ensures
        match r {
            Ok(()) => {
                &&& login_refusal(p, max_skew_secs, now_ms, key_valid, signature_valid) is None
                &&& after is Some
                &&& after->0.len() == 32
                &&& forall|i: int| 0 <= i < 32 ==> #[trigger] after->0[i] == p[i]
            },
            Err(reason) => {
                &&& login_refusal(p, max_skew_secs, now_ms, key_valid, signature_valid) == Some(
                    reason@,
                )
                &&& after == key
            },
        },
        forall|refusal: Option<Seq<char>>| refusal is Some ==> #[trigger] after_login(
            key,
            p,
            refusal,
        ) == key,
        p.len() >= 32 ==> after_login(key, p, None) == Some(p.take(32)),
{
}

/// A payload opens a channel exactly where someone is logged in and it begins with 64 bytes that
/// are a valid proof; otherwise the first of these that fails is the reason.
pub proof fn proofs_are_refused_for_cause(key: Option<Seq<u8>>, p: Seq<u8>, proof_valid: bool)
    ensures
        ({
            let refusal = proof_refusal(key, p, proof_valid);
            &&& refusal is None <==> key is Some && p.len() >= 64 && proof_valid
            &&& key is None ==> refusal == Some("not authenticated"@)
            &&& key is Some && p.len() < 64 ==> refusal == Some("channel proof missing"@)
            &&& key is Some && p.len() >= 64 && !proof_valid ==> refusal == Some(
                "channel proof invalid"@,
            )
        }),
{
}

} // verus!
