//! Who speaks on a connection, and which channels they may use.

pub mod laws;
pub mod model;
pub mod promises;

use crate::bytes::{push_be64, read_array, read_be64};
use crate::clock::unix_millis;
use crate::protocol::message::Channel;
use ed25519_dalek::{Signature, VerifyingKey};
use model::{
    after_login, allowance, apart, auth_message, channel_message, login_key, login_message,
    login_refusal, login_signature, login_time, proof_refusal, AUTH_DOMAIN, AUTH_PAYLOAD_MIN,
    CHAN_DOMAIN, PUBKEY_SIZE,
};
use vstd::prelude::*;
use vstd::slice::slice_subrange;

pub use model::PROOF_SIZE;

verus! {

/// Whether bytes are an Ed25519 key.
pub uninterp spec fn valid_key(pubkey: Seq<u8>) -> bool;

/// Whether `signature` is an Ed25519 signature of `message` by the holder of `pubkey`.
pub uninterp spec fn signed(pubkey: Seq<u8>, message: Seq<u8>, signature: Seq<u8>) -> bool;

/// `VerifyingKey::from_bytes`: whether it takes bytes for a key is a function of the bytes.
#[verifier::external_body]
fn is_key(pubkey: &[u8; 32]) -> (valid: bool)
    ensures
        valid == valid_key(pubkey@),
{
    VerifyingKey::from_bytes(pubkey).is_ok()
}

/// `VerifyingKey::verify_strict`: whether it accepts a signature is a function of the bytes of
/// the key, the message and the signature. Bytes that are not a key have no signatures.
#[verifier::external_body]
fn verify_strict(pubkey: &[u8; 32], message: &[u8], signature: &[u8; 64]) -> (valid: bool)
    ensures
        valid == signed(pubkey@, message@, signature@),
{
    match VerifyingKey::from_bytes(pubkey) {
        Ok(key) => key.verify_strict(message, &Signature::from_bytes(signature)).is_ok(),
        Err(_) => false,
    }
}

/// Who is logged in on a connection.
pub struct AuthState {
    key: Option<[u8; 32]>,
}

impl View for AuthState {
    type V = Option<Seq<u8>>;

    closed spec fn view(&self) -> Option<Seq<u8>> {
        match self.key {
            Some(key) => Some(key@),
            None => None,
        }
    }
}

/// Whether a login that met `key` logged in has left `after`, with `r` as its result.
pub open spec fn login_outcome(
    key: Option<Seq<u8>>,
    payload: Seq<u8>,
    max_skew_secs: u64,
    now_ms: u64,
    key_valid: bool,
    signature_valid: bool,
    after: Option<Seq<u8>>,
    r: Result<(), &'static str>,
) -> bool {
    let refusal = login_refusal(payload, max_skew_secs, now_ms, key_valid, signature_valid);
    &&& after == after_login(key, payload, refusal)
    &&& match r {
        Ok(()) => refusal is None,
        Err(reason) => refusal == Some(reason@),
    }
}

/// What is signed to log in.
fn auth_bytes(pubkey: &[u8; 32], timestamp_ms: u64) -> (signed_msg: Vec<u8>)
    ensures
        signed_msg@ == auth_message(pubkey@, timestamp_ms),
{
    let mut signed_msg: Vec<u8> = Vec::new();
    signed_msg.extend_from_slice(&AUTH_DOMAIN);
    signed_msg.extend_from_slice(pubkey);
    push_be64(&mut signed_msg, timestamp_ms);
    assert(signed_msg@ =~= auth_message(pubkey@, timestamp_ms));
    signed_msg
}

/// What is signed for a channel.
fn channel_bytes(channel: &Channel) -> (signed_msg: Vec<u8>)
    ensures
        signed_msg@ == channel_message(channel@),
{
    let mut signed_msg: Vec<u8> = Vec::new();
    signed_msg.extend_from_slice(&CHAN_DOMAIN);
    signed_msg.extend_from_slice(channel);
    assert(signed_msg@ =~= channel_message(channel@));
    signed_msg
}

/// Whether a login is too far off the time.
fn is_expired(payload: &[u8], max_skew_secs: u64, now_ms: u64) -> (expired: bool)
    requires
        payload@.len() >= AUTH_PAYLOAD_MIN,
    ensures
        expired == (apart(now_ms, login_time(payload@)) > allowance(max_skew_secs)),
{
    let timestamp_ms: u64 = read_be64(payload, PUBKEY_SIZE);
    let skew_ms: u64 = match max_skew_secs.checked_mul(1000) {
        Some(skew_ms) => skew_ms,
        None => u64::MAX,
    };
    let off: u64 = if now_ms >= timestamp_ms {
        now_ms - timestamp_ms
    } else {
        timestamp_ms - now_ms
    };
    off > skew_ms
}

/// Whether a login names a key, and if so, whether its signature is one of that key.
fn check_login(payload: &[u8]) -> (valid: (bool, bool))
    requires
        payload@.len() >= AUTH_PAYLOAD_MIN,
    ensures
        valid.0 == valid_key(login_key(payload@)),
        valid.0 ==> valid.1 == signed(
            login_key(payload@),
            login_message(payload@),
            login_signature(payload@),
        ),
{
    let pubkey: [u8; 32] = read_array(payload, 0);
    assert(pubkey@ =~= login_key(payload@));
    if !is_key(&pubkey) {
        return (false, false);
    }
    let timestamp_ms: u64 = read_be64(payload, PUBKEY_SIZE);
    let signature: [u8; 64] = read_array(payload, 40);
    let signed_msg = auth_bytes(&pubkey, timestamp_ms);
    (true, verify_strict(&pubkey, &signed_msg, &signature))
}

impl AuthState {
    /// A connection on which nobody is logged in.
    pub fn new() -> (auth: Self)
        ensures
            auth@ is None,
    {
        AuthState { key: None }
    }

    /// Whether someone is logged in.
    pub fn is_authenticated(&self) -> (known: bool)
        ensures
            known == (self@ is Some),
    {
        self.key.is_some()
    }

    /// Logs in. The payload is a key, a time in milliseconds of the Unix epoch, and a signature
    /// of both by that key. The time may be `max_skew_secs` seconds off.
    pub fn authenticate(&mut self, payload: &[u8], max_skew_secs: u64) -> (r: Result<
        (),
        &'static str,
    >)
        ensures
            exists|now_ms: u64| #[trigger]
                login_outcome(
                    old(self)@,
                    payload@,
                    max_skew_secs,
                    now_ms,
                    valid_key(login_key(payload@)),
                    signed(login_key(payload@), login_message(payload@), login_signature(payload@)),
                    final(self)@,
                    r,
                ),
    {
        let now_ms: u64 = unix_millis();
        self.authenticate_at(payload, max_skew_secs, now_ms)
    }

    /// Logs in at `now_ms`, in milliseconds of the Unix epoch.
    pub fn authenticate_at(&mut self, payload: &[u8], max_skew_secs: u64, now_ms: u64) -> (r:
        Result<(), &'static str>)
        ensures
            login_outcome(
                old(self)@,
                payload@,
                max_skew_secs,
                now_ms,
                valid_key(login_key(payload@)),
                signed(login_key(payload@), login_message(payload@), login_signature(payload@)),
                final(self)@,
                r,
            ),
    {
        let (key_valid, signature_valid) = if payload.len() < AUTH_PAYLOAD_MIN || is_expired(
            payload,
            max_skew_secs,
            now_ms,
        ) {
            (false, false)
        } else {
            check_login(payload)
        };
        self.log_in(payload, max_skew_secs, now_ms, key_valid, signature_valid)
    }

    /// Logs in with a login of which it is known whether it names a key and whether its signature
    /// is one of that key.
    pub fn log_in(
        &mut self,
        payload: &[u8],
        max_skew_secs: u64,
        now_ms: u64,
        key_valid: bool,
        signature_valid: bool,
    ) -> (r: Result<(), &'static str>)
        ensures
            login_outcome(
                old(self)@,
                payload@,
                max_skew_secs,
                now_ms,
                key_valid,
                signature_valid,
                final(self)@,
                r,
            ),
    {
        if payload.len() < AUTH_PAYLOAD_MIN {
            return Err("auth payload too short");
        }
        if is_expired(payload, max_skew_secs, now_ms) {
            return Err("auth timestamp expired");
        }
        if !key_valid {
            return Err("invalid public key");
        }
        if !signature_valid {
            return Err("auth signature invalid");
        }
        let pubkey: [u8; 32] = read_array(payload, 0);
        assert(pubkey@ =~= login_key(payload@));
        self.key = Some(pubkey);
        Ok(())
    }

    /// Whether a payload begins with a signature for a channel of the key that is logged in.
    pub fn holds_proof(&self, channel: &Channel, payload: &[u8]) -> (valid: bool)
        ensures
            valid == (self@ is Some && payload@.len() >= PROOF_SIZE && signed(
                self@->0,
                channel_message(channel@),
                payload@.take(64),
            )),
    {
        match self.key {
            Some(pubkey) => {
                if payload.len() < PROOF_SIZE {
                    return false;
                }
                let proof_bytes: [u8; 64] = read_array(payload, 0);
                assert(proof_bytes@ =~= payload@.take(64));
                let signed_msg = channel_bytes(channel);
                verify_strict(&pubkey, &signed_msg, &proof_bytes)
            },
            None => false,
        }
    }

    /// What a payload holds behind the signature for a channel that it has to begin with.
    pub fn verify_channel_proof<'a>(&self, channel: &Channel, payload: &'a [u8]) -> (r: Result<
        &'a [u8],
        &'static str,
    >)
        ensures
            ({
                let refusal = proof_refusal(
                    self@,
                    payload@,
                    signed(self@->0, channel_message(channel@), payload@.take(64)),
                );
                match r {
                    Ok(inner) => refusal is None && inner@ == payload@.skip(64),
                    Err(reason) => refusal == Some(reason@),
                }
            }),
    {
        let proof_valid = self.holds_proof(channel, payload);
        self.open(payload, proof_valid)
    }

    /// What a payload holds behind a signature of which it is known whether it is valid.
    pub fn open<'a>(&self, payload: &'a [u8], proof_valid: bool) -> (r: Result<
        &'a [u8],
        &'static str,
    >)
        ensures
            ({
                let refusal = proof_refusal(self@, payload@, proof_valid);
                match r {
                    Ok(inner) => refusal is None && inner@ == payload@.skip(64),
                    Err(reason) => refusal == Some(reason@),
                }
            }),
    {
        if self.key.is_none() {
            return Err("not authenticated");
        }
        if payload.len() < PROOF_SIZE {
            return Err("channel proof missing");
        }
        if !proof_valid {
            return Err("channel proof invalid");
        }
        let inner = slice_subrange(payload, PROOF_SIZE, payload.len());
        assert(inner@ =~= payload@.skip(64));
        Ok(inner)
    }
}

} // verus!
