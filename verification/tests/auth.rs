use ed25519_dalek::{Signer, SigningKey};
use shatters_relay::auth::{AuthState, PROOF_SIZE};
use std::time::{SystemTime, UNIX_EPOCH};

fn key(seed: u8) -> SigningKey {
    SigningKey::from_bytes(&[seed; 32])
}

fn login(key: &SigningKey, time: u64) -> Vec<u8> {
    let pubkey = key.verifying_key().to_bytes();
    let mut signed = b"$hatter$-auth-v1\x00".to_vec();
    signed.extend_from_slice(&pubkey);
    signed.extend_from_slice(&time.to_be_bytes());
    let mut payload = pubkey.to_vec();
    payload.extend_from_slice(&time.to_be_bytes());
    payload.extend_from_slice(&key.sign(&signed).to_bytes());
    payload
}

fn channel_proof(key: &SigningKey, channel: &[u8; 32]) -> Vec<u8> {
    let mut signed = b"$hatter$-chan-v1\x00".to_vec();
    signed.extend_from_slice(channel);
    key.sign(&signed).to_bytes().to_vec()
}

fn now_ms() -> u64 {
    SystemTime::now().duration_since(UNIX_EPOCH).unwrap().as_millis() as u64
}

#[test]
fn a_good_login_is_accepted() {
    let mut auth = AuthState::new();
    assert!(!auth.is_authenticated());
    assert_eq!(auth.authenticate(&login(&key(1), now_ms()), 60), Ok(()));
    assert!(auth.is_authenticated());
}

#[test]
fn a_login_far_off_the_time_is_refused() {
    let mut auth = AuthState::new();
    assert_eq!(
        auth.authenticate(&login(&key(1), now_ms() - 120_000), 60),
        Err("auth timestamp expired")
    );
    assert_eq!(
        auth.authenticate(&login(&key(1), now_ms() + 120_000), 60),
        Err("auth timestamp expired")
    );
    assert_eq!(auth.authenticate(&login(&key(1), 0), u64::MAX), Ok(()));
}

#[test]
fn the_allowance_is_exact() {
    let payload = login(&key(1), 1_000_000);
    for (now, ok) in [
        (990_000, true),
        (989_999, false),
        (1_010_000, true),
        (1_010_001, false),
    ] {
        let mut auth = AuthState::new();
        assert_eq!(auth.authenticate_at(&payload, 10, now).is_ok(), ok);
        assert_eq!(auth.is_authenticated(), ok);
    }
}

#[test]
fn bad_logins_are_refused() {
    let mut auth = AuthState::new();
    let good = login(&key(1), 1000);
    assert_eq!(
        auth.authenticate_at(&good[..103], 10, 1000),
        Err("auth payload too short")
    );
    let mut forged = good.clone();
    forged[103] ^= 1;
    assert_eq!(
        auth.authenticate_at(&forged, 10, 1000),
        Err("auth signature invalid")
    );
    let mut moved = good.clone();
    moved[39] ^= 1;
    assert_eq!(
        auth.authenticate_at(&moved, 10, 1000),
        Err("auth signature invalid")
    );
    assert!(!auth.is_authenticated());
    let mut long = good;
    long.push(0);
    assert_eq!(auth.authenticate_at(&long, 10, 1000), Ok(()));
}

#[test]
fn some_bytes_are_no_key() {
    let mut seen = false;
    for first in 0..=255u8 {
        let mut payload = login(&key(1), 1000);
        payload[..32].copy_from_slice(&[0; 32]);
        payload[0] = first;
        let mut auth = AuthState::new();
        match auth.authenticate_at(&payload, 10, 1000) {
            Err("invalid public key") => seen = true,
            Err("auth signature invalid") => {}
            _ => panic!("accepted"),
        }
    }
    assert!(seen);
}

#[test]
fn what_is_known_of_a_login_decides() {
    let payload = vec![7u8; 104];
    let time = u64::from_be_bytes([7; 8]);
    let mut auth = AuthState::new();
    assert_eq!(
        auth.log_in(&payload, 10, time, false, false),
        Err("invalid public key")
    );
    assert_eq!(
        auth.log_in(&payload, 10, time, true, false),
        Err("auth signature invalid")
    );
    assert_eq!(
        auth.log_in(&payload, 10, 0, true, true),
        Err("auth timestamp expired")
    );
    assert!(!auth.is_authenticated());
    assert_eq!(auth.log_in(&payload, 10, time, true, true), Ok(()));
    assert_eq!(
        auth.log_in(&[], 10, time, true, true),
        Err("auth payload too short")
    );
    assert!(auth.is_authenticated());
}

#[test]
fn a_proof_opens_its_channel_only() {
    let mut auth = AuthState::new();
    let mut payload = channel_proof(&key(1), &[5; 32]);
    assert_eq!(payload.len(), PROOF_SIZE);
    payload.extend_from_slice(b"inner");
    assert_eq!(
        auth.verify_channel_proof(&[5; 32], &payload),
        Err("not authenticated")
    );
    assert_eq!(auth.authenticate_at(&login(&key(1), 1000), 10, 1000), Ok(()));
    assert_eq!(
        auth.verify_channel_proof(&[5; 32], &payload),
        Ok(&b"inner"[..])
    );
    assert_eq!(
        auth.verify_channel_proof(&[6; 32], &payload),
        Err("channel proof invalid")
    );
    assert_eq!(
        auth.verify_channel_proof(&[5; 32], &payload[..63]),
        Err("channel proof missing")
    );
    assert_eq!(auth.authenticate_at(&login(&key(2), 1000), 10, 1000), Ok(()));
    assert_eq!(
        auth.verify_channel_proof(&[5; 32], &payload),
        Err("channel proof invalid")
    );
}

#[test]
fn a_login_is_no_proof() {
    let mut auth = AuthState::new();
    let payload = login(&key(1), 1000);
    assert_eq!(auth.authenticate_at(&payload, 10, 1000), Ok(()));
    assert!(!auth.holds_proof(&[5; 32], &payload[40..]));
    assert_eq!(auth.open(&payload, true).unwrap(), &payload[64..]);
    assert_eq!(auth.open(&payload, false), Err("channel proof invalid"));
}
