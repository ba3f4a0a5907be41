use ed25519_dalek::{Signer, SigningKey};
use shatters_relay::auth::AuthState;
use shatters_relay::config::{DeadDropConfig, LimitsConfig, PreKeyConfig, RelayConfig};
use shatters_relay::deaddrop::DeadDropStore;
use shatters_relay::prekey::PreKeyStore;
use shatters_relay::protocol::{Message, MessageType};
use shatters_relay::router::{Mailbox, OutboundFrame, Router, SendOutcome};
use shatters_relay::server::connection::{
    dispatch, dispatch_at, dispatch_with, parse_ttl, Readings, Relay,
};
use shatters_relay::server::door::{Admission, Door};
use shatters_relay::server::model::{Clocks, ConnectionCtx, Operation};
use shatters_relay::server::reader::Reader;
use shatters_relay::server::replies::ReplyBudget;
use std::time::{SystemTime, UNIX_EPOCH};
use tokio::sync::mpsc;

const CHANNEL: [u8; 32] = [9; 32];

fn relay() -> Relay {
    Relay {
        router: Router::new(),
        store: DeadDropStore::new(DeadDropConfig::default(), 10_000),
        prekeys: PreKeyStore::new(PreKeyConfig::default()),
    }
}

fn ctx(sub_id: u64, tx: mpsc::Sender<OutboundFrame>) -> ConnectionCtx {
    ConnectionCtx {
        sub_id,
        outbound_tx: tx,
        auth_timeout_secs: 60,
        max_payload_size: 4096,
    }
}

fn key() -> SigningKey {
    SigningKey::from_bytes(&[3; 32])
}

fn login() -> Vec<u8> {
    let time = SystemTime::now().duration_since(UNIX_EPOCH).unwrap().as_millis() as u64;
    let pubkey = key().verifying_key().to_bytes();
    let mut signed = b"$hatter$-auth-v1\x00".to_vec();
    signed.extend_from_slice(&pubkey);
    signed.extend_from_slice(&time.to_be_bytes());
    let mut payload = pubkey.to_vec();
    payload.extend_from_slice(&time.to_be_bytes());
    payload.extend_from_slice(&key().sign(&signed).to_bytes());
    payload
}

fn proved(inner: &[u8]) -> Vec<u8> {
    let mut signed = b"$hatter$-chan-v1\x00".to_vec();
    signed.extend_from_slice(&CHANNEL);
    let mut payload = key().sign(&signed).to_bytes().to_vec();
    payload.extend_from_slice(inner);
    payload
}

fn message(msg_type: MessageType, id: u32, payload: Vec<u8>) -> Message {
    Message { msg_type, id, channel: CHANNEL, payload }
}

fn logged_in() -> AuthState {
    let mut auth = AuthState::new();
    assert_eq!(auth.authenticate(&login(), 60), Ok(()));
    auth
}

fn assert_ack(replies: &[Message], id: u32) {
    let last = replies.last().unwrap();
    assert_eq!(last.msg_type, MessageType::Ack);
    assert_eq!(last.id, id);
}

fn assert_nack(replies: &[Message], id: u32, reason: &str) {
    assert_eq!(replies.len(), 1);
    assert_eq!(replies[0].msg_type, MessageType::Nack);
    assert_eq!(replies[0].id, id);
    assert_eq!(replies[0].payload, reason.as_bytes().to_vec());
}

fn bundle(keys: u16) -> Vec<u8> {
    let mut out = vec![0xAB; 128];
    out.extend_from_slice(&keys.to_be_bytes());
    out.extend_from_slice(&vec![1; keys as usize * 36]);
    out
}

fn readings(outcomes: Vec<SendOutcome>) -> Readings {
    Readings {
        now_ms: 0,
        now: 0,
        key_valid: false,
        signature_valid: false,
        proof_valid: true,
        outcomes,
    }
}

#[test]
fn without_login_nothing_is_served() {
    let mut relay = relay();
    let (tx, _rx) = mpsc::channel(4);
    let ctx = ctx(1, tx);
    let mut auth = AuthState::new();
    for (n, t) in [
        MessageType::Publish,
        MessageType::Subscribe,
        MessageType::Unsubscribe,
        MessageType::Retrieve,
        MessageType::UploadBundle,
        MessageType::FetchBundle,
    ]
    .into_iter()
    .enumerate()
    {
        let id = n as u32 + 10;
        let msg = message(t, id, proved(b"x"));
        let replies = dispatch(&ctx, &mut auth, &mut relay, Operation::of(t), &msg);
        assert_nack(&replies, id, "not authenticated");
    }
    assert_eq!(relay.store.total_envelopes(), 0);
    assert_eq!(relay.router.subscription_count(), 0);
}

#[test]
fn logins_are_answered() {
    let mut relay = relay();
    let (tx, _rx) = mpsc::channel(4);
    let ctx = ctx(1, tx);
    let mut auth = AuthState::new();
    let bad = message(MessageType::Publish, 1, vec![0; 10]);
    let replies = dispatch(&ctx, &mut auth, &mut relay, Operation::Authenticate, &bad);
    assert_nack(&replies, 1, "auth payload too short");
    let good = message(MessageType::Publish, 2, login());
    let replies = dispatch(&ctx, &mut auth, &mut relay, Operation::Authenticate, &good);
    assert_eq!(replies.len(), 1);
    assert_ack(&replies, 2);
    assert!(auth.is_authenticated());
}

#[test]
fn published_is_stored_sent_and_retrieved() {
    let mut relay = relay();
    let (tx, mut rx) = mpsc::channel(4);
    let ctx = ctx(1, tx);
    let mut auth = logged_in();
    let sub = message(MessageType::Subscribe, 1, proved(b""));
    assert_ack(&dispatch(&ctx, &mut auth, &mut relay, Operation::Subscribe, &sub), 1);
    let msg = message(MessageType::Publish, 2, proved(b"hello"));
    let replies = dispatch(&ctx, &mut auth, &mut relay, Operation::Publish, &msg);
    assert_eq!(replies.len(), 1);
    assert_ack(&replies, 2);
    let frame = Message::deserialize(&rx.try_recv().unwrap()).unwrap();
    assert_eq!(frame.msg_type, MessageType::Data);
    assert_eq!(frame.id, 1);
    assert_eq!(frame.channel, CHANNEL);
    assert_eq!(frame.payload, b"hello".to_vec());
    let ask = message(MessageType::Retrieve, 3, proved(&[]));
    let replies = dispatch(&ctx, &mut auth, &mut relay, Operation::Retrieve, &ask);
    assert_eq!(replies.len(), 2);
    assert_eq!(replies[0].msg_type, MessageType::Data);
    assert_eq!(replies[0].id, 2);
    assert_eq!(replies[0].channel, CHANNEL);
    assert_eq!(replies[0].payload, b"hello".to_vec());
    assert_ack(&replies, 3);
    assert_eq!(relay.router.alloc_msg_id(), 3);
}

#[test]
fn forged_proofs_are_refused() {
    let mut relay = relay();
    let (tx, _rx) = mpsc::channel(4);
    let ctx = ctx(1, tx);
    let mut auth = logged_in();
    let msg = message(MessageType::Publish, 2, vec![1; 70]);
    let replies = dispatch(&ctx, &mut auth, &mut relay, Operation::Publish, &msg);
    assert_nack(&replies, 2, "channel proof invalid");
    let msg = message(MessageType::Retrieve, 3, vec![1; 63]);
    let replies = dispatch(&ctx, &mut auth, &mut relay, Operation::Retrieve, &msg);
    assert_nack(&replies, 3, "channel proof missing");
    assert_eq!(relay.store.total_envelopes(), 0);
}

#[test]
fn refusals_of_the_stores_are_passed_on() {
    let mut relay = Relay {
        router: Router::with_limits(0, 10, 0),
        store: DeadDropStore::new(DeadDropConfig::default(), 3),
        prekeys: PreKeyStore::new(PreKeyConfig::default()),
    };
    let (tx, _rx) = mpsc::channel(4);
    let ctx = ctx(1, tx);
    let mut auth = logged_in();
    let msg = message(MessageType::Publish, 1, proved(b"four"));
    let replies = dispatch(&ctx, &mut auth, &mut relay, Operation::Publish, &msg);
    assert_nack(&replies, 1, "deaddrop storage limit reached");
    let msg = message(MessageType::Subscribe, 2, proved(b""));
    let replies = dispatch(&ctx, &mut auth, &mut relay, Operation::Subscribe, &msg);
    assert_nack(&replies, 2, "subscription limit reached");
    let msg = message(MessageType::UploadBundle, 3, proved(b"tiny"));
    let replies = dispatch(&ctx, &mut auth, &mut relay, Operation::UploadBundle, &msg);
    assert_nack(&replies, 3, "bundle too small");
    let msg = message(MessageType::FetchBundle, 4, vec![]);
    let replies = dispatch(&ctx, &mut auth, &mut relay, Operation::FetchBundle, &msg);
    assert_nack(&replies, 4, "bundle not found");
}

#[test]
fn bundles_are_uploaded_and_fetched() {
    let mut relay = relay();
    let (tx, _rx) = mpsc::channel(4);
    let ctx = ctx(1, tx);
    let mut auth = logged_in();
    let msg = message(MessageType::UploadBundle, 1, proved(&bundle(2)));
    let replies = dispatch(&ctx, &mut auth, &mut relay, Operation::UploadBundle, &msg);
    assert_eq!(replies.len(), 1);
    assert_ack(&replies, 1);
    for (id, keys) in [(2, 2), (3, 1), (4, 0), (5, 0)] {
        let msg = message(MessageType::FetchBundle, id, vec![]);
        let replies = dispatch(&ctx, &mut auth, &mut relay, Operation::FetchBundle, &msg);
        assert_eq!(replies.len(), 2);
        assert_eq!(replies[0].msg_type, MessageType::BundleData);
        assert_eq!(replies[0].id, id - 1);
        assert_eq!(replies[0].channel, CHANNEL);
        assert_eq!(replies[0].payload, bundle(keys));
        assert_ack(&replies, id);
    }
}

#[test]
fn subscriptions_end() {
    let mut relay = relay();
    let (tx, _rx) = mpsc::channel(4);
    let ctx = ctx(1, tx);
    let mut auth = logged_in();
    let msg = message(MessageType::Subscribe, 1, proved(b""));
    assert_ack(&dispatch(&ctx, &mut auth, &mut relay, Operation::Subscribe, &msg), 1);
    assert_eq!(relay.router.subscription_count(), 1);
    let msg = message(MessageType::Unsubscribe, 2, vec![]);
    assert_ack(&dispatch(&ctx, &mut auth, &mut relay, Operation::Unsubscribe, &msg), 2);
    assert_eq!(relay.router.subscription_count(), 0);
}

#[test]
fn answers_are_not_answered() {
    let mut relay = relay();
    let (tx, _rx) = mpsc::channel(4);
    let ctx = ctx(1, tx);
    let mut auth = logged_in();
    for t in [
        MessageType::Ack,
        MessageType::Nack,
        MessageType::Data,
        MessageType::BundleData,
    ] {
        let msg = message(t, 1, vec![]);
        assert_eq!(Operation::of(t), Operation::Ignored);
        let replies = dispatch(&ctx, &mut auth, &mut relay, Operation::of(t), &msg);
        assert!(replies.is_empty());
    }
}

#[test]
fn readings_decide() {
    let mut relay = relay();
    let (tx, _rx) = mpsc::channel(4);
    let ctx = ctx(1, tx);
    let mut auth = logged_in();
    let none = readings(vec![]);
    let msg = message(MessageType::Subscribe, 1, vec![0; 64]);
    let replies = dispatch_with(&ctx, &mut auth, &mut relay, Operation::Subscribe, &msg, &none);
    assert_ack(&replies, 1);
    let mut r = readings(vec![SendOutcome::Closed]);
    r.now = 5_000_000_000;
    let msg = message(MessageType::Publish, 2, vec![7; 66]);
    let replies = dispatch_with(&ctx, &mut auth, &mut relay, Operation::Publish, &msg, &r);
    assert_ack(&replies, 2);
    assert_eq!(relay.router.subscription_count(), 0);
    let mut ask = vec![0; 64];
    ask.extend_from_slice(&2u32.to_be_bytes());
    let msg = message(MessageType::Retrieve, 3, ask);
    for (now, count) in [(7_000_000_000, 2), (7_000_000_001, 1)] {
        let mut r = readings(vec![]);
        r.now = now;
        let replies = dispatch_with(&ctx, &mut auth, &mut relay, Operation::Retrieve, &msg, &r);
        assert_eq!(replies.len(), count);
        assert_ack(&replies, 3);
    }
    let mut r = readings(vec![]);
    r.proof_valid = false;
    let replies = dispatch_with(&ctx, &mut auth, &mut relay, Operation::Retrieve, &msg, &r);
    assert_nack(&replies, 3, "channel proof invalid");
}

#[test]
fn times_to_live_are_read() {
    assert_eq!(parse_ttl(&[]), 86_400);
    assert_eq!(parse_ttl(&[0, 0, 1]), 86_400);
    assert_eq!(parse_ttl(&[0, 0, 0, 0]), 86_400);
    assert_eq!(parse_ttl(&[0, 0, 1, 0]), 256);
    assert_eq!(parse_ttl(&[0xFF, 0xFF, 0xFF, 0xFF, 9]), 4_294_967_295);
}

#[test]
fn frames_are_read_and_paid_for() {
    let mut relay = relay();
    let (tx, _rx) = mpsc::channel(4);
    let limits = LimitsConfig {
        requests_per_second: 1,
        burst_size: 3,
        ..LimitsConfig::default()
    };
    let mut reader = Reader::open(&mut relay, tx, &limits, 60, 100);
    assert_eq!(reader.ctx.sub_id, 1);
    let r = readings(vec![]);
    assert!(reader.on_frame_with(&mut relay, &[1, 2, 3], 0, &r).is_empty());
    let long = message(MessageType::Publish, 5, vec![0; 101]).serialize();
    let replies = reader.on_frame_with(&mut relay, &long, 0, &r);
    assert_nack(&replies, 0, "payload too large");
    let fetch = message(MessageType::FetchBundle, 6, vec![]).serialize();
    let replies = reader.on_frame_with(&mut relay, &fetch, 0, &r);
    assert_nack(&replies, 6, "not authenticated");
    let replies = reader.on_frame_with(&mut relay, &fetch, 0, &r);
    assert_nack(&replies, 6, "rate limited");
    let replies = reader.on_frame_with(&mut relay, &fetch, 1_000_000_000, &r);
    assert_nack(&replies, 6, "not authenticated");
}

#[test]
fn connections_come_and_go() {
    let mut relay = relay();
    let (tx, mut rx) = mpsc::channel(4);
    let limits = LimitsConfig::default();
    let mut reader = Reader::open(&mut relay, tx.clone(), &limits, 60, 4096);
    let other = Reader::open(&mut relay, tx, &limits, 60, 4096);
    assert_ne!(reader.ctx.sub_id, other.ctx.sub_id);
    assert_eq!(reader.auth.authenticate(&login(), 60), Ok(()));
    let sub = message(MessageType::Subscribe, 1, proved(b"")).serialize();
    assert_ack(&reader.on_frame(&mut relay, &sub), 1);
    let publish = message(MessageType::Publish, 2, proved(b"hi")).serialize();
    assert_ack(&reader.on_frame(&mut relay, &publish), 2);
    assert!(rx.try_recv().is_ok());
    assert!(reader.on_frame(&mut relay, &[0xFF; 40]).is_empty());
    relay.router.remove_subscriber(reader.ctx.sub_id);
    assert_eq!(relay.router.subscription_count(), 0);
}

#[test]
fn replies_take_room() {
    let (tx, mut rx) = mpsc::channel(2);
    let mut tx = Mailbox::new(tx);
    let mut budget = ReplyBudget::new(80);
    assert_eq!(budget.send_reply(&mut tx, &Message::ack(1)), Some(SendOutcome::Sent));
    assert_eq!(budget.in_flight, 37);
    let replies = vec![Message::ack(2), Message::ack(3)];
    assert_eq!(
        budget.send_replies(&mut tx, &replies),
        vec![Some(SendOutcome::Sent), None]
    );
    assert_eq!(budget.in_flight, 74);
    let frame = rx.try_recv().unwrap();
    assert_eq!(Message::deserialize(&frame).unwrap().id, 1);
    budget.release(frame.len());
    assert_eq!(budget.in_flight, 37);
    assert_eq!(Message::deserialize(&rx.try_recv().unwrap()).unwrap().id, 2);
    drop(rx);
    assert_eq!(budget.send_reply(&mut tx, &Message::ack(4)), Some(SendOutcome::Closed));
    assert_eq!(budget.in_flight, 37);
}

#[test]
fn a_full_queue_takes_no_room() {
    let (tx, _rx) = mpsc::channel(1);
    let mut tx = Mailbox::new(tx);
    let mut budget = ReplyBudget::new(1000);
    assert_eq!(budget.send_reply(&mut tx, &Message::ack(1)), Some(SendOutcome::Sent));
    assert_eq!(budget.send_reply(&mut tx, &Message::ack(2)), Some(SendOutcome::Full));
    assert_eq!(budget.in_flight, 37);
    assert!(budget.reserve(963));
    assert!(!budget.reserve(1));
}

#[test]
fn room_is_counted_in_the_machines_numbers() {
    let mut budget = ReplyBudget::new(100);
    budget.release(10);
    assert_eq!(budget.in_flight, usize::MAX - 9);
    assert!(!budget.reserve(5));
    assert!(budget.reserve(30));
    assert_eq!(budget.in_flight, 20);
}

#[test]
fn a_relay_has_the_limits_of_its_settings() {
    let mut config = RelayConfig::default();
    config.limits.max_subscriptions_per_conn = 1;
    config.deaddrop.max_per_drop = 1;
    config.prekey.max_bundle_size_bytes = 130;
    let mut relay = Relay::new(config, 8, 1);
    let (tx, _rx) = mpsc::channel(1);
    assert_eq!(relay.router.subscribe(&[1; 32], 1, tx.clone()), Ok(()));
    assert_eq!(
        relay.router.subscribe(&[2; 32], 1, tx),
        Err("subscription limit reached")
    );
    assert_eq!(relay.router.publish(&[1; 32], b"a"), 1);
    assert_eq!(relay.router.publish(&[1; 32], b"b"), 0);
    assert_eq!(relay.router.subscription_count(), 0);
    assert!(relay.store.store(&[1; 32], vec![0; 8]).is_ok());
    assert!(relay.store.store(&[1; 32], vec![1]).is_err());
    assert_eq!(relay.prekeys.upload([1; 32], bundle(1)), Err("bundle too large"));
    assert_eq!(relay.prekeys.upload([1; 32], bundle(0)), Ok(()));
}

#[test]
fn addresses_have_a_limit() {
    let mut door = Door::new(2);
    let (a, b) = ([1u8; 17], [2u8; 17]);
    assert_eq!(door.arrive(false, &a), Admission::ConnectionLimit);
    assert_eq!(door.arrive(true, &a), Admission::Admitted);
    assert_eq!(door.arrive(true, &a), Admission::Admitted);
    assert_eq!(door.arrive(true, &a), Admission::PeerLimit);
    assert_eq!(door.arrive(true, &b), Admission::Admitted);
    door.depart(&a);
    assert_eq!(door.arrive(true, &a), Admission::Admitted);
    assert_eq!(door.arrive(true, &a), Admission::PeerLimit);
    let mut shut = Door::new(0);
    assert_eq!(shut.arrive(true, &a), Admission::PeerLimit);
    shut.depart(&b);
}

#[test]
fn each_frame_is_offered_once() {
    let mut relay = relay();
    let (tx, mut rx) = mpsc::channel(8);
    let (other, mut quiet) = mpsc::channel(8);
    assert_eq!(relay.router.subscribe(&CHANNEL, 1, tx), Ok(()));
    assert_eq!(relay.router.subscribe(&[1; 32], 2, other), Ok(()));
    assert_eq!(relay.router.publish(&CHANNEL, b"once"), 1);
    assert!(rx.try_recv().is_ok());
    assert!(rx.try_recv().is_err());
    assert!(quiet.try_recv().is_err());
    let (tx, mut rx) = mpsc::channel(8);
    let mut mailbox = Mailbox::new(tx);
    let mut budget = ReplyBudget::new(1000);
    assert_eq!(
        budget.send_reply(&mut mailbox, &Message::ack(1)),
        Some(SendOutcome::Sent)
    );
    assert!(rx.try_recv().is_ok());
    assert!(rx.try_recv().is_err());
}

#[test]
fn clocks_decide_the_age_of_envelopes() {
    let mut relay = relay();
    let (tx, _rx) = mpsc::channel(4);
    let ctx = ctx(1, tx);
    let mut auth = logged_in();
    let clocks = |store: u64| Clocks { now_ms: 0, store, prekeys: 0 };
    let msg = message(MessageType::Publish, 1, proved(b"old"));
    let at = clocks(5_000_000_000);
    assert_ack(&dispatch_at(&ctx, &mut auth, &mut relay, Operation::Publish, &msg, &at), 1);
    let ask = message(MessageType::Retrieve, 2, proved(&2u32.to_be_bytes()));
    for (now, count) in [(7_000_000_000, 2), (7_000_000_001, 1)] {
        let at = clocks(now);
        let replies = dispatch_at(&ctx, &mut auth, &mut relay, Operation::Retrieve, &ask, &at);
        assert_eq!(replies.len(), count);
        assert_ack(&replies, 2);
    }
}

#[test]
fn clocks_decide_on_logins_and_bundles() {
    let mut relay = relay();
    let (tx, _rx) = mpsc::channel(4);
    let ctx = ctx(1, tx);
    let payload = login();
    let mut time = [0u8; 8];
    time.copy_from_slice(&payload[32..40]);
    let time = u64::from_be_bytes(time);
    let msg = message(MessageType::Publish, 1, payload);
    let mut auth = AuthState::new();
    for (now_ms, ok) in [(time + 60_001, false), (time + 60_000, true)] {
        let at = Clocks { now_ms, store: 0, prekeys: 0 };
        let replies =
            dispatch_at(&ctx, &mut auth, &mut relay, Operation::Authenticate, &msg, &at);
        if ok {
            assert_ack(&replies, 1);
        } else {
            assert_nack(&replies, 1, "auth timestamp expired");
        }
    }
    let at = Clocks { now_ms: 0, store: u64::MAX, prekeys: 1 };
    let msg = message(MessageType::UploadBundle, 2, proved(&bundle(1)));
    assert_ack(&dispatch_at(&ctx, &mut auth, &mut relay, Operation::UploadBundle, &msg, &at), 2);
    relay.prekeys.cleanup_at(604_800_000_000_001);
    assert!(relay.prekeys.fetch(&CHANNEL).is_some());
    relay.prekeys.cleanup_at(604_800_000_000_002);
    assert!(relay.prekeys.fetch(&CHANNEL).is_none());
}

#[test]
fn frames_are_handled_at_given_times() {
    let mut relay = relay();
    let (tx, _rx) = mpsc::channel(4);
    let limits = LimitsConfig {
        requests_per_second: 1,
        burst_size: 2,
        ..LimitsConfig::default()
    };
    let mut reader = Reader::open(&mut relay, tx, &limits, 60, 100);
    let at = Clocks { now_ms: 0, store: 0, prekeys: 0 };
    let fetch = message(MessageType::FetchBundle, 6, vec![]).serialize();
    let replies = reader.on_frame_at(&mut relay, &fetch, 0, &at);
    assert_nack(&replies, 6, "not authenticated");
    let replies = reader.on_frame_at(&mut relay, &fetch, 1_999_999_999, &at);
    assert_nack(&replies, 6, "rate limited");
    let replies = reader.on_frame_at(&mut relay, &fetch, 2_000_001_000, &at);
    assert_nack(&replies, 6, "not authenticated");
}
