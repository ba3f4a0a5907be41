use shatters_relay::protocol::{Message, MessageType};
use shatters_relay::router::{OutboundFrame, Router, SendOutcome};
use tokio::sync::mpsc;

fn queue(size: usize) -> (mpsc::Sender<OutboundFrame>, mpsc::Receiver<OutboundFrame>) {
    mpsc::channel(size)
}

#[test]
fn published_frames_reach_subscribers() {
    let mut router = Router::new();
    let (tx, mut rx) = queue(4);
    let id = router.next_subscriber_id();
    assert_eq!(id, 1);
    assert_eq!(router.subscribe(&[7; 32], id, tx), Ok(()));
    assert_eq!(router.publish(&[7; 32], b"hello"), 1);
    let frame = rx.try_recv().unwrap();
    let msg = Message::deserialize(&frame).unwrap();
    assert_eq!(msg.msg_type, MessageType::Data);
    assert_eq!(msg.id, 1);
    assert_eq!(msg.channel, [7; 32]);
    assert_eq!(msg.payload, b"hello".to_vec());
    assert!(rx.try_recv().is_err());
}

#[test]
fn nobody_listens_on_other_channels() {
    let mut router = Router::new();
    let (tx, mut rx) = queue(4);
    assert_eq!(router.subscribe(&[7; 32], 1, tx), Ok(()));
    assert_eq!(router.publish(&[8; 32], b"hello"), 0);
    assert!(rx.try_recv().is_err());
    assert_eq!(router.alloc_msg_id(), 2);
}

#[test]
fn subscribing_twice_counts_once() {
    let mut router = Router::new();
    let (tx, mut rx) = queue(4);
    assert_eq!(router.subscribe(&[1; 32], 5, tx.clone()), Ok(()));
    assert_eq!(router.subscribe(&[1; 32], 5, tx), Ok(()));
    assert_eq!(router.channel_count(), 1);
    assert_eq!(router.subscription_count(), 1);
    assert_eq!(router.publish(&[1; 32], b"x"), 1);
    assert!(rx.try_recv().is_ok());
    assert!(rx.try_recv().is_err());
}

#[test]
fn subscription_limit_is_kept() {
    let mut router = Router::with_limits(2, 10, 0);
    let (tx, _rx) = queue(1);
    assert_eq!(router.subscribe(&[1; 32], 1, tx.clone()), Ok(()));
    assert_eq!(router.subscribe(&[2; 32], 1, tx.clone()), Ok(()));
    assert_eq!(
        router.subscribe(&[3; 32], 1, tx.clone()),
        Err("subscription limit reached")
    );
    assert_eq!(router.subscribe(&[3; 32], 2, tx.clone()), Ok(()));
    router.unsubscribe(&[1; 32], 1);
    assert_eq!(router.subscribe(&[3; 32], 1, tx), Ok(()));
    assert_eq!(router.subscription_count(), 3);
}

#[test]
fn channel_limit_is_kept() {
    let mut router = Router::with_limits(10, 1, 0);
    let (tx, _rx) = queue(1);
    assert_eq!(router.subscribe(&[1; 32], 1, tx.clone()), Ok(()));
    assert_eq!(
        router.subscribe(&[2; 32], 1, tx.clone()),
        Err("channel limit reached")
    );
    assert_eq!(router.subscribe(&[1; 32], 2, tx.clone()), Ok(()));
    router.unsubscribe(&[1; 32], 1);
    router.unsubscribe(&[1; 32], 2);
    assert_eq!(router.channel_count(), 0);
    assert_eq!(router.subscribe(&[2; 32], 1, tx), Ok(()));
}

#[test]
fn unsubscribing_undoes_subscribing() {
    let mut router = Router::new();
    let (tx, mut rx) = queue(4);
    assert_eq!(router.subscribe(&[1; 32], 1, tx), Ok(()));
    router.unsubscribe(&[1; 32], 2);
    assert_eq!(router.subscription_count(), 1);
    router.unsubscribe(&[1; 32], 1);
    assert_eq!(router.channel_count(), 0);
    assert_eq!(router.subscription_count(), 0);
    assert_eq!(router.publish(&[1; 32], b"x"), 0);
    assert!(rx.try_recv().is_err());
}

#[test]
fn leaving_removes_from_all_channels() {
    let mut router = Router::new();
    let (tx, _rx) = queue(4);
    for c in 0..5u8 {
        assert_eq!(router.subscribe(&[c; 32], 1, tx.clone()), Ok(()));
    }
    assert_eq!(router.subscribe(&[0; 32], 2, tx), Ok(()));
    router.remove_subscriber(1);
    assert_eq!(router.channel_count(), 1);
    assert_eq!(router.subscription_count(), 1);
    assert_eq!(router.publish(&[0; 32], b"x"), 1);
}

#[test]
fn closed_queues_are_put_out() {
    let mut router = Router::new();
    let (tx, rx) = queue(4);
    let (open, mut kept) = queue(4);
    assert_eq!(router.subscribe(&[1; 32], 1, tx), Ok(()));
    assert_eq!(router.subscribe(&[1; 32], 2, open), Ok(()));
    drop(rx);
    assert_eq!(router.publish(&[1; 32], b"x"), 1);
    assert_eq!(router.subscription_count(), 1);
    assert!(kept.try_recv().is_ok());
}

#[test]
fn slow_consumers_go_at_the_threshold() {
    let mut router = Router::with_limits(10, 10, 3);
    let (tx, mut rx) = queue(1);
    assert_eq!(router.subscribe(&[1; 32], 1, tx), Ok(()));
    assert_eq!(router.publish(&[1; 32], b"0"), 1);
    assert_eq!(router.publish(&[1; 32], b"1"), 0);
    assert_eq!(router.publish(&[1; 32], b"2"), 0);
    assert!(rx.try_recv().is_ok());
    assert_eq!(router.publish(&[1; 32], b"3"), 1);
    assert_eq!(router.publish(&[1; 32], b"4"), 0);
    assert_eq!(router.publish(&[1; 32], b"5"), 0);
    assert_eq!(router.subscription_count(), 1);
    assert_eq!(router.publish(&[1; 32], b"6"), 0);
    assert_eq!(router.subscription_count(), 0);
    assert_eq!(router.channel_count(), 0);
}

#[test]
fn without_threshold_slow_consumers_stay() {
    let mut router = Router::with_limits(10, 10, 0);
    let (tx, _rx) = queue(1);
    assert_eq!(router.subscribe(&[1; 32], 1, tx), Ok(()));
    for _ in 0..50 {
        router.publish(&[1; 32], b"x");
    }
    assert_eq!(router.subscription_count(), 1);
}

#[test]
fn outcomes_decide_who_stays() {
    let mut router = Router::with_limits(10, 10, 1);
    let (tx, _rx) = queue(1);
    for id in 1..=4 {
        assert_eq!(router.subscribe(&[1; 32], id, tx.clone()), Ok(()));
    }
    let outcomes = vec![
        SendOutcome::Closed,
        SendOutcome::Sent,
        SendOutcome::Full,
        SendOutcome::Sent,
    ];
    assert_eq!(router.settle(&[1; 32], &outcomes), 2);
    assert_eq!(router.subscription_count(), 2);
    router.unsubscribe(&[1; 32], 2);
    router.unsubscribe(&[1; 32], 4);
    assert_eq!(router.subscription_count(), 0);
}

#[test]
fn names_and_numbers_count_up() {
    let mut router = Router::new();
    assert_eq!(router.next_subscriber_id(), 1);
    assert_eq!(router.next_subscriber_id(), 2);
    assert_eq!(router.alloc_msg_id(), 1);
    assert_eq!(router.alloc_msg_id(), 2);
    let frame = router.data_frame(&[3; 32], b"p");
    assert_eq!(Message::deserialize(&frame).unwrap().id, 3);
}
