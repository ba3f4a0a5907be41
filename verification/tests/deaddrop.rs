use shatters_relay::config::DeadDropConfig;
use shatters_relay::deaddrop::DeadDropStore;

const SECOND: u64 = 1_000_000_000;

fn config(max_per_drop: usize, max_channels: usize) -> DeadDropConfig {
    DeadDropConfig {
        default_ttl_secs: 10,
        max_per_drop,
        max_channels,
        cleanup_interval_secs: 60,
    }
}

#[test]
fn what_is_stored_is_retrieved() {
    let mut store = DeadDropStore::new(config(10, 10), 1000);
    assert_eq!(store.store(&[1; 32], vec![1, 2, 3]), Ok(vec![1, 2, 3]));
    assert_eq!(store.store(&[1; 32], vec![0, 0]), Ok(vec![0, 0]));
    assert_eq!(store.retrieve(&[1; 32], 60), vec![vec![1, 2, 3], vec![0, 0]]);
    assert_eq!(store.retrieve(&[1; 32], 60), vec![vec![1, 2, 3], vec![0, 0]]);
    assert_eq!(store.retrieve(&[2; 32], 60), Vec::<Vec<u8>>::new());
    assert_eq!(store.channel_count(), 1);
    assert_eq!(store.total_envelopes(), 2);
}

#[test]
fn only_the_newest_are_kept() {
    let mut store = DeadDropStore::new(config(2, 10), 1000);
    for n in 0..5u8 {
        assert_eq!(store.store(&[1; 32], vec![n]), Ok(vec![n]));
    }
    assert_eq!(store.retrieve(&[1; 32], 60), vec![vec![3], vec![4]]);
    assert_eq!(store.total_envelopes(), 2);
}

#[test]
fn evicted_bytes_are_free_again() {
    let mut store = DeadDropStore::new(config(1, 10), 10);
    assert_eq!(store.store(&[1; 32], vec![0; 5]), Ok(vec![0; 5]));
    assert_eq!(store.store(&[1; 32], vec![1; 5]), Ok(vec![1; 5]));
    assert_eq!(store.store(&[1; 32], vec![2; 5]), Ok(vec![2; 5]));
    assert_eq!(
        store.store(&[1; 32], vec![3; 6]),
        Err("deaddrop storage limit reached")
    );
}

#[test]
fn drop_channel_limit_is_kept() {
    let mut store = DeadDropStore::new(config(10, 1), 1000);
    assert!(store.store(&[1; 32], vec![1]).is_ok());
    assert_eq!(
        store.store(&[2; 32], vec![1]),
        Err("deaddrop channel limit reached")
    );
    assert!(store.store(&[1; 32], vec![2]).is_ok());
    assert_eq!(store.channel_count(), 1);
}

#[test]
fn storage_limit_is_kept() {
    let mut store = DeadDropStore::new(config(10, 10), 4);
    assert!(store.store(&[1; 32], vec![1; 4]).is_ok());
    assert_eq!(
        store.store(&[2; 32], vec![1]),
        Err("deaddrop storage limit reached")
    );
    assert_eq!(store.channel_count(), 1);
    assert!(store.store(&[2; 32], vec![]).is_ok());
}

#[test]
fn retrieval_goes_by_age() {
    let mut store = DeadDropStore::new(config(10, 10), 1000);
    assert!(store.store_at(&[1; 32], vec![1], SECOND).is_ok());
    assert!(store.store_at(&[1; 32], vec![2], 3 * SECOND).is_ok());
    assert_eq!(store.retrieve_at(&[1; 32], 2, 4 * SECOND), vec![vec![2]]);
    assert_eq!(store.retrieve_at(&[1; 32], 3, 4 * SECOND), vec![vec![1], vec![2]]);
    assert_eq!(
        store.retrieve_at(&[1; 32], 0, 4 * SECOND),
        Vec::<Vec<u8>>::new()
    );
    assert_eq!(
        store.retrieve_at(&[1; 32], u64::MAX, 4 * SECOND),
        vec![vec![1], vec![2]]
    );
}

#[test]
fn cleanup_takes_the_expired() {
    let mut store = DeadDropStore::new(config(10, 10), 6);
    assert!(store.store_at(&[1; 32], vec![1; 2], SECOND).is_ok());
    assert!(store.store_at(&[2; 32], vec![2; 2], 2 * SECOND).is_ok());
    assert!(store.store_at(&[2; 32], vec![3; 2], 9 * SECOND).is_ok());
    store.cleanup_at(11 * SECOND, true);
    assert_eq!(store.total_envelopes(), 3);
    store.cleanup_at(12 * SECOND, true);
    assert_eq!(store.channel_count(), 1);
    store.cleanup_at(12 * SECOND + 1, true);
    assert_eq!(store.total_envelopes(), 1);
    assert_eq!(
        store.retrieve_at(&[2; 32], 100, 12 * SECOND),
        vec![vec![3, 3]]
    );
    assert!(store.store_at(&[3; 32], vec![4; 4], 12 * SECOND).is_ok());
}

#[test]
fn a_fresh_cleanup_takes_nothing() {
    let mut store = DeadDropStore::new(config(10, 10), 1000);
    assert!(store.store(&[1; 32], vec![1]).is_ok());
    store.cleanup();
    assert_eq!(store.total_envelopes(), 1);
}

#[test]
fn empty_channels_go_at_any_cleanup() {
    let mut store = DeadDropStore::new(config(0, 1), 1000);
    assert!(store.store_at(&[1; 32], vec![1], SECOND).is_ok());
    assert_eq!(store.total_envelopes(), 0);
    assert_eq!(store.channel_count(), 1);
    assert_eq!(
        store.store_at(&[2; 32], vec![1], SECOND),
        Err("deaddrop channel limit reached")
    );
    store.cleanup_at(9 * SECOND, false);
    assert_eq!(store.channel_count(), 1);
    store.cleanup_at(9 * SECOND, true);
    assert_eq!(store.channel_count(), 0);
    assert!(store.store_at(&[2; 32], vec![1], 9 * SECOND).is_ok());
}
