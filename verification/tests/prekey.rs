use shatters_relay::config::PreKeyConfig;
use shatters_relay::prekey::store::{consume_one_opk, opk_count};
use shatters_relay::prekey::PreKeyStore;

const SECOND: u64 = 1_000_000_000;

fn bundle(keys: u16) -> Vec<u8> {
    let mut out = vec![0xAB; 128];
    out.extend_from_slice(&keys.to_be_bytes());
    for k in 0..keys {
        out.extend_from_slice(&(k as u32).to_be_bytes());
        out.extend_from_slice(&[k as u8; 32]);
    }
    out
}

fn config() -> PreKeyConfig {
    PreKeyConfig {
        bundle_ttl_secs: 10,
        max_prekeys_per_user: 3,
        max_bundle_size_bytes: 300,
        cleanup_interval_secs: 300,
    }
}

#[test]
fn keys_are_counted() {
    assert_eq!(opk_count(&[]), 0);
    assert_eq!(opk_count(&[0xFF; 129]), 0);
    assert_eq!(opk_count(&[0xFF; 130]), 0xFFFF);
    assert_eq!(opk_count(&bundle(258)), 258);
}

#[test]
fn the_first_key_is_consumed() {
    let three = bundle(3);
    let two = consume_one_opk(&three);
    assert_eq!(two.len(), 130 + 2 * 36);
    assert_eq!(&two[..128], &three[..128]);
    assert_eq!(opk_count(&two), 2);
    assert_eq!(&two[130..], &three[166..]);
    assert_eq!(consume_one_opk(&bundle(0)), bundle(0));
    assert_eq!(opk_count(&consume_one_opk(&bundle(256))), 255);
}

#[test]
fn short_bundles_lose_what_they_have() {
    let mut torn = bundle(2);
    torn.truncate(150);
    let left = consume_one_opk(&torn);
    assert_eq!(left.len(), 130);
    assert_eq!(opk_count(&left), 1);
    assert_eq!(consume_one_opk(&[1, 2, 3]), vec![1, 2, 3]);
}

#[test]
fn each_key_is_handed_out_once() {
    let mut store = PreKeyStore::new(config());
    let up = bundle(2);
    assert_eq!(store.upload([1; 32], up.clone()), Ok(()));
    let first = store.fetch(&[1; 32]).unwrap();
    assert_eq!(first, up);
    let second = store.fetch(&[1; 32]).unwrap();
    assert_eq!(opk_count(&second), 1);
    assert_eq!(&second[130..166], &up[166..202]);
    let third = store.fetch(&[1; 32]).unwrap();
    assert_eq!(opk_count(&third), 0);
    assert_eq!(third.len(), 130);
    assert_eq!(&third[..128], &up[..128]);
    assert_eq!(store.fetch(&[1; 32]).unwrap(), third);
    assert!(store.fetch(&[2; 32]).is_none());
}

#[test]
fn bundles_are_checked() {
    let mut store = PreKeyStore::new(config());
    assert_eq!(store.upload([1; 32], vec![0; 129]), Err("bundle too small"));
    assert_eq!(store.upload([1; 32], vec![0; 301]), Err("bundle too large"));
    let mut many = bundle(0);
    many[129] = 4;
    assert_eq!(
        store.upload([1; 32], many),
        Err("too many one-time prekeys")
    );
    let mut torn = bundle(3);
    torn.pop();
    assert_eq!(
        store.upload([1; 32], torn),
        Err("bundle length inconsistent with OPK count")
    );
    assert!(store.fetch(&[1; 32]).is_none());
    assert_eq!(store.upload([1; 32], bundle(3)), Ok(()));
    assert_eq!(store.upload([1; 32], bundle(1)), Ok(()));
    assert_eq!(store.fetch(&[1; 32]), Some(bundle(1)));
}

#[test]
fn bundles_expire() {
    let mut store = PreKeyStore::new(config());
    assert_eq!(store.upload_at([1; 32], bundle(1), SECOND), Ok(()));
    assert_eq!(store.upload_at([2; 32], bundle(2), 2 * SECOND), Ok(()));
    store.cleanup_at(11 * SECOND);
    assert!(store.fetch(&[1; 32]).is_some());
    store.cleanup_at(12 * SECOND);
    assert!(store.fetch(&[1; 32]).is_none());
    assert!(store.fetch(&[2; 32]).is_some());
    store.cleanup();
    assert!(store.fetch(&[2; 32]).is_some());
}
