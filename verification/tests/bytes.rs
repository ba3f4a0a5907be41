use shatters_relay::bytes::{push_be32, push_be64, read_array, read_be16, read_be32, read_be64};
use shatters_relay::clock::cutoff;

#[test]
fn numbers_are_big_endian() {
    let mut out = vec![9];
    push_be32(&mut out, 0x0102_0304);
    push_be64(&mut out, 0x0506_0708_090A_0B0C);
    assert_eq!(out, vec![9, 1, 2, 3, 4, 5, 6, 7, 8, 9, 10, 11, 12]);
    assert_eq!(read_be16(&out, 1), 0x0102);
    assert_eq!(read_be32(&out, 1), 0x0102_0304);
    assert_eq!(read_be64(&out, 5), 0x0506_0708_090A_0B0C);
    assert_eq!(read_array::<3>(&out, 10), [10, 11, 12]);
}

#[test]
fn extreme_numbers_come_back() {
    for x in [0, 1, u64::MAX - 1, u64::MAX] {
        let mut out = Vec::new();
        push_be64(&mut out, x);
        assert_eq!(read_be64(&out, 0), x);
    }
}

#[test]
fn cutoffs_lie_behind() {
    assert_eq!(cutoff(5_000_000_000, 2), Some(3_000_000_000));
    assert_eq!(cutoff(5_000_000_000, 5), Some(0));
    assert_eq!(cutoff(4_999_999_999, 5), None);
    assert_eq!(cutoff(u64::MAX, u64::MAX), None);
}
