//! Sets of packet numbers, big-endian numbers and variable-length integers.

use quiche_multipath::bytes::{be_vec, u128_from_be, u128_to_be};
use quiche_multipath::ranges::RangeSet;
use quiche_multipath::wire::size_of_varint;

fn set(items: &[(u64, u64)]) -> RangeSet {
    let mut r = RangeSet::default();
    for &(start, end) in items {
        r.insert(start..end);
    }
    r
}

fn list(r: &RangeSet) -> Vec<(u64, u64)> {
    (0..r.len()).map(|i| r.range(i)).collect()
}

#[test]
fn touching_ranges_are_merged() {
    assert_eq!(list(&set(&[(0, 5), (5, 7)])), vec![(0, 7)]);
    assert_eq!(list(&set(&[(5, 7), (0, 5)])), vec![(0, 7)]);
    assert_eq!(list(&set(&[(0, 5), (6, 7)])), vec![(0, 5), (6, 7)]);
    assert_eq!(list(&set(&[(0, 2), (4, 6), (8, 10), (1, 9)])), vec![(0, 10)]);
    assert_eq!(list(&set(&[(4, 6), (4, 6), (5, 5)])), vec![(4, 6)]);
}

#[test]
fn order_of_insertion_does_not_matter() {
    let items = [(10, 12), (0, 3), (20, 30), (3, 5), (12, 14)];
    let mut backwards = items;
    backwards.reverse();
    assert_eq!(set(&items), set(&backwards));
    assert_eq!(list(&set(&items)), vec![(0, 5), (10, 14), (20, 30)]);
    assert_eq!(set(&items).last(), Some(29));
    assert_eq!(RangeSet::default().last(), None);
    assert_eq!(set(&items).clone(), set(&items));
}

#[test]
fn big_endian_numbers() {
    let n = 0x0102_0304_0506_0708_090a_0b0c_0d0e_0f10;
    assert_eq!(u128_to_be(n), n.to_be_bytes());
    assert_eq!(u128_from_be(&n.to_be_bytes()), n);
    assert_eq!(u128_from_be(&[1, 2]), 0x102);
    assert_eq!(u128_from_be(&[]), 0);
    assert_eq!(u128_from_be(&[0xff; 16]), u128::MAX);
    assert_eq!(be_vec(0x010203, 4), vec![0, 1, 2, 3]);
    assert_eq!(be_vec(0x010203, 2), vec![2, 3]);
}

#[test]
fn sizes_of_variable_length_integers() {
    let max = (1 << 62) - 1;
    for (v, n) in
        [(0, 1), (63, 1), (64, 2), (16383, 2), (16384, 4), (0x3fff_ffff, 4), (0x4000_0000, 8), (max, 8)]
    {
        assert_eq!(size_of_varint(v), n);
        assert_eq!(octets::varint_len(v) as u128, n);
    }
}
