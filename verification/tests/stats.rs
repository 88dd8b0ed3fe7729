use spz_sandpile::stats::{bump_count, FastU64Hasher};
use std::collections::HashMap;
use std::hash::{BuildHasherDefault, Hasher};

#[test]
fn bump_count_grows_and_tallies() {
    let mut counts: Vec<u64> = Vec::new();
    for v in [3u64, 1, 3, 0, 3] {
        bump_count(&mut counts, v);
    }
    assert_eq!(counts, vec![1, 1, 0, 3]);
}

#[test]
fn bump_count_within_length_keeps_length() {
    let mut counts: Vec<u64> = vec![5, 5, 5];
    bump_count(&mut counts, 1);
    assert_eq!(counts, vec![5, 6, 5]);
}

#[test]
fn hasher_spreads_u64_keys() {
    let mut h = FastU64Hasher::default();
    assert_eq!(h.finish(), 0);
    h.write_u64(1);
    assert_eq!(h.finish(), 0x9E37_79B9_7F4A_7C15);
    h.write_u64(2);
    assert_eq!(h.finish(), 2u64.wrapping_mul(0x9E37_79B9_7F4A_7C15));
}

#[test]
fn hasher_folds_bytes() {
    let mut h = FastU64Hasher::default();
    h.write(&[1, 2]);
    let prime = 0x0000_0100_0000_01B3u64;
    let expected = ((0u64 ^ 1).wrapping_mul(prime) ^ 2).wrapping_mul(prime);
    assert_eq!(h.finish(), expected);
}

#[test]
fn hasher_works_in_a_map() {
    let mut map: HashMap<u64, u64, BuildHasherDefault<FastU64Hasher>> = HashMap::default();
    for size in [5u64, 7, 5, 5] {
        *map.entry(size).or_insert(0) += 1;
    }
    assert_eq!(map.get(&5), Some(&3));
    assert_eq!(map.get(&7), Some(&1));
}
