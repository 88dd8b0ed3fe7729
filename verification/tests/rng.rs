use spz_sandpile::rng::{clock_seed, FastRng, CLOCK_FALLBACK_SEED, ENTROPY_MASK};

#[test]
fn usize_range_within_bounds() {
    let mut rng = FastRng::new(7);
    for _ in 0..10_000 {
        let v = rng.gen_usize_range(10, 20);
        assert!((10..20).contains(&v));
    }
}

#[test]
fn deterministic_for_same_seed() {
    let mut a = FastRng::new(123);
    let mut b = FastRng::new(123);
    for _ in 0..1000 {
        assert_eq!(a.next_u64(), b.next_u64());
    }
}

/// Reference values of SplitMix64-seeded xoshiro256++ for seed 0.
#[test]
fn known_outputs_for_seed_zero() {
    // SplitMix64(0) yields these four state words.
    let mut rng = FastRng::new(0);
    let first = rng.next_u64();
    let s = [
        0xE220A8397B1DCDAFu64,
        0x6E789E6AA1B965F4u64,
        0x06C45D188009454Fu64,
        0xF88BB8A8724C81ECu64,
    ];
    let expected = s[0].wrapping_add(s[3]).rotate_left(23).wrapping_add(s[0]);
    assert_eq!(first, expected);
}

#[test]
fn next_usize_follows_next_u64() {
    let mut a = FastRng::new(99);
    let mut b = FastRng::new(99);
    for _ in 0..100 {
        assert_eq!(a.next_usize(), b.next_u64() as usize);
    }
}

#[test]
fn empty_range_gives_low() {
    let mut rng = FastRng::new(3);
    for _ in 0..100 {
        assert_eq!(rng.gen_usize_range(17, 17), 17);
    }
}

#[test]
fn unit_range_gives_low() {
    let mut rng = FastRng::new(11);
    for _ in 0..100 {
        assert_eq!(rng.gen_usize_range(4, 5), 4);
    }
}

#[test]
fn from_entropy_gives_working_generator() {
    let mut rng = FastRng::from_entropy();
    for _ in 0..100 {
        let v = rng.gen_usize_range(0, 3);
        assert!(v < 3);
    }
}

#[test]
fn draw_site_takes_low_bits() {
    let mut a = FastRng::new(21);
    let mut b = FastRng::new(21);
    for _ in 0..1000 {
        let idx = spz_sandpile::rng::draw_site(&mut a, 63);
        assert!(idx <= 63);
        assert_eq!(idx, (b.next_u64() as usize) & 63);
    }
}

#[test]
fn clock_seed_truncates_nanos_and_falls_back_before_epoch() {
    assert_eq!(clock_seed(Some(5)), 5);
    assert_eq!(clock_seed(Some((1u128 << 64) + 7)), 7);
    assert_eq!(clock_seed(None), 0x9E37_79B9_7F4A_7C15);
    assert_eq!(clock_seed(None), CLOCK_FALLBACK_SEED);
    let mut a = FastRng::new(clock_seed(None) ^ ENTROPY_MASK);
    let mut b = FastRng::new(0x9E37_79B9_7F4A_7C15 ^ 0xA5A5_5A5A_DEAD_BEEF);
    assert_eq!(a.next_u64(), b.next_u64());
}
