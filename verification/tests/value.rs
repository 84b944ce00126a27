use bn::{Int, BITS, LIMBS, MAX_BITS};
use std::cmp::Ordering;

#[test]
fn capacity_constants() {
    assert_eq!(BITS, 32);
    assert_eq!(MAX_BITS, 8192);
    assert_eq!(LIMBS, 256);
}

#[test]
fn default_is_zero() {
    let zero = Int::default();

    assert!(zero.is_zero());
    assert!(zero.limbs.iter().all(|limb| *limb == 0));
    assert_eq!(zero, 0u32);
}

#[test]
fn any_non_zero_limb_is_detected() {
    let mut i = 0;
    while i < LIMBS {
        let mut limbs = [0u32; LIMBS];
        limbs[i] = 1;
        assert!(!Int::from_raw_limbs(&limbs).is_zero());
        i += 1;
    }
    assert!(!Int::max().is_zero());
    assert!(!Int::from(1u8).is_zero());
}

#[test]
fn max_is_all_ones() {
    let max = Int::max();

    assert!(max.limbs.iter().all(|limb| *limb == 0xffff_ffff));
    assert_eq!(max, Int::from_raw_limbs(&[0xffff_ffff; LIMBS]));
}

#[test]
fn from_raw_limbs_fills_low_positions() {
    let num = Int::from_raw_limbs(&[7, 8, 9]);

    assert_eq!(num.limbs[0], 7);
    assert_eq!(num.limbs[1], 8);
    assert_eq!(num.limbs[2], 9);
    assert!(num.limbs[3..].iter().all(|limb| *limb == 0));
    assert_eq!(Int::from_raw_limbs(&[]), Int::default());
}

#[test]
fn from_raw_limbs_ignores_trailing_zero_words() {
    assert_eq!(Int::from_raw_limbs(&[5, 0, 0]), Int::from_raw_limbs(&[5]));
    assert_eq!(Int::from_raw_limbs(&[5, 0, 0]), 5u32);
}

#[test]
fn conversion_round_trips() {
    assert_eq!(Int::from(0u32), 0u32);
    assert_eq!(Int::from(0xdead_beefu32), 0xdead_beefu32);
    assert_eq!(Int::from(u32::MAX), u32::MAX);
    assert_eq!(Int::from(0u64), 0u64);
    assert_eq!(Int::from(0x0123_4567_89ab_cdefu64), 0x0123_4567_89ab_cdefu64);
    assert_eq!(Int::from(u64::MAX), u64::MAX);
    assert_eq!(Int::from(200u8), 200u8);
    assert_eq!(Int::from(60000u16), 60000u16);
}

#[test]
fn conversion_places_words() {
    let wide = Int::from(0x0123_4567_89ab_cdefu64);

    assert_eq!(wide.limbs[0], 0x89ab_cdef);
    assert_eq!(wide.limbs[1], 0x0123_4567);
    assert!(wide.limbs[2..].iter().all(|limb| *limb == 0));
    assert_eq!(Int::from(0xffu8).limbs[0], 0xff);
    assert_eq!(Int::from(0xffffu16).limbs[0], 0xffff);
    assert_eq!(Int::from(7u32), Int::from(7u64));
}

#[test]
fn native_equality_tells_values_apart() {
    assert!(Int::from(5u32) != 6u32);
    assert!(Int::from(0x1_0000_0005u64) != 5u32);
    assert!(Int::from_raw_limbs(&[5, 0, 1]) != 5u64);
    assert!(Int::from(256u32) != 0u8);
}

#[test]
fn set_bit_sets_one_bit() {
    let mut num = Int::default();
    num.set_bit(0);
    assert_eq!(num, 1u32);
    num.set_bit(33);
    assert_eq!(num, 0x0000_0002_0000_0001u64);
    num.set_bit(33);
    assert_eq!(num, 0x0000_0002_0000_0001u64);
    num.set_bit(31);
    assert_eq!(num, 0x0000_0002_8000_0001u64);

    let mut top = Int::default();
    top.set_bit(MAX_BITS - 1);
    assert_eq!(top.limbs[LIMBS - 1], 0x8000_0000);
    assert!(top.limbs[..LIMBS - 1].iter().all(|limb| *limb == 0));
}

#[test]
fn unset_bit_clears_one_bit() {
    let mut num = Int::from(0x0000_0002_8000_0001u64);
    num.unset_bit(31);
    assert_eq!(num, 0x0000_0002_0000_0001u64);
    num.unset_bit(31);
    assert_eq!(num, 0x0000_0002_0000_0001u64);
    num.unset_bit(33);
    assert_eq!(num, 1u32);
    num.unset_bit(0);
    assert!(num.is_zero());
    assert_eq!(num, Int::default());

    let mut max = Int::max();
    max.unset_bit(MAX_BITS - 1);
    assert_eq!(max.limbs[LIMBS - 1], 0x7fff_ffff);
    assert!(max.limbs[..LIMBS - 1].iter().all(|limb| *limb == 0xffff_ffff));
}

#[test]
fn equality_looks_at_every_limb() {
    let a = Int::from_raw_limbs(&[1, 2, 3]);
    let mut b = a;
    assert_eq!(a, b);
    b.set_bit(MAX_BITS - 1);
    assert_ne!(a, b);
    let mut c = a;
    c.set_bit(1);
    assert_ne!(a, c);
}

#[test]
fn ordering_follows_the_value() {
    let small = Int::from_raw_limbs(&[7, 0]);
    let large = Int::from_raw_limbs(&[5, 1]);

    assert!(small < large);
    assert!(large > small);
    assert!(small <= large);
    assert!(!(small >= large));
    assert_eq!(small.partial_cmp(&large), Some(Ordering::Less));
    assert_eq!(large.partial_cmp(&small), Some(Ordering::Greater));
    assert_eq!(large.partial_cmp(&large), Some(Ordering::Equal));
    assert!(Int::from(3u32) < Int::from(4u32));
    assert!(Int::default() < Int::max());
    assert!(Int::from(u64::MAX) < Int::from_raw_limbs(&[0, 0, 1]));
}

#[test]
fn ordering_holds_exactly_one_relation() {
    let values = [
        Int::default(),
        Int::from(1u32),
        Int::from(0xffff_ffffu32),
        Int::from(0x1_0000_0000u64),
        Int::from_raw_limbs(&[0xffff_fffe, 1]),
        Int::from_raw_limbs(&[0, 0, 0, 9]),
        Int::max(),
    ];
    for (i, a) in values.iter().enumerate() {
        for (j, b) in values.iter().enumerate() {
            let held = [a < b, a == b, a > b];
            assert_eq!(held.iter().filter(|h| **h).count(), 1);
            assert_eq!(a < b, i < j);
            assert_eq!(a == b, i == j);
            assert_eq!(a > b, i > j);
        }
    }
}

#[test]
fn copies_are_independent() {
    let a = Int::from(9u32);
    let mut b = a;
    b.set_bit(100);
    let c = a.clone();

    assert_eq!(a, 9u32);
    assert_eq!(c, a);
    assert_ne!(b, a);
}
