use bn::{Int, LIMBS};

#[test]
fn mul_simple() {
    let num: Int = 1024u32.into();

    assert_eq!(num * num, 1024u64 * 1024u64);
}

#[test]
fn simple1() {
    let a: Int = 0u32.into();
    let b: Int = 1u32.into();

    assert_eq!(a * b, 0u32);
}

#[test]
fn mul_overflow() {
    let num: Int = 0xffffffffu32.into();

    assert_eq!(num * num, Into::<Int>::into(0xffffffffu64 * 0xffffffffu64));
}

fn product_matches_native(a: u32, b: u32) -> bool {
    let (ai, bi): (Int, Int) = (a.into(), b.into());
    ai * bi == a as u64 * b as u64
}

#[test]
fn mul_simple_random() {
    quickcheck::quickcheck(product_matches_native as fn(u32, u32) -> bool);
}

#[test]
fn mul_of_native_words_is_the_wide_product() {
    let mut state: u64 = 0x2545_f491_4f6c_dd1d;
    let mut count: u32 = 0;
    while count < 200 {
        state = state.wrapping_mul(6364136223846793005).wrapping_add(1442695040888963407);
        let a = (state >> 32) as u32;
        state = state.wrapping_mul(6364136223846793005).wrapping_add(1442695040888963407);
        let b = (state >> 32) as u32;
        let (ai, bi): (Int, Int) = (a.into(), b.into());
        assert!(ai * bi == a as u64 * b as u64);
        count += 1;
    }
    let edge: [u32; 5] = [0, 1, 2, 0x8000_0000, 0xffff_ffff];
    for a in edge {
        for b in edge {
            let (ai, bi): (Int, Int) = (a.into(), b.into());
            assert!(ai * bi == a as u64 * b as u64);
        }
    }
}

#[test]
fn mul_is_commutative() {
    let a = Int::from_raw_limbs(&[0xffff_ffff, 0x1234_5678, 0xdead_beef]);
    let b = Int::from_raw_limbs(&[0x0000_0001, 0xffff_ffff, 0x9abc_def0, 7]);

    assert_eq!(a * b, b * a);
}

#[test]
fn mul_spreads_partial_products_over_limbs() {
    let a: Int = 0x0000_0001_0000_0001u64.into();

    assert_eq!(a * a, Int::from_raw_limbs(&[1, 2, 1]));

    let b = Int::from_raw_limbs(&[0xffff_ffff, 0xffff_ffff]);
    assert_eq!(b * b, Int::from_raw_limbs(&[1, 0, 0xffff_fffe, 0xffff_ffff]));
}

#[test]
fn mul_by_one_and_by_zero() {
    let one: Int = 1u32.into();

    assert_eq!(Int::max() * one, Int::max());
    assert_eq!(one * Int::max(), Int::max());
    assert_eq!(Int::max() * Int::default(), Int::default());
}

#[test]
fn mul_reaches_the_top_limb() {
    let mut half = Int::default();
    half.set_bit(bn::MAX_BITS / 2);
    let mut below = Int::default();
    below.set_bit(bn::MAX_BITS / 2 - 1);
    let mut top = Int::default();
    top.set_bit(bn::MAX_BITS - 1);

    assert_eq!(half * below, top);
    assert_eq!(top.limbs[LIMBS - 1], 0x8000_0000);
}

#[test]
fn mul_wraps_at_capacity() {
    let one: Int = 1u32.into();
    let two: Int = 2u32.into();
    let mut half = Int::default();
    half.set_bit(bn::MAX_BITS / 2);
    let mut top = Int::default();
    top.set_bit(bn::MAX_BITS - 1);

    assert_eq!(half * half, Int::default());
    assert_eq!(top * two, Int::default());
    assert_eq!(Int::max() * Int::max(), one);
    assert_eq!(Int::max() * two, Int::max() - one);
}
