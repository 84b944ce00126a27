use bn::Int;

#[test]
fn add_simple() {
    let num: Int = 1024u32.into();

    assert_eq!(num + num, 2048u32);
}

#[test]
fn add_overflow() {
    let num: Int = 0xffffffffu32.into();

    assert_eq!(num + num, Into::<Int>::into(2 * 0xffffffffu64));
}

#[test]
fn different_sizes() {
    let a_n = 0x00000000ffffffffu64;
    let b_n = 0x0000000f00000000u64;

    let a: Int = a_n.into();
    let b: Int = b_n.into();

    assert_eq!(a + b, a_n + b_n);
}

#[test]
fn add_is_commutative() {
    let a = Int::from_raw_limbs(&[0xffff_ffff, 0x1234_5678, 0xdead_beef]);
    let b = Int::from_raw_limbs(&[0x0000_0001, 0xffff_ffff, 0x9abc_def0, 7]);

    assert_eq!(a + b, b + a);
    assert_eq!(a + b, Int::from_raw_limbs(&[0, 0x1234_5678, 0x796a_9de0, 8]));
}

#[test]
fn add_zero_is_identity() {
    let a = Int::from_raw_limbs(&[3, 0, 0xffff_ffff]);

    assert_eq!(a + Int::default(), a);
    assert_eq!(Int::default() + a, a);
}

#[test]
fn add_carry_runs_through_every_limb() {
    let one: Int = 1u32.into();
    let mut low_ones = Int::max();
    low_ones.unset_bit(bn::MAX_BITS - 1);
    let mut top_bit = Int::default();
    top_bit.set_bit(bn::MAX_BITS - 1);

    assert_eq!(low_ones + one, top_bit);
}

#[test]
fn add_wraps_at_capacity() {
    let one: Int = 1u32.into();

    assert_eq!(Int::max() + one, Int::default());
    assert_eq!(Int::max() + Int::max(), Int::max() - one);
}
