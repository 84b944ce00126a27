use bn::Int;

#[test]
fn sub_simple() {
    let a: Int = 2048u32.into();
    let b: Int = 1024u32.into();

    assert_eq!(a - b, b);
}

#[test]
fn zero() {
    let a: Int = 2048u32.into();

    assert_eq!(a - a, Int::default());
}

#[test]
fn sub_self_is_zero_for_wide_values() {
    let a = Int::from_raw_limbs(&[1, 2, 3, 4, 0xffff_ffff]);

    assert_eq!(a - a, Int::default());
    assert_eq!(Int::max() - Int::max(), Int::default());
}

#[test]
fn sub_borrows_across_limbs() {
    let a: Int = 0x0000_0001_0000_0000u64.into();
    let one: Int = 1u32.into();

    assert_eq!(a - one, 0xffff_ffffu32);
    assert_eq!(
        Int::from_raw_limbs(&[0, 0, 1]) - one,
        Int::from_raw_limbs(&[0xffff_ffff, 0xffff_ffff])
    );
}

#[test]
fn sub_wraps_below_zero() {
    let one: Int = 1u32.into();
    let two: Int = 2u32.into();

    assert_eq!(Int::default() - one, Int::max());
    assert_eq!(one - two, Int::max());
}

#[test]
fn sub_undoes_add() {
    let a = Int::from_raw_limbs(&[0xffff_ffff, 0xffff_ffff, 5]);
    let b = Int::from_raw_limbs(&[0x8000_0000, 1]);

    assert_eq!((a + b) - b, a);
    assert_eq!((a - b) + b, a);
}
