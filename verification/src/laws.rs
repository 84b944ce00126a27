//! What holds of the operators for all operands.

use core::cmp::Ordering;
use vstd::prelude::*;
use vstd::arithmetic::div_mod::{lemma_mod_bound, lemma_small_mod};
use vstd::arithmetic::power2::pow2;
use vstd::std_specs::cmp::{PartialEqSpec, PartialOrdSpec};
use vstd::std_specs::convert::FromSpec;
use vstd::std_specs::ops::{AddSpec, MulSpec, SubSpec};
use crate::bignum::{
    lemma_of_value, lemma_of_value_view, lemma_view_bound, lemma_view_injective, modulus, Int,
    LIMBS, MAX_BITS,
};
use crate::limbs::{
    lemma_pow32_add, lemma_pow32_is_pow2, lemma_pow32_positive, lemma_prefix_zero,
    lemma_prefix_zero_converse, pow32,
};

verus! {

/// The modulus is `2^MAX_BITS`.
pub proof fn law_modulus_is_pow2()
    ensures
        modulus() == pow2(MAX_BITS as nat),
{
    lemma_pow32_is_pow2(LIMBS as nat);
}

/// The modulus is positive and larger than every 64-bit number.
pub proof fn lemma_modulus_exceeds_u64()
    ensures
        modulus() > 0xffff_ffff_ffff_ffff,
{
    assert(pow32(0) == 1);
    assert(pow32(1) == 0x1_0000_0000) by {
        assert(pow32(1) == 0x1_0000_0000 * pow32(0));
    }
    assert(pow32(2) == 0x1_0000_0000_0000_0000) by {
        assert(pow32(2) == 0x1_0000_0000 * pow32(1));
    }
    lemma_pow32_add(2, 254);
    lemma_pow32_positive(254);
    let p: nat = pow32(254);
    assert(0x1_0000_0000_0000_0000 * p >= 0x1_0000_0000_0000_0000) by (nonlinear_arith)
        requires
            p >= 1,
    ;
}

/// The sum stands for the sum of the values, reduced modulo `2^MAX_BITS`.
pub proof fn law_add_value(a: Int, b: Int)
    ensures
        a.add_spec(b)@ == (a@ + b@) % modulus(),
{
    lemma_pow32_positive(LIMBS as nat);
    lemma_mod_bound((a@ + b@) as int, modulus() as int);
    lemma_of_value_view((a@ + b@) % modulus());
}

/// The difference stands for the difference of the values, reduced modulo
/// `2^MAX_BITS` into the range from zero up.
pub proof fn law_sub_value(a: Int, b: Int)
    ensures
        a.sub_spec(b)@ == (a@ - b@) % (modulus() as int),
{
    lemma_pow32_positive(LIMBS as nat);
    lemma_mod_bound(a@ - b@, modulus() as int);
    lemma_of_value_view(((a@ - b@) % (modulus() as int)) as nat);
}

/// The product stands for the product of the values, reduced modulo
/// `2^MAX_BITS`.
pub proof fn law_mul_value(a: Int, b: Int)
    ensures
        a.mul_spec(b)@ == (a@ * b@) % modulus(),
{
    lemma_pow32_positive(LIMBS as nat);
    lemma_mod_bound((a@ * b@) as int, modulus() as int);
    lemma_of_value_view((a@ * b@) % modulus());
}

/// Addition is commutative: `a + b == b + a`.
pub proof fn law_add_commutative(a: Int, b: Int)
    ensures
        a.add_spec(b) == b.add_spec(a),
        a.add_spec(b).eq_spec(&b.add_spec(a)),
{
}

/// Multiplication is commutative: `a * b == b * a`.
pub proof fn law_mul_commutative(a: Int, b: Int)
    ensures
        a.mul_spec(b) == b.mul_spec(a),
        a.mul_spec(b).eq_spec(&b.mul_spec(a)),
{
    assert(a@ * b@ == b@ * a@) by (nonlinear_arith);
}

/// Subtracting an integer from itself gives zero, the default value:
/// `a - a == Int::default()`.
pub proof fn law_sub_self(a: Int, zero: Int)
    requires
        zero@ == 0,
    ensures
        a.sub_spec(a)@ == 0,
        a.sub_spec(a) == zero,
        a.sub_spec(a).eq_spec(&zero),
{
    law_sub_value(a, a);
    lemma_modulus_exceeds_u64();
    lemma_small_mod(0, modulus());
    lemma_view_injective(a.sub_spec(a), zero);
}

/// Zero, the default value, is the identity of addition:
/// `a + Int::default() == a`.
pub proof fn law_add_zero(a: Int, zero: Int)
    requires
        zero@ == 0,
    ensures
        a.add_spec(zero) == a,
        a.add_spec(zero).eq_spec(&a),
{
    lemma_view_bound(a);
    lemma_small_mod(a@, modulus());
    lemma_of_value(a);
}

/// An integer stands for zero exactly when all its limbs are zero: one
/// non-zero limb anywhere makes it non-zero.
pub proof fn law_zero_iff_no_limb_set(a: Int)
    ensures
        a@ == 0 <==> forall|i: int| 0 <= i < LIMBS ==> a.limbs@[i] == 0,
{
    if a@ == 0 {
        lemma_prefix_zero_converse(a.limbs@, LIMBS as nat);
    }
    if forall|i: int| 0 <= i < LIMBS ==> a.limbs@[i] == 0 {
        lemma_prefix_zero(a.limbs@, LIMBS as nat);
    }
}

/// A 32-bit number converted to an `Int` equals that number.
pub proof fn law_from_u32_round_trip(n: u32)
    ensures
        <Int as FromSpec<u32>>::from_spec(n)@ == n,
        <Int as FromSpec<u32>>::from_spec(n).eq_spec(&n),
{
    lemma_modulus_exceeds_u64();
    lemma_of_value_view(n as nat);
}

/// A 64-bit number converted to an `Int` equals that number.
pub proof fn law_from_u64_round_trip(n: u64)
    ensures
        <Int as FromSpec<u64>>::from_spec(n)@ == n,
        <Int as FromSpec<u64>>::from_spec(n).eq_spec(&n),
{
    lemma_modulus_exceeds_u64();
    lemma_of_value_view(n as nat);
}

/// The product of two converted 32-bit numbers equals their 64-bit
/// product: nothing wraps.
pub proof fn law_mul_u32(a: u32, b: u32)
    ensures
        a * b <= u64::MAX,
        <Int as FromSpec<u32>>::from_spec(a).mul_spec(<Int as FromSpec<u32>>::from_spec(b))@ == a
            * b,
        <Int as FromSpec<u32>>::from_spec(a).mul_spec(
            <Int as FromSpec<u32>>::from_spec(b),
        ).eq_spec(&((a * b) as u64)),
{
    let x = <Int as FromSpec<u32>>::from_spec(a);
    let y = <Int as FromSpec<u32>>::from_spec(b);
    law_from_u32_round_trip(a);
    law_from_u32_round_trip(b);
    law_mul_value(x, y);
    lemma_modulus_exceeds_u64();
    assert(0 <= a * b <= 0xffff_ffff * 0xffff_ffff) by (nonlinear_arith)
        requires
            0 <= a <= 0xffff_ffff,
            0 <= b <= 0xffff_ffff,
    ;
    lemma_small_mod((a * b) as nat, modulus());
}

/// Of `a < b`, `a == b` and `a > b` exactly one holds, and it is the one
/// that holds of the numbers the two integers stand for.
pub proof fn law_ordering_total(a: Int, b: Int)
    ensures
        a.partial_cmp_spec(&b) == Some(Ordering::Less) <==> a@ < b@,
        a.partial_cmp_spec(&b) == Some(Ordering::Equal) <==> a@ == b@,
        a.partial_cmp_spec(&b) == Some(Ordering::Greater) <==> a@ > b@,
        a.partial_cmp_spec(&b) == Some(Ordering::Equal) <==> a.eq_spec(&b),
        a.eq_spec(&b) <==> a == b,
        a.partial_cmp_spec(&b) is Some,
        a.partial_cmp_spec(&b) == Some(Ordering::Less) <==> b.partial_cmp_spec(&a) == Some(
            Ordering::Greater,
        ),
{
    if a@ == b@ {
        lemma_view_injective(a, b);
    }
}

} // verus!
