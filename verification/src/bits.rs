//! How the bits of an [`Int`] relate to the number it stands for.

use vstd::prelude::*;
use vstd::arithmetic::div_mod::{
    lemma_fundamental_div_mod, lemma_fundamental_div_mod_converse, lemma_mod_bound,
};
use vstd::arithmetic::power2::{lemma2_to64, lemma_pow2_adds, lemma_pow2_pos, pow2};
use vstd::bits::lemma_u32_shr_is_div;
use crate::bignum::{Int, LIMBS, MAX_BITS};
use crate::limbs::{
    lemma_bit_weight, lemma_prefix_bound, lemma_prefix_split, pow32, prefix_value, upper_value,
};

verus! {

/// A number laid out as the part below a limb, the limb split at one of its
/// bits, and the part above the limb: the parity of its quotient by the
/// weight `pn` of that bit is the parity of the limb's upper part `hi`.
proof fn lemma_bit_position(
    value: nat,
    low: nat,
    limb: nat,
    lo: nat,
    hi: nat,
    upper: nat,
    pk: nat,
    pm: nat,
    pr: nat,
    pn: nat,
)
    requires
        value == low + limb * pk + (0x1_0000_0000 * pk) * upper,
        low < pk,
        limb == lo + pm * hi,
        lo < pm,
        pm * (2 * pr) == 0x1_0000_0000,
        pn == pm * pk,
        pn > 0,
    ensures
        (value / pn) % 2 == hi % 2,
{
    let rest: nat = low + lo * pk;
    let z: nat = pr * upper;
    let quot: nat = hi + 2 * z;
    assert(rest < pn) by (nonlinear_arith)
        requires
            rest == low + lo * pk,
            low < pk,
            lo < pm,
            pn == pm * pk,
    ;
    assert((lo + pm * hi) * pk == lo * pk + hi * (pm * pk)) by (nonlinear_arith);
    assert(((pm * (2 * pr)) * pk) * upper == (2 * (pr * upper)) * (pm * pk))
        by (nonlinear_arith);
    assert((hi + 2 * z) * pn == hi * pn + (2 * z) * pn) by (nonlinear_arith);
    lemma_fundamental_div_mod_converse(value as int, pn as int, quot as int, rest as int);
}

/// Bit `n` of an integer is bit `n` of the binary expansion of the number it
/// stands for.
pub proof fn law_bit_of_value(a: Int, n: nat)
    requires
        n < MAX_BITS,
    ensures
        a.bit(n) <==> (a@ / pow2(n)) % 2 == 1,
{
    let s = a.limbs@;
    let k: nat = n / 32;
    let m: nat = n % 32;
    let limb: u32 = s[k as int];
    let shift: u32 = m as u32;
    let pm: nat = pow2(m);
    let pr: nat = pow2((31 - m) as nat);
    let hi: nat = (limb >> shift) as nat;
    let lo: nat = (limb as nat) % pm;

    lemma_prefix_split(s, k + 1, LIMBS as nat);
    lemma_prefix_bound(s, k);
    assert(prefix_value(s, k + 1) == prefix_value(s, k) + (limb as nat) * pow32(k));
    assert(pow32(k + 1) == 0x1_0000_0000 * pow32(k));

    lemma_pow2_pos(m);
    lemma_u32_shr_is_div(limb, shift);
    lemma_fundamental_div_mod(limb as int, pm as int);
    lemma_mod_bound(limb as int, pm as int);

    lemma2_to64();
    lemma_pow2_adds(1, (31 - m) as nat);
    lemma_pow2_adds(m, (32 - m) as nat);
    assert(1 + (31 - m) as nat == (32 - m) as nat);
    assert(m + (32 - m) as nat == 32);

    lemma_bit_weight(n);
    lemma_pow2_pos(n);
    lemma_bit_position(
        a@,
        prefix_value(s, k),
        limb as nat,
        lo,
        hi,
        upper_value(s, k + 1, LIMBS as nat),
        pow32(k),
        pm,
        pr,
        pow2(n),
    );
    let shifted: u32 = limb >> shift;
    assert((shifted & 1 == 1) <==> shifted % 2 == 1) by (bit_vector);
}

} // verus!
