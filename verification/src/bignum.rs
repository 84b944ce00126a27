//! The integer type, its constructors and bit access.

use vstd::prelude::*;
use vstd::arithmetic::div_mod::{lemma_div_pos_is_pos, lemma_fundamental_div_mod, lemma_mod_bound};
use vstd::arithmetic::power2::pow2;
use vstd::array::{spec_array_fill_for_copy_type, spec_array_update};
use vstd::bits::{lemma_u32_pow2_no_overflow, lemma_u32_shl_is_mul};
use crate::limbs::{
    lemma_bit_weight, lemma_pow32_positive, lemma_prefix_agree,
    lemma_prefix_bound, lemma_prefix_compare, lemma_prefix_injective, lemma_prefix_ones,
    lemma_prefix_trailing_zeros, lemma_prefix_update, lemma_prefix_zero,
    lemma_prefix_zero_converse, pow32, prefix_value,
};

verus! {

/// Width of one limb in bits.
pub const BITS: usize = 32;

/// Capacity of an [`Int`] in bits.
pub const MAX_BITS: usize = 8192;

/// Number of limbs of an [`Int`].
pub const LIMBS: usize = MAX_BITS / BITS;

/// Big number with a constant buffer of `LIMBS` little-endian 32-bit limbs.
#[derive(Clone, Copy, Debug)]
pub struct Int {
    /// The limbs, least significant first.
    pub limbs: [u32; LIMBS],
}

/// The number of values an [`Int`] can take: `2^MAX_BITS`.
pub open spec fn modulus() -> nat {
    pow32(LIMBS as nat)
}

impl View for Int {
    type V = nat;

    /// The natural number that the limbs stand for.
    open spec fn view(&self) -> nat {
        prefix_value(self.limbs@, LIMBS as nat)
    }
}

impl Int {
    /// The integer that stands for `n`; it is unique, and exists for every
    /// `n` below [`modulus`].
    pub open spec fn of_value(n: nat) -> Int {
        choose|r: Int| r@ == n
    }

    /// Whether bit `n` is set, bit 0 being the least significant.
    pub open spec fn bit(self, n: nat) -> bool {
        limb_bit(self.limbs@[(n / 32) as int], (n % 32) as u32)
    }

    /// Create new `Int` from raw data: `limbs`, least significant first,
    /// fill the low positions and the rest is zero.
    pub fn from_raw_limbs(limbs: &[u32]) -> (r: Int)
        requires
            limbs@.len() <= LIMBS,
        ensures
            r@ == prefix_value(limbs@, limbs@.len()),
            forall|i: int| 0 <= i < limbs@.len() ==> r.limbs@[i] == limbs@[i],
            forall|i: int| limbs@.len() <= i < LIMBS ==> r.limbs@[i] == 0,
    {
        let mut out = [0u32; LIMBS];
        let n: usize = limbs.len();
        let mut i: usize = 0;
        while i < n
            invariant
                i <= n <= LIMBS,
                n == limbs@.len(),
                forall|j: int| 0 <= j < i ==> out@[j] == limbs@[j],
                forall|j: int| i <= j < LIMBS ==> out@[j] == 0,
            decreases n - i,
        {
            out[i] = limbs[i];
            i += 1;
        }
        proof {
            lemma_prefix_trailing_zeros(out@, n as nat, LIMBS as nat);
            lemma_prefix_agree(out@, limbs@, n as nat);
        }
        Int { limbs: out }
    }

    /// Set given bit.
    pub fn set_bit(&mut self, bit: usize)
        requires
            bit < MAX_BITS,
        ensures
            final(self).limbs@ == old(self).limbs@.update(
                bit as int / 32,
                old(self).limbs@[bit as int / 32] | (1u32 << ((bit % 32) as u32)),
            ),
            forall|n: nat|
                n < MAX_BITS ==> (#[trigger] final(self).bit(n) <==> n == bit || old(self).bit(n)),
            final(self)@ == old(self)@ + if old(self).bit(bit as nat) {
                0
            } else {
                pow2(bit as nat)
            },
    {
        let div: usize = bit / 32;
        let mo: u32 = (bit % 32) as u32;
        let ghost before = self.limbs@;
        let mut limbs = self.limbs;
        let limb: u32 = limbs[div];
        limbs[div] = limb | (1u32 << mo);
        self.limbs = limbs;
        proof {
            assert(self.limbs@ =~= before.update(div as int, limb | (1u32 << mo)));
            assert forall|n: nat| n < MAX_BITS implies (#[trigger] self.bit(n) <==> n == bit
                || limb_bit(before[(n / 32) as int], (n % 32) as u32)) by {
                let k: u32 = (n % 32) as u32;
                if n / 32 == div {
                    lemma_limb_bit_set(limb, mo, k);
                }
            }
            lemma_limb_set_value(limb, mo);
            lemma_prefix_update(before, div as nat, limb | (1u32 << mo), LIMBS as nat);
            lemma_bit_weight(bit as nat);
            lemma_weight_step(
                limb as nat,
                (limb | (1u32 << mo)) as nat,
                pow2(mo as nat),
                pow32(div as nat),
            );
        }
    }

    /// Clear given bit.
    pub fn unset_bit(&mut self, bit: usize)
        requires
            bit < MAX_BITS,
        ensures
            final(self).limbs@ == old(self).limbs@.update(
                bit as int / 32,
                old(self).limbs@[bit as int / 32] & !(1u32 << ((bit % 32) as u32)),
            ),
            forall|n: nat|
                n < MAX_BITS ==> (#[trigger] final(self).bit(n) <==> n != bit && old(self).bit(n)),
            final(self)@ == old(self)@ - if old(self).bit(bit as nat) {
                pow2(bit as nat)
            } else {
                0
            },
    {
        let div: usize = bit / 32;
        let mo: u32 = (bit % 32) as u32;
        let ghost before = self.limbs@;
        let mut limbs = self.limbs;
        let limb: u32 = limbs[div];
        limbs[div] = limb & !(1u32 << mo);
        self.limbs = limbs;
        proof {
            assert(self.limbs@ =~= before.update(div as int, limb & !(1u32 << mo)));
            assert forall|n: nat| n < MAX_BITS implies (#[trigger] self.bit(n) <==> n != bit
                && limb_bit(before[(n / 32) as int], (n % 32) as u32)) by {
                let k: u32 = (n % 32) as u32;
                if n / 32 == div {
                    lemma_limb_bit_unset(limb, mo, k);
                }
            }
            lemma_limb_unset_value(limb, mo);
            lemma_prefix_update(before, div as nat, limb & !(1u32 << mo), LIMBS as nat);
            lemma_bit_weight(bit as nat);
            lemma_weight_step(
                (limb & !(1u32 << mo)) as nat,
                limb as nat,
                pow2(mo as nat),
                pow32(div as nat),
            );
        }
    }

    /// The largest value: every limb is all ones.
    pub fn max() -> (r: Int)
        ensures
            r@ + 1 == modulus(),
            forall|i: int| 0 <= i < LIMBS ==> r.limbs@[i] == 0xffff_ffff,
    {
        let r = Int { limbs: [0xffff_ffffu32; LIMBS] };
        proof {
            lemma_prefix_ones(r.limbs@, LIMBS as nat);
        }
        r
    }

    /// Whether the value is zero.  All limbs are folded together with `|`,
    /// so the work does not depend on where the first non-zero limb lies.
    pub fn is_zero(&self) -> (r: bool)
        ensures
            r <==> self@ == 0,
            r <==> forall|i: int| 0 <= i < LIMBS ==> self.limbs@[i] == 0,
    {
        let mut res: u32 = 0;
        let mut i: usize = 0;
        while i < LIMBS
            invariant
                i <= LIMBS,
                res == 0 <==> forall|j: int| 0 <= j < i ==> self.limbs@[j] == 0,
            decreases LIMBS - i,
        {
            let limb: u32 = self.limbs[i];
            assert((res | limb) == 0 <==> res == 0 && limb == 0) by (bit_vector);
            res = res | limb;
            i += 1;
        }
        proof {
            if res == 0 {
                lemma_prefix_zero(self.limbs@, LIMBS as nat);
            }
            if self@ == 0 {
                lemma_prefix_zero_converse(self.limbs@, LIMBS as nat);
            }
        }
        res == 0
    }
}

impl Default for Int {
    /// Zero.
    fn default() -> (r: Int)
        ensures
            r@ == 0,
            forall|i: int| 0 <= i < LIMBS ==> r.limbs@[i] == 0,
    {
        let r = Int { limbs: [0u32; LIMBS] };
        proof {
            lemma_prefix_zero(r.limbs@, LIMBS as nat);
        }
        r
    }
}

/// Integers whose limbs all agree stand for the same number.
pub proof fn lemma_same_limbs(a: Int, b: Int)
    requires
        forall|j: int| 0 <= j < LIMBS ==> a.limbs@[j] == b.limbs@[j],
    ensures
        a@ == b@,
{
    lemma_prefix_agree(a.limbs@, b.limbs@, LIMBS as nat);
}

/// Integers that stand for the same number agree in every limb.
pub proof fn lemma_same_value(a: Int, b: Int)
    requires
        a@ == b@,
    ensures
        forall|j: int| 0 <= j < LIMBS ==> a.limbs@[j] == b.limbs@[j],
{
    lemma_prefix_injective(a.limbs@, b.limbs@, LIMBS as nat);
}

/// The most significant limb in which two integers differ decides which of
/// them is smaller.
pub proof fn lemma_limb_decides(a: Int, b: Int, i: usize)
    requires
        i < LIMBS,
        forall|j: int| i < j < LIMBS ==> a.limbs@[j] == b.limbs@[j],
        a.limbs@[i as int] < b.limbs@[i as int],
    ensures
        a@ < b@,
{
    lemma_prefix_compare(a.limbs@, b.limbs@, i as nat, LIMBS as nat);
}

/// Whether bit `k` of a limb is set.
pub open spec fn limb_bit(limb: u32, k: u32) -> bool {
    (limb >> k) & 1 == 1
}

/// Or-ing in `1 << mo` sets bit `mo` and leaves the other bits.
pub proof fn lemma_limb_bit_set(limb: u32, mo: u32, k: u32)
    requires
        mo < 32,
        k < 32,
    ensures
        limb_bit(limb | (1u32 << mo), k) <==> k == mo || limb_bit(limb, k),
{
    assert((((limb | (1u32 << mo)) >> k) & 1 == 1) <==> (k == mo || (limb >> k) & 1 == 1))
        by (bit_vector)
        requires
            mo < 32,
            k < 32,
    ;
}

/// Or-ing in `1 << mo` adds `2^mo` where bit `mo` was clear, and nothing
/// where it was set.
pub proof fn lemma_limb_set_value(limb: u32, mo: u32)
    requires
        mo < 32,
    ensures
        (limb | (1u32 << mo)) == limb + if limb_bit(limb, mo) {
            0
        } else {
            pow2(mo as nat)
        },
{
    lemma_u32_pow2_no_overflow(mo as nat);
    lemma_u32_shl_is_mul(1u32, mo);
    assert((limb >> mo) & 1 == 1 ==> (limb | (1u32 << mo)) == limb) by (bit_vector)
        requires
            mo < 32,
    ;
    assert((limb >> mo) & 1 != 1 ==> (limb | (1u32 << mo)) == limb + (1u32 << mo))
        by (bit_vector)
        requires
            mo < 32,
    ;
}

/// And-ing with the complement of `1 << mo` takes `2^mo` away where bit
/// `mo` was set, and nothing where it was clear.
pub proof fn lemma_limb_unset_value(limb: u32, mo: u32)
    requires
        mo < 32,
    ensures
        (limb & !(1u32 << mo)) == limb - if limb_bit(limb, mo) {
            pow2(mo as nat)
        } else {
            0
        },
{
    lemma_u32_pow2_no_overflow(mo as nat);
    lemma_u32_shl_is_mul(1u32, mo);
    assert((limb >> mo) & 1 != 1 ==> (limb & !(1u32 << mo)) == limb) by (bit_vector)
        requires
            mo < 32,
    ;
    assert((limb >> mo) & 1 == 1 ==> (limb & !(1u32 << mo)) == limb - (1u32 << mo))
        by (bit_vector)
        requires
            mo < 32,
    ;
}

/// A limb that grows by `w` or stays, at weight `p`, moves the value by
/// `w * p` or leaves it.
proof fn lemma_weight_step(low: nat, high: nat, w: nat, p: nat)
    requires
        high == low || high == low + w,
    ensures
        high == low ==> high * p == low * p,
        high == low + w ==> high * p == low * p + w * p,
{
    assert((low + w) * p == low * p + w * p) by (nonlinear_arith);
}

/// And-ing with the complement of `1 << mo` clears bit `mo` and leaves the
/// other bits.
pub proof fn lemma_limb_bit_unset(limb: u32, mo: u32, k: u32)
    requires
        mo < 32,
        k < 32,
    ensures
        limb_bit(limb & !(1u32 << mo), k) <==> k != mo && limb_bit(limb, k),
{
    assert((((limb & !(1u32 << mo)) >> k) & 1 == 1) <==> (k != mo && (limb >> k) & 1 == 1))
        by (bit_vector)
        requires
            mo < 32,
            k < 32,
    ;
}

/// Every integer stands for a number below the modulus.
pub proof fn lemma_view_bound(a: Int)
    ensures
        a@ < modulus(),
{
    lemma_prefix_bound(a.limbs@, LIMBS as nat);
}

/// Two integers that stand for the same number are the same integer.
pub proof fn lemma_view_injective(a: Int, b: Int)
    requires
        a@ == b@,
    ensures
        a == b,
{
    lemma_prefix_injective(a.limbs@, b.limbs@, LIMBS as nat);
    assert(a.limbs =~= b.limbs);
}

/// Every number below `2^(32 k)` is the value of some limb array that is zero
/// from limb `k` on.
proof fn lemma_limbs_exist(n: nat, k: nat) -> (limbs: [u32; LIMBS])
    requires
        k <= LIMBS,
        n < pow32(k),
    ensures
        prefix_value(limbs@, k) == n,
        forall|i: int| k <= i < LIMBS ==> limbs@[i] == 0,
    decreases k,
{
    if k == 0 {
        spec_array_fill_for_copy_type::<u32, LIMBS>(0u32)
    } else {
        let p: nat = pow32((k - 1) as nat);
        lemma_pow32_positive((k - 1) as nat);
        let d: int = n as int / p as int;
        let rest: int = n as int % p as int;
        lemma_fundamental_div_mod(n as int, p as int);
        lemma_mod_bound(n as int, p as int);
        lemma_div_pos_is_pos(n as int, p as int);
        assert(d < 0x1_0000_0000) by (nonlinear_arith)
            requires
                n == p * d + rest,
                0 <= rest,
                n < 0x1_0000_0000 * p,
                p > 0,
        ;
        let low = lemma_limbs_exist(rest as nat, (k - 1) as nat);
        let limbs = spec_array_update(low, k - 1, d as u32);
        lemma_prefix_agree(low@, limbs@, (k - 1) as nat);
        assert((d as u32 as nat) * p == p * d) by (nonlinear_arith)
            requires
                0 <= d < 0x1_0000_0000,
        ;
        limbs
    }
}

/// Every number below the modulus is the value of an integer, and
/// `of_value` picks it.
pub proof fn lemma_of_value_view(n: nat)
    requires
        n < modulus(),
    ensures
        Int::of_value(n)@ == n,
{
    let limbs = lemma_limbs_exist(n, LIMBS as nat);
    let r = Int { limbs };
    assert(r@ == n);
}

/// `of_value` gives back the integer whose value it is handed.
pub proof fn lemma_of_value(a: Int)
    ensures
        Int::of_value(a@) == a,
{
    lemma_view_injective(Int::of_value(a@), a);
}

} // verus!
