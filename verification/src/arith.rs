//! Addition, subtraction and multiplication, all modulo `2^MAX_BITS`.

use vstd::prelude::*;
use vstd::arithmetic::div_mod::lemma_fundamental_div_mod_converse;
use crate::bignum::{lemma_of_value, modulus, Int, LIMBS};
use crate::limbs::{
    lemma_pow32_add, lemma_pow32_positive, lemma_prefix_agree, lemma_prefix_bound,
    lemma_prefix_split, lemma_prefix_zero, lemma_prefix_update, pow32, prefix_value, upper_value,
};

verus! {

/// One step of a carry chain: writing the low word of `t` at weight `p` and
/// carrying the high word to weight `2^32 p` keeps the running total.
proof fn lemma_carry_step(t: nat, low: nat, high: nat, p: nat)
    requires
        t == 0x1_0000_0000 * high + low,
    ensures
        low * p + high * (0x1_0000_0000 * p) == t * p,
{
    assert(low * p + high * (0x1_0000_0000 * p) == (0x1_0000_0000 * high + low) * p)
        by (nonlinear_arith);
}

/// One step of a borrow chain at weight `p`.
proof fn lemma_borrow_step(a: nat, b: nat, low: nat, borrow_in: nat, borrow_out: nat, p: nat)
    requires
        low + b + borrow_in == a + 0x1_0000_0000 * borrow_out,
    ensures
        low * p + b * p + borrow_in * p == a * p + borrow_out * (0x1_0000_0000 * p),
{
    assert((low + b + borrow_in) * p == low * p + b * p + borrow_in * p) by (nonlinear_arith);
    assert((a + 0x1_0000_0000 * borrow_out) * p == a * p + borrow_out * (0x1_0000_0000 * p))
        by (nonlinear_arith);
}

/// One step of a multiplication row.  `total` and `total_next` are the
/// values of the accumulator before and after limb `k = i + j` is replaced
/// by `low`; `p`, `pi`, `pj` are the weights of limbs `k`, `i`, `j`; `ai` is
/// the value of the limbs of the left operand below `i`.
proof fn lemma_row_step(
    total: nat,
    total_next: nat,
    limb: nat,
    low: nat,
    high: nat,
    t: nat,
    a: nat,
    b: nat,
    carry: nat,
    p: nat,
    pi: nat,
    pj: nat,
    ai: nat,
    row0: nat,
)
    requires
        total_next + limb * p == total + low * p,
        t == 0x1_0000_0000 * high + low,
        t == a * b + limb + carry,
        p == pi * pj,
        total + carry * p == row0 + ai * b * pj,
    ensures
        total_next + high * (0x1_0000_0000 * p) == row0 + (ai + a * pi) * b * pj,
{
    let ab: nat = a * b;
    lemma_carry_step(t, low, high, p);
    assert((ab + limb + carry) * p == ab * p + limb * p + carry * p) by (nonlinear_arith);
    assert((ai + a * pi) * b * pj == ai * b * pj + ab * p) by (nonlinear_arith)
        requires
            p == pi * pj,
            ab == a * b,
    ;
}

/// The end of a multiplication row: what the row added, together with the
/// limbs of the left operand that it left out, is the left operand times
/// limb `j` of the right one, up to a multiple of the modulus `m`.
proof fn lemma_row_end(
    total: nat,
    carry: nat,
    row0: nat,
    a_low: nat,
    hi: nat,
    b: nat,
    pk: nat,
    pj: nat,
    m: nat,
    q: nat,
    s: nat,
    bj: nat,
)
    requires
        total + carry * m == row0 + a_low * b * pj,
        row0 + q * m == s * bj,
        s == a_low + pk * hi,
        m == pk * pj,
    ensures
        total + (q + carry + hi * b) * m == s * (bj + b * pj),
{
    let hb: nat = hi * b;
    assert((q + carry + hb) * m == q * m + carry * m + hb * m) by (nonlinear_arith);
    assert(s * (bj + b * pj) == s * bj + s * (b * pj)) by (nonlinear_arith);
    assert(s * (b * pj) == a_low * b * pj + hb * m) by (nonlinear_arith)
        requires
            s == a_low + pk * hi,
            m == pk * pj,
            hb == hi * b,
    ;
}

impl core::ops::Add for Int {
    type Output = Int;

    /// Ripple-carry addition over all limbs; the carry out of the top limb
    /// is dropped.
    fn add(self, other: Int) -> (r: Int)
        ensures
            r@ == (self@ + other@) % modulus(),
    {
        let mut out = [0u32; LIMBS];
        let mut carry: u64 = 0;
        let mut i: usize = 0;
        while i < LIMBS
            invariant
                i <= LIMBS,
                carry <= 1,
                prefix_value(out@, i as nat) + carry * pow32(i as nat) == prefix_value(
                    self.limbs@,
                    i as nat,
                ) + prefix_value(other.limbs@, i as nat),
            decreases LIMBS - i,
        {
            let a: u32 = self.limbs[i];
            let b: u32 = other.limbs[i];
            let tmp: u64 = a as u64 + b as u64 + carry;
            let masked: u64 = tmp & 0xffff_ffff;
            let high: u64 = tmp >> 32;
            proof {
                assert(tmp & 0xffff_ffff == tmp % 0x1_0000_0000) by (bit_vector);
                assert(tmp >> 32 == tmp / 0x1_0000_0000) by (bit_vector);
            }
            let low: u32 = masked as u32;
            let ghost prev = out@;
            out[i] = low;
            proof {
                let p: nat = pow32(i as nat);
                lemma_prefix_agree(prev, out@, i as nat);
                lemma_carry_step(tmp as nat, low as nat, high as nat, p);
                assert((a + b + carry) * p == a * p + b * p + carry * p) by (nonlinear_arith);
                assert(pow32((i + 1) as nat) == 0x1_0000_0000 * p);
            }
            carry = high;
            i += 1;
        }
        let r = Int { limbs: out };
        proof {
            let m: int = modulus() as int;
            lemma_pow32_positive(LIMBS as nat);
            lemma_prefix_bound(out@, LIMBS as nat);
            lemma_fundamental_div_mod_converse(
                (self@ + other@) as int,
                m,
                carry as int,
                r@ as int,
            );
            lemma_of_value(r);
        }
        r
    }
}

impl vstd::std_specs::ops::AddSpecImpl for Int {
    open spec fn obeys_add_spec() -> bool {
        true
    }

    open spec fn add_req(self, other: Int) -> bool {
        true
    }

    open spec fn add_spec(self, other: Int) -> Int {
        Int::of_value((self@ + other@) % modulus())
    }
}

impl core::ops::Sub for Int {
    type Output = Int;

    /// Subtraction with borrow propagation over all limbs; a borrow out of
    /// the top limb is dropped, so a larger right operand wraps around.
    fn sub(self, other: Int) -> (r: Int)
        ensures
            r@ == (self@ - other@) % (modulus() as int),
    {
        let mut out = [0u32; LIMBS];
        let mut borrow: u64 = 0;
        let mut i: usize = 0;
        while i < LIMBS
            invariant
                i <= LIMBS,
                borrow <= 1,
                prefix_value(out@, i as nat) + prefix_value(other.limbs@, i as nat)
                    == prefix_value(self.limbs@, i as nat) + borrow * pow32(i as nat),
            decreases LIMBS - i,
        {
            let a: u32 = self.limbs[i];
            let b: u32 = other.limbs[i];
            let diff: u64 = 0x1_0000_0000u64 + a as u64 - b as u64 - borrow;
            let masked: u64 = diff & 0xffff_ffff;
            let next: u64 = ((diff & 0x1_0000_0000u64) >> 32) ^ 1;
            proof {
                assert(diff & 0xffff_ffff == diff % 0x1_0000_0000) by (bit_vector);
                assert(diff < 0x1_0000_0000 ==> ((diff & 0x1_0000_0000u64) >> 32) ^ 1 == 1)
                    by (bit_vector);
                assert(0x1_0000_0000 <= diff < 0x2_0000_0000 ==> ((diff & 0x1_0000_0000u64) >> 32)
                    ^ 1 == 0) by (bit_vector);
            }
            let low: u32 = masked as u32;
            let ghost prev = out@;
            out[i] = low;
            proof {
                let p: nat = pow32(i as nat);
                lemma_prefix_agree(prev, out@, i as nat);
                lemma_borrow_step(a as nat, b as nat, low as nat, borrow as nat, next as nat, p);
                assert(pow32((i + 1) as nat) == 0x1_0000_0000 * p);
            }
            borrow = next;
            i += 1;
        }
        let r = Int { limbs: out };
        proof {
            let m: int = modulus() as int;
            lemma_pow32_positive(LIMBS as nat);
            lemma_prefix_bound(out@, LIMBS as nat);
            assert((-(borrow as int)) * m == -(borrow * m)) by (nonlinear_arith);
            lemma_fundamental_div_mod_converse(
                self@ - other@,
                m,
                -(borrow as int),
                r@ as int,
            );
            lemma_of_value(r);
        }
        r
    }
}

impl vstd::std_specs::ops::SubSpecImpl for Int {
    open spec fn obeys_sub_spec() -> bool {
        true
    }

    open spec fn sub_req(self, other: Int) -> bool {
        true
    }

    open spec fn sub_spec(self, other: Int) -> Int {
        Int::of_value(((self@ - other@) % (modulus() as int)) as nat)
    }
}

impl core::ops::Mul for Int {
    type Output = Int;

    /// Schoolbook multiplication over all limbs with 64-bit intermediates;
    /// partial products that would land beyond the top limb are dropped.
    fn mul(self, other: Int) -> (r: Int)
        ensures
            r@ == (self@ * other@) % modulus(),
    {
        let mut out = [0u32; LIMBS];
        let ghost mut q: nat = 0;
        let mut j: usize = 0;
        proof {
            lemma_prefix_zero(out@, LIMBS as nat);
            assert(self@ * 0 == 0) by (nonlinear_arith);
            assert(0 * modulus() == 0) by (nonlinear_arith);
        }
        while j < LIMBS
            invariant
                j <= LIMBS,
                prefix_value(out@, LIMBS as nat) + q * modulus() == self@ * prefix_value(
                    other.limbs@,
                    j as nat,
                ),
            decreases LIMBS - j,
        {
            let b: u64 = other.limbs[j] as u64;
            let ghost row0: nat = prefix_value(out@, LIMBS as nat);
            let mut carry: u64 = 0;
            let mut i: usize = 0;
            proof {
                let pj: nat = pow32(j as nat);
                assert(0 * b * pj == 0) by (nonlinear_arith);
                assert(0 * pj == 0) by (nonlinear_arith);
            }
            while i < LIMBS - j
                invariant
                    j < LIMBS,
                    i <= LIMBS - j,
                    b <= 0xffff_ffff,
                    carry <= 0xffff_ffff,
                    prefix_value(out@, LIMBS as nat) + carry * pow32((i + j) as nat) == row0
                        + prefix_value(self.limbs@, i as nat) * b * pow32(j as nat),
                decreases LIMBS - j - i,
            {
                let k: usize = i + j;
                let a: u64 = self.limbs[i] as u64;
                let limb: u64 = out[k] as u64;
                assert(a * b <= 0xffff_ffff * 0xffff_ffff) by (nonlinear_arith)
                    requires
                        a <= 0xffff_ffff,
                        b <= 0xffff_ffff,
                ;
                let t: u64 = a * b + limb + carry;
                let masked: u64 = t & 0xffff_ffff;
                let high: u64 = t >> 32;
                proof {
                    assert(t & 0xffff_ffff == t % 0x1_0000_0000) by (bit_vector);
                    assert(t >> 32 == t / 0x1_0000_0000) by (bit_vector);
                }
                let low: u32 = masked as u32;
                let ghost prev = out@;
                out[k] = low;
                proof {
                    let p: nat = pow32(k as nat);
                    lemma_prefix_update(prev, k as nat, low, LIMBS as nat);
                    lemma_pow32_add(i as nat, j as nat);
                    lemma_row_step(
                        prefix_value(prev, LIMBS as nat),
                        prefix_value(out@, LIMBS as nat),
                        limb as nat,
                        low as nat,
                        high as nat,
                        t as nat,
                        a as nat,
                        b as nat,
                        carry as nat,
                        p,
                        pow32(i as nat),
                        pow32(j as nat),
                        prefix_value(self.limbs@, i as nat),
                        row0,
                    );
                    assert(pow32((i + 1 + j) as nat) == 0x1_0000_0000 * p);
                }
                carry = high;
                i += 1;
            }
            proof {
                let n: nat = LIMBS as nat;
                let w: nat = (LIMBS - j) as nat;
                lemma_prefix_split(self.limbs@, w, n);
                lemma_pow32_add(w, j as nat);
                let hi: nat = upper_value(self.limbs@, w, n);
                lemma_row_end(
                    prefix_value(out@, n),
                    carry as nat,
                    row0,
                    prefix_value(self.limbs@, w),
                    hi,
                    b as nat,
                    pow32(w),
                    pow32(j as nat),
                    modulus(),
                    q,
                    self@,
                    prefix_value(other.limbs@, j as nat),
                );
                q = q + carry as nat + hi * (b as nat);
            }
            j += 1;
        }
        let r = Int { limbs: out };
        proof {
            let m: int = modulus() as int;
            lemma_pow32_positive(LIMBS as nat);
            lemma_prefix_bound(out@, LIMBS as nat);
            lemma_fundamental_div_mod_converse((self@ * other@) as int, m, q as int, r@ as int);
            lemma_of_value(r);
        }
        r
    }
}

impl vstd::std_specs::ops::MulSpecImpl for Int {
    open spec fn obeys_mul_spec() -> bool {
        true
    }

    open spec fn mul_req(self, other: Int) -> bool {
        true
    }

    open spec fn mul_spec(self, other: Int) -> Int {
        Int::of_value((self@ * other@) % modulus())
    }
}

} // verus!
