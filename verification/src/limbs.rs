//! The mathematical model of a little-endian sequence of 32-bit limbs, and
//! the arithmetic facts the operators rest on.

use vstd::prelude::*;
use vstd::arithmetic::power2::{lemma2_to64, lemma2_to64_rest, lemma_pow2_adds, pow2};

verus! {

/// The weight of limb `n`: `2^(32 n)`.
pub open spec fn pow32(n: nat) -> nat
    decreases n,
{
    if n == 0 {
        1
    } else {
        0x1_0000_0000 * pow32((n - 1) as nat)
    }
}

/// The number that the first `n` limbs of `s` stand for, `s[0]` being the
/// least significant: the sum of `s[i] * 2^(32 i)` over `i < n`.
pub open spec fn prefix_value(s: Seq<u32>, n: nat) -> nat
    decreases n,
{
    if n == 0 {
        0
    } else {
        prefix_value(s, (n - 1) as nat) + (s[n - 1] as nat) * pow32((n - 1) as nat)
    }
}

/// The number that limbs `k..n` of `s` stand for, limb `k` having weight 1.
pub open spec fn upper_value(s: Seq<u32>, k: nat, n: nat) -> nat
    decreases n,
{
    if n <= k {
        0
    } else {
        upper_value(s, k, (n - 1) as nat) + (s[n - 1] as nat) * pow32((n - 1 - k) as nat)
    }
}

pub proof fn lemma_pow32_positive(n: nat)
    ensures
        pow32(n) > 0,
    decreases n,
{
    if n > 0 {
        lemma_pow32_positive((n - 1) as nat);
        let p: nat = pow32((n - 1) as nat);
        assert(0x1_0000_0000 * p > 0) by (nonlinear_arith)
            requires
                p > 0,
        ;
    }
}

pub proof fn lemma_pow32_add(i: nat, j: nat)
    ensures
        pow32(i + j) == pow32(i) * pow32(j),
    decreases j,
{
    let p: nat = pow32(i);
    if j == 0 {
        assert(p * 1 == p) by (nonlinear_arith);
    } else {
        lemma_pow32_add(i, (j - 1) as nat);
        let q: nat = pow32((j - 1) as nat);
        assert((i + j - 1) as nat == i + (j - 1) as nat);
        assert(pow32(i + j) == 0x1_0000_0000 * pow32((i + j - 1) as nat));
        assert(0x1_0000_0000 * (p * q) == p * (0x1_0000_0000 * q)) by (nonlinear_arith);
    }
}

/// The weight of limb `n` is the power of two with exponent `32 n`.
pub proof fn lemma_pow32_is_pow2(n: nat)
    ensures
        pow32(n) == pow2(32 * n),
    decreases n,
{
    lemma2_to64();
    lemma2_to64_rest();
    if n > 0 {
        lemma_pow32_is_pow2((n - 1) as nat);
        lemma_pow2_adds(32, 32 * ((n - 1) as nat));
        assert(32 + 32 * ((n - 1) as nat) == 32 * n);
    }
}

/// Bit `bit % 32` of limb `bit / 32` has the weight of bit `bit`.
pub proof fn lemma_bit_weight(bit: nat)
    ensures
        pow2(bit % 32) * pow32(bit / 32) == pow2(bit),
{
    lemma_pow32_is_pow2(bit / 32);
    lemma_pow2_adds(bit % 32, 32 * (bit / 32));
    assert(bit % 32 + 32 * (bit / 32) == bit);
}

/// `n` limbs stand for a number below `2^(32 n)`.
pub proof fn lemma_prefix_bound(s: Seq<u32>, n: nat)
    ensures
        prefix_value(s, n) < pow32(n),
    decreases n,
{
    if n > 0 {
        lemma_prefix_bound(s, (n - 1) as nat);
        let x: nat = prefix_value(s, (n - 1) as nat);
        let p: nat = pow32((n - 1) as nat);
        let d: nat = s[n - 1] as nat;
        assert(x + d * p < 0x1_0000_0000 * p) by (nonlinear_arith)
            requires
                x < p,
                d <= 0xffff_ffff,
        ;
    }
}

/// Sequences that agree on their first `n` limbs have the same prefix value.
pub proof fn lemma_prefix_agree(s: Seq<u32>, t: Seq<u32>, n: nat)
    requires
        forall|i: int| 0 <= i < n ==> s[i] == t[i],
    ensures
        prefix_value(s, n) == prefix_value(t, n),
    decreases n,
{
    if n > 0 {
        lemma_prefix_agree(s, t, (n - 1) as nat);
    }
}

/// Replacing limb `k` by `v` moves the value by `(v - s[k]) * 2^(32 k)`.
pub proof fn lemma_prefix_update(s: Seq<u32>, k: nat, v: u32, n: nat)
    requires
        k < n <= s.len(),
    ensures
        prefix_value(s.update(k as int, v), n) + (s[k as int] as nat) * pow32(k) == prefix_value(
            s,
            n,
        ) + (v as nat) * pow32(k),
    decreases n,
{
    let t = s.update(k as int, v);
    if n - 1 == k {
        lemma_prefix_agree(s, t, k);
    } else {
        lemma_prefix_update(s, k, v, (n - 1) as nat);
        assert(t[n - 1] == s[n - 1]);
    }
}

/// All-zero limbs stand for zero.
pub proof fn lemma_prefix_zero(s: Seq<u32>, n: nat)
    requires
        forall|i: int| 0 <= i < n ==> s[i] == 0,
    ensures
        prefix_value(s, n) == 0,
    decreases n,
{
    if n > 0 {
        lemma_prefix_zero(s, (n - 1) as nat);
        let p: nat = pow32((n - 1) as nat);
        assert(0 * p == 0) by (nonlinear_arith);
    }
}

/// Zero limbs above index `k` add nothing to the value.
pub proof fn lemma_prefix_trailing_zeros(s: Seq<u32>, k: nat, n: nat)
    requires
        k <= n,
        forall|i: int| k <= i < n ==> s[i] == 0,
    ensures
        prefix_value(s, n) == prefix_value(s, k),
    decreases n,
{
    if n > k {
        lemma_prefix_trailing_zeros(s, k, (n - 1) as nat);
        let p: nat = pow32((n - 1) as nat);
        assert(0 * p == 0) by (nonlinear_arith);
    }
}

/// A prefix value of zero means that every limb is zero.
pub proof fn lemma_prefix_zero_converse(s: Seq<u32>, n: nat)
    requires
        prefix_value(s, n) == 0,
    ensures
        forall|i: int| 0 <= i < n ==> s[i] == 0,
    decreases n,
{
    if n > 0 {
        let p: nat = pow32((n - 1) as nat);
        let d: nat = s[n - 1] as nat;
        lemma_pow32_positive((n - 1) as nat);
        assert(d == 0) by (nonlinear_arith)
            requires
                d * p == 0,
                p > 0,
        ;
        lemma_prefix_zero_converse(s, (n - 1) as nat);
    }
}

/// All-ones limbs stand for `2^(32 n) - 1`.
pub proof fn lemma_prefix_ones(s: Seq<u32>, n: nat)
    requires
        forall|i: int| 0 <= i < n ==> s[i] == 0xffff_ffff,
    ensures
        prefix_value(s, n) + 1 == pow32(n),
    decreases n,
{
    if n > 0 {
        lemma_prefix_ones(s, (n - 1) as nat);
        let p: nat = pow32((n - 1) as nat);
        assert(p + 0xffff_ffff * p == 0x1_0000_0000 * p) by (nonlinear_arith);
    }
}

/// With a smaller top limb the whole prefix is smaller, whatever lies below.
pub proof fn lemma_top_limb_decides(s: Seq<u32>, t: Seq<u32>, n: nat)
    requires
        n > 0,
        s[n - 1] < t[n - 1],
    ensures
        prefix_value(s, n) < prefix_value(t, n),
{
    lemma_prefix_bound(s, (n - 1) as nat);
    let x: nat = prefix_value(s, (n - 1) as nat);
    let y: nat = prefix_value(t, (n - 1) as nat);
    let p: nat = pow32((n - 1) as nat);
    let a: nat = s[n - 1] as nat;
    let b: nat = t[n - 1] as nat;
    assert(x + a * p < y + b * p) by (nonlinear_arith)
        requires
            x < p,
            a < b,
    ;
}

/// The most significant limb in which two sequences differ decides which
/// prefix value is smaller.
pub proof fn lemma_prefix_compare(s: Seq<u32>, t: Seq<u32>, i: nat, n: nat)
    requires
        i < n,
        forall|j: int| i < j < n ==> s[j] == t[j],
        s[i as int] < t[i as int],
    ensures
        prefix_value(s, n) < prefix_value(t, n),
    decreases n,
{
    if n == i + 1 {
        lemma_top_limb_decides(s, t, n);
    } else {
        lemma_prefix_compare(s, t, i, (n - 1) as nat);
    }
}

/// Two sequences with the same prefix value agree limb by limb.
pub proof fn lemma_prefix_injective(s: Seq<u32>, t: Seq<u32>, n: nat)
    requires
        prefix_value(s, n) == prefix_value(t, n),
    ensures
        forall|i: int| 0 <= i < n ==> s[i] == t[i],
    decreases n,
{
    if n > 0 {
        if s[n - 1] < t[n - 1] {
            lemma_top_limb_decides(s, t, n);
        } else if t[n - 1] < s[n - 1] {
            lemma_top_limb_decides(t, s, n);
        }
        lemma_prefix_injective(s, t, (n - 1) as nat);
    }
}

/// A prefix splits into its low `k` limbs and the rest, shifted by `k` limbs.
pub proof fn lemma_prefix_split(s: Seq<u32>, k: nat, n: nat)
    requires
        k <= n,
    ensures
        prefix_value(s, n) == prefix_value(s, k) + pow32(k) * upper_value(s, k, n),
    decreases n,
{
    let pk: nat = pow32(k);
    if n == k {
        assert(pk * 0 == 0) by (nonlinear_arith);
    } else {
        lemma_prefix_split(s, k, (n - 1) as nat);
        lemma_pow32_add(k, (n - 1 - k) as nat);
        assert(k + (n - 1 - k) as nat == (n - 1) as nat);
        let u: nat = upper_value(s, k, (n - 1) as nat);
        let d: nat = s[n - 1] as nat;
        let q: nat = pow32((n - 1 - k) as nat);
        assert(pk * (u + d * q) == pk * u + d * (pk * q)) by (nonlinear_arith);
    }
}

} // verus!
