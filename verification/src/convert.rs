//! Conversion from the native unsigned integers, and equality against them.

use vstd::prelude::*;
use crate::bignum::{lemma_of_value, Int, LIMBS};
use crate::limbs::{lemma_prefix_trailing_zeros, pow32, prefix_value};

verus! {

impl From<u32> for Int {
    /// The value occupies limb 0.
    fn from(num: u32) -> (r: Int)
        ensures
            r@ == num,
    {
        let mut out = [0u32; LIMBS];
        out[0] = num;
        let r = Int { limbs: out };
        proof {
            lemma_prefix_trailing_zeros(out@, 1, LIMBS as nat);
            assert(prefix_value(out@, 1) == prefix_value(out@, 0) + (out@[0] as nat) * pow32(0));
            assert((num as nat) * 1 == num) by (nonlinear_arith);
            lemma_of_value(r);
        }
        r
    }
}

impl vstd::std_specs::convert::FromSpecImpl<u32> for Int {
    open spec fn obeys_from_spec() -> bool {
        true
    }

    open spec fn from_spec(num: u32) -> Int {
        Int::of_value(num as nat)
    }
}

impl From<u64> for Int {
    /// The low 32 bits go to limb 0, the high 32 bits to limb 1.
    fn from(num: u64) -> (r: Int)
        ensures
            r@ == num,
    {
        let low: u64 = num & 0xffff_ffff;
        let high: u64 = num >> 32;
        proof {
            assert(num & 0xffff_ffff == num % 0x1_0000_0000) by (bit_vector);
            assert(num >> 32 == num / 0x1_0000_0000) by (bit_vector);
        }
        let mut out = [0u32; LIMBS];
        out[0] = low as u32;
        out[1] = high as u32;
        let r = Int { limbs: out };
        proof {
            lemma_prefix_trailing_zeros(out@, 2, LIMBS as nat);
            assert(prefix_value(out@, 1) == prefix_value(out@, 0) + (out@[0] as nat) * pow32(0));
            assert(prefix_value(out@, 2) == prefix_value(out@, 1) + (out@[1] as nat) * pow32(1));
            assert(pow32(1) == 0x1_0000_0000 * pow32(0));
            assert((low as nat) * 1 == low) by (nonlinear_arith);
            lemma_of_value(r);
        }
        r
    }
}

impl vstd::std_specs::convert::FromSpecImpl<u64> for Int {
    open spec fn obeys_from_spec() -> bool {
        true
    }

    open spec fn from_spec(num: u64) -> Int {
        Int::of_value(num as nat)
    }
}

impl From<u8> for Int {
    /// The value occupies limb 0.
    fn from(num: u8) -> (r: Int)
        ensures
            r@ == num,
    {
        let r = <Int as From<u32>>::from(num as u32);
        proof {
            lemma_of_value(r);
        }
        r
    }
}

impl vstd::std_specs::convert::FromSpecImpl<u8> for Int {
    open spec fn obeys_from_spec() -> bool {
        true
    }

    open spec fn from_spec(num: u8) -> Int {
        Int::of_value(num as nat)
    }
}

impl From<u16> for Int {
    /// The value occupies limb 0.
    fn from(num: u16) -> (r: Int)
        ensures
            r@ == num,
    {
        let r = <Int as From<u32>>::from(num as u32);
        proof {
            lemma_of_value(r);
        }
        r
    }
}

impl vstd::std_specs::convert::FromSpecImpl<u16> for Int {
    open spec fn obeys_from_spec() -> bool {
        true
    }

    open spec fn from_spec(num: u16) -> Int {
        Int::of_value(num as nat)
    }
}

} // verus!
