//! Equality and ordering by numeric value.

use core::cmp::Ordering;
use vstd::prelude::*;
use crate::bignum::{lemma_limb_decides, lemma_same_limbs, lemma_same_value, Int, LIMBS};

verus! {

impl PartialEq for Int {
    /// Equality of all limbs, folded with `^` and `|` over the whole array
    /// rather than stopping at the first difference.
    fn eq(&self, other: &Int) -> (r: bool) {
        let mut val: u32 = 0;
        let mut i: usize = 0;
        while i < LIMBS
            invariant
                i <= LIMBS,
                val == 0 <==> forall|j: int| 0 <= j < i ==> self.limbs@[j] == other.limbs@[j],
            decreases LIMBS - i,
        {
            let a: u32 = self.limbs[i];
            let b: u32 = other.limbs[i];
            assert((val | (a ^ b)) == 0 <==> val == 0 && a == b) by (bit_vector);
            val = val | (a ^ b);
            i += 1;
        }
        proof {
            if val == 0 {
                lemma_same_limbs(*self, *other);
            }
            if self@ == other@ {
                lemma_same_value(*self, *other);
            }
        }
        val == 0
    }
}

impl vstd::std_specs::cmp::PartialEqSpecImpl for Int {
    open spec fn obeys_eq_spec() -> bool {
        true
    }

    open spec fn eq_spec(&self, other: &Int) -> bool {
        self@ == other@
    }
}

impl PartialEq<u8> for Int {
    /// Equality against the native integer converted to an `Int`.
    fn eq(&self, other: &u8) -> (r: bool) {
        *self == <Int as From<u8>>::from(*other)
    }
}

impl vstd::std_specs::cmp::PartialEqSpecImpl<u8> for Int {
    open spec fn obeys_eq_spec() -> bool {
        true
    }

    open spec fn eq_spec(&self, other: &u8) -> bool {
        self@ == *other
    }
}

impl PartialEq<u16> for Int {
    /// Equality against the native integer converted to an `Int`.
    fn eq(&self, other: &u16) -> (r: bool) {
        *self == <Int as From<u16>>::from(*other)
    }
}

impl vstd::std_specs::cmp::PartialEqSpecImpl<u16> for Int {
    open spec fn obeys_eq_spec() -> bool {
        true
    }

    open spec fn eq_spec(&self, other: &u16) -> bool {
        self@ == *other
    }
}

impl PartialEq<u32> for Int {
    /// Equality against the native integer converted to an `Int`.
    fn eq(&self, other: &u32) -> (r: bool) {
        *self == <Int as From<u32>>::from(*other)
    }
}

impl vstd::std_specs::cmp::PartialEqSpecImpl<u32> for Int {
    open spec fn obeys_eq_spec() -> bool {
        true
    }

    open spec fn eq_spec(&self, other: &u32) -> bool {
        self@ == *other
    }
}

impl PartialEq<u64> for Int {
    /// Equality against the native integer converted to an `Int`.
    fn eq(&self, other: &u64) -> (r: bool) {
        *self == <Int as From<u64>>::from(*other)
    }
}

impl vstd::std_specs::cmp::PartialEqSpecImpl<u64> for Int {
    open spec fn obeys_eq_spec() -> bool {
        true
    }

    open spec fn eq_spec(&self, other: &u64) -> bool {
        self@ == *other
    }
}

impl Eq for Int {

}

impl PartialOrd for Int {
    /// Compares limb by limb from the most significant down and answers at
    /// the first pair that differs.
    fn partial_cmp(&self, other: &Int) -> (r: Option<Ordering>) {
        let mut i: usize = LIMBS;
        while i > 0
            invariant
                i <= LIMBS,
                forall|j: int| i <= j < LIMBS ==> self.limbs@[j] == other.limbs@[j],
            decreases i,
        {
            i -= 1;
            let a: u32 = self.limbs[i];
            let b: u32 = other.limbs[i];
            if a < b {
                proof {
                    lemma_limb_decides(*self, *other, i);
                }
                return Some(Ordering::Less);
            }
            if a > b {
                proof {
                    lemma_limb_decides(*other, *self, i);
                }
                return Some(Ordering::Greater);
            }
        }
        proof {
            lemma_same_limbs(*self, *other);
        }
        Some(Ordering::Equal)
    }
}

impl vstd::std_specs::cmp::PartialOrdSpecImpl for Int {
    open spec fn obeys_partial_cmp_spec() -> bool {
        true
    }

    open spec fn partial_cmp_spec(&self, other: &Int) -> Option<Ordering> {
        if self@ < other@ {
            Some(Ordering::Less)
        } else if self@ == other@ {
            Some(Ordering::Equal)
        } else {
            Some(Ordering::Greater)
        }
    }
}

} // verus!
