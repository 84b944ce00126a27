//! Fixed-capacity multi-precision unsigned integers.
//!
//! [`Int`] holds `LIMBS` little-endian 32-bit words and stands for a natural
//! number below `2^MAX_BITS`.  Every operator walks the full word array, so
//! its cost does not depend on the magnitude of the operands, and arithmetic
//! wraps modulo `2^MAX_BITS`.

pub mod limbs;
pub mod bignum;
pub mod bits;
pub mod arith;
pub mod compare;
pub mod convert;
pub mod laws;

pub use bignum::{Int, BITS, LIMBS, MAX_BITS};
