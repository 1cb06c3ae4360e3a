//! The arithmetic and classification kernel of a computer-algebra engine:
//! exact rationals in lowest terms over arbitrary-precision integers, with
//! exponent splitting, and the classification flags that a simplifier reads.
pub mod fraction;
pub mod bignum;
pub mod base;
pub mod item;
pub mod rational;
pub mod laws;
