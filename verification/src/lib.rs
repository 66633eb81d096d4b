//! Arithmetic-circuit gadgets for the bitwise primitives of a hash
//! compression round: cyclic rotation, logical shift, three-input XOR, and
//! the "small sigma" mixing function assembled from them.  Every gadget
//! emits rank-1 constraints over a prime field into a shared constraint
//! system and, at the same time, computes the witness values of the wires
//! it allocates.

pub mod cs;
pub mod field;
pub mod rotate;
pub mod scope;
pub mod shift;
pub mod sigma;
pub mod template;
pub mod wire;
pub mod xor3;
