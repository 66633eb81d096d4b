//! The prime field that the constraint system works over.
//!
//! Elements are kept reduced modulo `MODULUS`, a 64-bit prime, so a plain
//! `u64` representative suffices and every operation can state its result
//! exactly as integer arithmetic modulo the modulus.

use vstd::prelude::*;
use vstd::arithmetic::div_mod::lemma_mod_add_multiples_vanish;

verus! {

/// The field modulus 2^64 - 2^32 + 1, a prime.
pub const MODULUS: u64 = 0xFFFF_FFFF_0000_0001;

/// An element of the prime field, reduced modulo `MODULUS`.
#[derive(Clone, Copy, PartialEq, Eq, Structural, Debug)]
pub struct Fe {
    pub v: u64,
}

impl Fe {
    /// A representative is well formed when it is reduced.
    pub open spec fn valid(self) -> bool {
        self.v < MODULUS
    }

    /// The mathematical value of the element.
    pub open spec fn as_int(self) -> int {
        self.v as int
    }

    /// The additive identity.
    pub fn zero() -> (r: Fe)
        ensures
            r.valid(),
            r.as_int() == 0,
    {
        Fe { v: 0 }
    }

    /// The multiplicative identity.
    pub fn one() -> (r: Fe)
        ensures
            r.valid(),
            r.as_int() == 1,
    {
        Fe { v: 1 }
    }

    /// The element congruent to `x`.
    pub fn from_u64(x: u64) -> (r: Fe)
        ensures
            r.valid(),
            r.as_int() == x as int % (MODULUS as int),
    {
        Fe { v: x % MODULUS }
    }

    /// Field addition.
    pub fn add(self, other: Fe) -> (r: Fe)
        requires
            self.valid(),
            other.valid(),
        ensures
            r.valid(),
            r.as_int() == (self.as_int() + other.as_int()) % (MODULUS as int),
    {
        let s: u128 = self.v as u128 + other.v as u128;
        let red: u128 = s % (MODULUS as u128);
        Fe { v: red as u64 }
    }

    /// Field subtraction.
    pub fn sub(self, other: Fe) -> (r: Fe)
        requires
            self.valid(),
            other.valid(),
        ensures
            r.valid(),
            r.as_int() == (self.as_int() - other.as_int()) % (MODULUS as int),
    {
        let d: u128 = self.v as u128 + MODULUS as u128 - other.v as u128;
        let red: u128 = d % (MODULUS as u128);
        proof {
            lemma_mod_add_multiples_vanish(self.as_int() - other.as_int(), MODULUS as int);
        }
        Fe { v: red as u64 }
    }

    /// Field multiplication.
    pub fn mul(self, other: Fe) -> (r: Fe)
        requires
            self.valid(),
            other.valid(),
        ensures
            r.valid(),
            r.as_int() == (self.as_int() * other.as_int()) % (MODULUS as int),
    {
        proof {
            assert((self.v as int) * (other.v as int) <= 0xFFFF_FFFF_FFFF_FFFFu64 as int
                * 0xFFFF_FFFF_FFFF_FFFFu64 as int) by (nonlinear_arith)
                requires
                    self.v <= 0xFFFF_FFFF_FFFF_FFFFu64,
                    other.v <= 0xFFFF_FFFF_FFFF_FFFFu64,
            ;
        }
        let prod: u128 = self.v as u128 * other.v as u128;
        let red: u128 = prod % (MODULUS as u128);
        Fe { v: red as u64 }
    }
}

} // verus!
