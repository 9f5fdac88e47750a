//! The field of integers modulo the Mersenne prime `2^61 - 1`.
use crate::field::JoltField;
use vstd::prelude::*;

verus! {

/// `2^61 - 1`.
pub const MODULUS: u64 = 2305843009213693951;

/// An integer modulo `2^61 - 1`, kept in reduced form. Its challenges are 32-bit
/// integers.
#[derive(Clone, Copy, Debug, PartialEq, Eq)]
pub struct Mersenne61 {
    residue: u64,
}

impl Mersenne61 {
    #[verifier::type_invariant]
    spec fn is_reduced(&self) -> bool {
        self.residue < MODULUS
    }

    /// The residue in `0 .. 2^61 - 1`.
    pub fn to_u64(&self) -> (r: u64)
        ensures
            r == self.value(),
            r < MODULUS,
    {
        proof {
            use_type_invariant(self);
        }
        self.residue
    }
}

impl JoltField for Mersenne61 {
    type Challenge = u32;

    open spec fn modulus() -> int {
        MODULUS as int
    }

    closed spec fn value(&self) -> int {
        self.residue as int
    }

    open spec fn challenge_value(c: u32) -> int {
        c as int
    }

    proof fn modulus_exceeds_one() {
    }

    fn zero() -> (r: Self) {
        Mersenne61 { residue: 0 }
    }

    fn one() -> (r: Self) {
        Mersenne61 { residue: 1 }
    }

    fn from_u64(n: u64) -> (r: Self) {
        Mersenne61 { residue: n % MODULUS }
    }

    fn from_challenge(c: u32) -> (r: Self) {
        Mersenne61 { residue: c as u64 }
    }

    fn plus(self, other: Self) -> (r: Self) {
        proof {
            use_type_invariant(&self);
            use_type_invariant(&other);
        }
        Mersenne61 { residue: (self.residue + other.residue) % MODULUS }
    }

    fn minus(self, other: Self) -> (r: Self) {
        proof {
            use_type_invariant(&self);
            use_type_invariant(&other);
            vstd::arithmetic::div_mod::lemma_mod_add_multiples_vanish(
                self.residue - other.residue,
                MODULUS as int,
            );
        }
        Mersenne61 { residue: (self.residue + (MODULUS - other.residue)) % MODULUS }
    }

    fn times(self, other: Self) -> (r: Self) {
        proof {
            use_type_invariant(&self);
            use_type_invariant(&other);
            assert(self.residue * other.residue <= MODULUS * MODULUS) by (nonlinear_arith)
                requires
                    self.residue < MODULUS,
                    other.residue < MODULUS,
            ;
        }
        let product: u128 = self.residue as u128 * other.residue as u128;
        Mersenne61 { residue: (product % MODULUS as u128) as u64 }
    }
}

} // verus!
