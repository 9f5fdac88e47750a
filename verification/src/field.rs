//! Prime-field arithmetic as the protocol uses it.
use vstd::prelude::*;

verus! {

/// A field of integers modulo `modulus()`.
///
/// Every element stands for a residue, its `value()`; the operations are those of
/// the integers, reduced. Sumcheck challenges have a type of their own, which may
/// be smaller than the field, and are lifted with `from_challenge`.
pub trait JoltField: Sized + Copy + Send + Sync {
    type Challenge: Copy + Send + Sync;

    spec fn modulus() -> int;

    /// The integer that an element stands for.
    spec fn value(&self) -> int;

    /// The integer that a challenge stands for.
    spec fn challenge_value(c: Self::Challenge) -> int;

    proof fn modulus_exceeds_one()
        ensures
            Self::modulus() > 1,
    ;

    fn zero() -> (r: Self)
        ensures
            r.value() == 0,
    ;

    fn one() -> (r: Self)
        ensures
            r.value() == 1,
    ;

    fn from_u64(n: u64) -> (r: Self)
        ensures
            r.value() == n as int % Self::modulus(),
    ;

    fn from_challenge(c: Self::Challenge) -> (r: Self)
        ensures
            r.value() == Self::challenge_value(c) % Self::modulus(),
    ;

    fn plus(self, other: Self) -> (r: Self)
        ensures
            r.value() == (self.value() + other.value()) % Self::modulus(),
    ;

    fn minus(self, other: Self) -> (r: Self)
        ensures
            r.value() == (self.value() - other.value()) % Self::modulus(),
    ;

    fn times(self, other: Self) -> (r: Self)
        ensures
            r.value() == (self.value() * other.value()) % Self::modulus(),
    ;
}

/// The residues that field elements stand for.
pub open spec fn values<F: JoltField>(s: Seq<F>) -> Seq<int> {
    Seq::new(s.len(), |i: int| s[i].value())
}

/// The integers that challenges stand for.
pub open spec fn challenge_values<F: JoltField>(s: Seq<F::Challenge>) -> Seq<int> {
    Seq::new(s.len(), |i: int| F::challenge_value(s[i]))
}

/// A field element for a flag: 1 where it is set, 0 where it is not.
pub fn from_bool<F: JoltField>(b: bool) -> (r: F)
    ensures
        r.value() == flag_value(b),
        b ==> r.value() == 1,
        !b ==> r.value() == 0,
{
    if b {
        F::one()
    } else {
        F::zero()
    }
}

pub open spec fn flag_value(b: bool) -> int {
    if b {
        1
    } else {
        0
    }
}

/// `1 - x`.
pub fn one_minus<F: JoltField>(x: F) -> (r: F)
    ensures
        r.value() == (1 - x.value()) % F::modulus(),
{
    F::one().minus(x)
}

} // verus!
