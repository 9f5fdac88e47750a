//! Congruences between integers.
//!
//! A field element stands for a residue, so every computed value is an integer
//! expression up to a multiple of the modulus. The lemmas here carry such an
//! equality through one addition, subtraction or multiplication.
use vstd::arithmetic::div_mod::{
    lemma_add_mod_noop, lemma_mod_twice, lemma_mul_mod_noop_general, lemma_sub_mod_noop,
};
use vstd::prelude::*;

verus! {

/// `a` and `b` differ by a multiple of `m`.
pub open spec fn congruent(a: int, b: int, m: int) -> bool {
    a % m == b % m
}

/// Every entry of `s`, reduced modulo `m`.
pub open spec fn reduced(s: Seq<int>, m: int) -> Seq<int> {
    Seq::new(s.len(), |i: int| s[i] % m)
}

/// Two sequences of the same length whose entries are congruent one by one.
pub open spec fn all_congruent(s: Seq<int>, t: Seq<int>, m: int) -> bool {
    &&& s.len() == t.len()
    &&& forall|i: int| 0 <= i < s.len() ==> congruent(#[trigger] s[i], t[i], m)
}

pub proof fn lemma_residue(a: int, m: int)
    requires
        m > 0,
    ensures
        congruent(a % m, a, m),
{
    lemma_mod_twice(a, m);
}

pub proof fn lemma_congruent_add(a: int, b: int, c: int, d: int, m: int)
    requires
        m > 0,
        congruent(a, c, m),
        congruent(b, d, m),
    ensures
        congruent(a + b, c + d, m),
        congruent((a + b) % m, c + d, m),
{
    lemma_add_mod_noop(a, b, m);
    lemma_add_mod_noop(c, d, m);
    lemma_mod_twice(a + b, m);
}

pub proof fn lemma_congruent_sub(a: int, b: int, c: int, d: int, m: int)
    requires
        m > 0,
        congruent(a, c, m),
        congruent(b, d, m),
    ensures
        congruent(a - b, c - d, m),
        congruent((a - b) % m, c - d, m),
{
    lemma_sub_mod_noop(a, b, m);
    lemma_sub_mod_noop(c, d, m);
    lemma_mod_twice(a - b, m);
}

pub proof fn lemma_congruent_mul(a: int, b: int, c: int, d: int, m: int)
    requires
        m > 0,
        congruent(a, c, m),
        congruent(b, d, m),
    ensures
        congruent(a * b, c * d, m),
        congruent((a * b) % m, c * d, m),
{
    lemma_mul_mod_noop_general(a, b, m);
    lemma_mul_mod_noop_general(c, d, m);
    lemma_mod_twice(a * b, m);
}

/// Reducing the entries of a sequence keeps them congruent to what they were.
pub proof fn lemma_reduced(s: Seq<int>, m: int)
    requires
        m > 0,
    ensures
        all_congruent(reduced(s, m), s, m),
{
    assert forall|i: int| 0 <= i < s.len() implies congruent(
        #[trigger] reduced(s, m)[i],
        s[i],
        m,
    ) by {
        lemma_residue(s[i], m);
    }
}

} // verus!
