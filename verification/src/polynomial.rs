//! Multilinear polynomials, held by their values on the hypercube.
use crate::field::{values, JoltField};
use crate::modular::{lemma_congruent_add, lemma_congruent_mul, lemma_residue, reduced};
use crate::multilinear::{bound, line};
use vstd::prelude::*;

verus! {

/// A multilinear polynomial. Its view is the table of its values, the index read
/// with the first variable as the most significant bit.
pub struct MultilinearPolynomial<F: JoltField> {
    coeffs: Vec<F>,
}

impl<F: JoltField> View for MultilinearPolynomial<F> {
    type V = Seq<int>;

    closed spec fn view(&self) -> Seq<int> {
        values(self.coeffs@)
    }
}

impl<F: JoltField> MultilinearPolynomial<F> {
    pub fn new(coeffs: Vec<F>) -> (poly: Self)
        ensures
            poly@ == values(coeffs@),
            poly@.len() == coeffs@.len(),
            forall|i: int| 0 <= i < coeffs@.len() ==> #[trigger] poly@[i] == coeffs@[i].value(),
    {
        MultilinearPolynomial { coeffs }
    }

    /// The number of values: `2^k` with `k` variables left.
    pub fn len(&self) -> (n: usize)
        ensures
            n == self@.len(),
    {
        self.coeffs.len()
    }

    /// With the lowest variable free and the others fixed to the bits of `index`,
    /// the polynomial is a line: its values at 0 and at 2.
    pub fn sumcheck_evals(&self, index: usize) -> (evals: [F; 2])
        requires
            index < self@.len() / 2,
        ensures
            evals[0].value() == self@[2 * index],
            evals[1].value() == line(self@, index as int, 2) % F::modulus(),
            evals[1].value() == (2 * self@[2 * index + 1] - self@[2 * index]) % F::modulus(),
    {
        assert(self.coeffs.len() == self@.len());
        let at_zero = self.coeffs[2 * index];
        let at_one = self.coeffs[2 * index + 1];
        let slope = at_one.minus(at_zero);
        let at_two = at_one.plus(slope);
        proof {
            F::modulus_exceeds_one();
            let (a, b, m) = (at_zero.value(), at_one.value(), F::modulus());
            lemma_residue(b - a, m);
            lemma_congruent_add(b, slope.value(), b, b - a, m);
            assert(b + (b - a) == line(self@, index as int, 2));
        }
        [at_zero, at_two]
    }

    /// Sets the lowest variable to `r`.
    pub fn bind(&mut self, r: F::Challenge)
        requires
            old(self)@.len() > 0,
            old(self)@.len() % 2 == 0,
        ensures
            final(self)@ == reduced(bound(old(self)@, F::challenge_value(r)), F::modulus()),
            final(self)@.len() == old(self)@.len() / 2,
            forall|i: int|
                0 <= i < old(self)@.len() / 2 ==> #[trigger] final(self)@[i] == (old(self)@[2 * i]
                    + F::challenge_value(r) * (old(self)@[2 * i + 1] - old(self)@[2 * i]))
                    % F::modulus(),
    {
        let scalar = F::from_challenge(r);
        let half: usize = self.coeffs.len() / 2;
        let ghost table = self@;
        let ghost t = F::challenge_value(r);
        let mut i: usize = 0;
        while i < half
            invariant
                half == table.len() / 2,
                table.len() <= usize::MAX,
                i <= half,
                self.coeffs@.len() == table.len(),
                scalar.value() == t % F::modulus(),
                forall|k: int|
                    0 <= k < i ==> (#[trigger] self.coeffs@[k]).value() == line(table, k, t)
                        % F::modulus(),
                forall|k: int|
                    i <= k < table.len() ==> (#[trigger] self.coeffs@[k]).value() == table[k],
            decreases half - i,
        {
            let low = self.coeffs[2 * i];
            let high = self.coeffs[2 * i + 1];
            let rise = high.minus(low);
            let step = scalar.times(rise);
            let value = low.plus(step);
            proof {
                F::modulus_exceeds_one();
                let (a, b, m) = (low.value(), high.value(), F::modulus());
                lemma_residue(b - a, m);
                lemma_residue(t, m);
                lemma_congruent_mul(scalar.value(), rise.value(), t, b - a, m);
                lemma_congruent_add(a, step.value(), a, t * (b - a), m);
            }
            self.coeffs[i] = value;
            i += 1;
        }
        self.coeffs.truncate(half);
        assert(self@ =~= reduced(bound(table, t), F::modulus()));
    }

    /// The value of a polynomial with no variable left.
    pub fn final_sumcheck_claim(&self) -> (claim: F)
        requires
            self@.len() == 1,
        ensures
            claim.value() == self@[0],
    {
        self.coeffs[0]
    }
}

} // verus!
