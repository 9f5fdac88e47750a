//! The polynomial of "the index after".
use crate::field::{challenge_values, one_minus, values, JoltField};
use crate::modular::{
    congruent, lemma_congruent_add, lemma_congruent_mul, lemma_congruent_sub, lemma_residue,
    reduced,
};
use crate::multilinear::{
    eq, eq_at, eq_plus_one, eq_plus_one_at, eq_plus_one_table, eq_table, lemma_extensions_empty,
    lemma_extensions_push, lemma_tables_push,
};
use vstd::arithmetic::div_mod::lemma_small_mod;
use vstd::arithmetic::power2::{lemma2_to64, lemma_pow2_unfold, pow2};
use vstd::prelude::*;

verus! {

/// The multilinear polynomial in `y` that is 1 where `y` is the index after `x`
/// and 0 elsewhere, extended to every point `x`. Index 0 comes after nothing.
pub struct EqPlusOnePolynomial<F: JoltField> {
    x: Vec<F::Challenge>,
}

impl<F: JoltField> EqPlusOnePolynomial<F> {
    pub closed spec fn point(&self) -> Seq<int> {
        challenge_values::<F>(self.x@)
    }

    pub fn new(x: Vec<F::Challenge>) -> (poly: Self)
        ensures
            poly.point() == challenge_values::<F>(x@),
    {
        EqPlusOnePolynomial { x }
    }

    /// The value at `y`.
    pub fn evaluate(&self, y: &[F::Challenge]) -> (r: F)
        requires
            y@.len() == self.point().len(),
        ensures
            r.value() == eq_plus_one(self.point(), challenge_values::<F>(y@)) % F::modulus(),
    {
        let ghost xs = self.point();
        let ghost ys = challenge_values::<F>(y@);
        let ghost m = F::modulus();
        let mut same = F::one();
        let mut after = F::zero();
        let mut k: usize = 0;
        proof {
            F::modulus_exceeds_one();
            lemma_extensions_empty(xs.take(0), ys.take(0));
            lemma_small_mod(0, m as nat);
            lemma_small_mod(1, m as nat);
        }
        while k < self.x.len()
            invariant
                k <= self.x.len(),
                self.x.len() == y.len(),
                xs == challenge_values::<F>(self.x@),
                ys == challenge_values::<F>(y@),
                m == F::modulus(),
                same.value() == eq(xs.take(k as int), ys.take(k as int)) % m,
                after.value() == eq_plus_one(xs.take(k as int), ys.take(k as int)) % m,
            decreases self.x.len() - k,
        {
            let a = F::from_challenge(self.x[k]);
            let b = F::from_challenge(y[k]);
            let not_a = one_minus(a);
            let not_b = one_minus(b);
            let both = a.times(b);
            let neither = not_a.times(not_b);
            let equal = both.plus(neither);
            let carry = a.times(not_b);
            let rise = not_a.times(b);
            let carried = after.times(carry);
            let risen = same.times(rise);
            proof {
                F::modulus_exceeds_one();
                let (i, j) = (xs[k as int], ys[k as int]);
                let (u, v) = (
                    eq(xs.take(k as int), ys.take(k as int)),
                    eq_plus_one(xs.take(k as int), ys.take(k as int)),
                );
                lemma_residue(i, m);
                lemma_residue(j, m);
                lemma_residue(u, m);
                lemma_residue(v, m);
                lemma_congruent_sub(1, a.value(), 1, i, m);
                lemma_congruent_sub(1, b.value(), 1, j, m);
                lemma_congruent_mul(a.value(), b.value(), i, j, m);
                lemma_congruent_mul(not_a.value(), not_b.value(), 1 - i, 1 - j, m);
                lemma_congruent_add(both.value(), neither.value(), i * j, (1 - i) * (1 - j), m);
                lemma_congruent_mul(a.value(), not_b.value(), i, 1 - j, m);
                lemma_congruent_mul(not_a.value(), b.value(), 1 - i, j, m);
                lemma_congruent_mul(after.value(), carry.value(), v, i * (1 - j), m);
                lemma_congruent_mul(same.value(), rise.value(), u, (1 - i) * j, m);
                lemma_congruent_add(
                    carried.value(),
                    risen.value(),
                    v * (i * (1 - j)),
                    u * ((1 - i) * j),
                    m,
                );
                lemma_congruent_mul(
                    same.value(),
                    equal.value(),
                    u,
                    i * j + (1 - i) * (1 - j),
                    m,
                );
                lemma_extensions_push(xs.take(k as int), ys.take(k as int), i, j);
                assert(xs.take(k + 1) =~= xs.take(k as int).push(i));
                assert(ys.take(k + 1) =~= ys.take(k as int).push(j));
            }
            after = carried.plus(risen);
            same = same.times(equal);
            k += 1;
        }
        proof {
            assert(xs.take(k as int) =~= xs);
            assert(ys.take(k as int) =~= ys);
        }
        after
    }

    /// At the point `r`, the tables over all indices of "the index is this one" and
    /// of "this is the index after".
    pub fn evals(r: &[F::Challenge]) -> (tables: (Vec<F>, Vec<F>))
        ensures
            values(tables.0@) == reduced(eq_table(challenge_values::<F>(r@)), F::modulus()),
            values(tables.1@) == reduced(
                eq_plus_one_table(challenge_values::<F>(r@)),
                F::modulus(),
            ),
    {
        let ghost xs = challenge_values::<F>(r@);
        let ghost m = F::modulus();
        let mut eq_evals: Vec<F> = Vec::new();
        let mut eq_plus_one_evals: Vec<F> = Vec::new();
        eq_evals.push(F::one());
        eq_plus_one_evals.push(F::zero());
        proof {
            F::modulus_exceeds_one();
            lemma2_to64();
            lemma_small_mod(0, m as nat);
            lemma_small_mod(1, m as nat);
            assert(eq_table(xs.take(0)).len() == 1);
            assert(values(eq_evals@) =~= reduced(eq_table(xs.take(0)), m));
            assert(values(eq_plus_one_evals@) =~= reduced(eq_plus_one_table(xs.take(0)), m));
        }
        let mut k: usize = 0;
        while k < r.len()
            invariant
                k <= r.len(),
                xs == challenge_values::<F>(r@),
                m == F::modulus(),
                values(eq_evals@) == reduced(eq_table(xs.take(k as int)), m),
                values(eq_plus_one_evals@) == reduced(eq_plus_one_table(xs.take(k as int)), m),
            decreases r.len() - k,
        {
            let (next_eq, next_plus_one) = Self::add_variable(
                &eq_evals,
                &eq_plus_one_evals,
                r[k],
                Ghost(xs.take(k as int)),
            );
            eq_evals = next_eq;
            eq_plus_one_evals = next_plus_one;
            assert(xs.take(k + 1) =~= xs.take(k as int).push(xs[k as int]));
            k += 1;
        }
        assert(xs.take(k as int) =~= xs);
        (eq_evals, eq_plus_one_evals)
    }

    /// Adds a lowest variable to both tables and sets it to `c`.
    fn add_variable(
        eq_evals: &Vec<F>,
        eq_plus_one_evals: &Vec<F>,
        c: F::Challenge,
        Ghost(x): Ghost<Seq<int>>,
    ) -> (tables: (Vec<F>, Vec<F>))
        requires
            values(eq_evals@) == reduced(eq_table(x), F::modulus()),
            values(eq_plus_one_evals@) == reduced(eq_plus_one_table(x), F::modulus()),
        ensures
            values(tables.0@) == reduced(eq_table(x.push(F::challenge_value(c))), F::modulus()),
            values(tables.1@) == reduced(
                eq_plus_one_table(x.push(F::challenge_value(c))),
                F::modulus(),
            ),
    {
        let ghost m = F::modulus();
        let ghost t = F::challenge_value(c);
        let ghost y = x.push(t);
        let a = F::from_challenge(c);
        let not_a = one_minus(a);
        let mut next_eq: Vec<F> = Vec::new();
        let mut next_plus_one: Vec<F> = Vec::new();
        let mut h: usize = 0;
        proof {
            F::modulus_exceeds_one();
            lemma_residue(t, m);
            lemma_congruent_sub(1, a.value(), 1, t, m);
            assert(values(eq_evals@).len() == pow2(x.len()));
            assert(values(eq_plus_one_evals@).len() == pow2(x.len()));
        }
        while h < eq_evals.len()
            invariant
                m == F::modulus(),
                y == x.push(t),
                h <= eq_evals.len(),
                eq_evals.len() == pow2(x.len()),
                eq_plus_one_evals.len() == pow2(x.len()),
                values(eq_evals@) == reduced(eq_table(x), m),
                values(eq_plus_one_evals@) == reduced(eq_plus_one_table(x), m),
                congruent(a.value(), t, m),
                congruent(not_a.value(), 1 - t, m),
                next_eq.len() == 2 * h,
                next_plus_one.len() == 2 * h,
                forall|i: int|
                    0 <= i < 2 * h ==> (#[trigger] next_eq[i]).value() == eq_at(y, i) % m,
                forall|i: int|
                    0 <= i < 2 * h ==> (#[trigger] next_plus_one[i]).value() == eq_plus_one_at(y, i)
                        % m,
            decreases eq_evals.len() - h,
        {
            let same = eq_evals[h];
            let after = eq_plus_one_evals[h];
            proof {
                F::modulus_exceeds_one();
                let (u, v) = (eq_at(x, h as int), eq_plus_one_at(x, h as int));
                assert(same.value() == values(eq_evals@)[h as int]);
                assert(after.value() == values(eq_plus_one_evals@)[h as int]);
                lemma_residue(u, m);
                lemma_residue(v, m);
                lemma_congruent_mul(same.value(), not_a.value(), u, 1 - t, m);
                lemma_congruent_mul(same.value(), a.value(), u, t, m);
                lemma_congruent_mul(after.value(), a.value(), v, t, m);
                lemma_tables_push(x, t, h as int);
            }
            next_eq.push(same.times(not_a));
            next_eq.push(same.times(a));
            next_plus_one.push(after.times(a));
            next_plus_one.push(same.times(not_a));
            h += 1;
        }
        proof {
            lemma_pow2_unfold(y.len());
            assert(values(next_eq@) =~= reduced(eq_table(y), m));
            assert(values(next_plus_one@) =~= reduced(eq_plus_one_table(y), m));
        }
        (next_eq, next_plus_one)
    }
}

} // verus!
