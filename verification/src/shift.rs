//! The shift sumcheck.
//!
//! It reduces claims about the columns of a trace one cycle later to claims about
//! the columns themselves. With `EqPlusOne(r, j)` the extension to the point `r` of
//! "`j` is the cycle after", and a batching scalar `g`, it proves
//!
//! ```text
//! sum over j of
//!       EqPlusOne(r_cycle, j) * (UnexpandedPC(j) + g PC(j) + g^2 IsVirtual(j)
//!                                + g^3 IsFirstInSequence(j))
//!     + EqPlusOne(r_product, j) * g^4 (1 - IsNoop(j))
//!   = NextUnexpandedPC(r_cycle) + g NextPC(r_cycle) + g^2 NextIsVirtual(r_cycle)
//!     + g^3 NextIsFirstInSequence(r_cycle) + g^4 (1 - NextIsNoop(r_product))
//! ```
use crate::accumulator::{
    CircuitFlags, InstructionFlags, OpeningAccumulator, OpeningId, ProverOpeningAccumulator,
    SumcheckId, VerifierOpeningAccumulator, VirtualPolynomial,
};
use crate::characterization::{
    theorem_params_from_scalar_and_points, theorem_what_is_asked_of_openings,
};
use crate::eq_plus_one::EqPlusOnePolynomial;
use crate::field::{challenge_values, one_minus, values, JoltField};
use crate::modular::{
    lemma_congruent_add, lemma_congruent_mul, lemma_congruent_sub, lemma_residue,
};
use crate::model::{
    has_input_claims, has_output_claims, has_points, shift_input_claim, shift_params, ShiftClaims,
    ShiftParams, ShiftProver,
};
use crate::multilinear::{eq_plus_one, line};
use crate::opening::{copied, OpeningPoint, BIG_ENDIAN, LITTLE_ENDIAN};
use crate::parallel::{bind_all, lemma_reduction, map_reduce, Reduction};
use crate::polynomial::MultilinearPolynomial;
use crate::state::StateManager;
use crate::sums::{sum, sum_between};
use crate::transcript::Transcript;
use crate::witness::{
    evaluate_shift_sumcheck_witnesses, generate_shift_sumcheck_witnesses, CycleRow,
};
use std::sync::Arc;
use vstd::arithmetic::div_mod::lemma_small_mod;
use vstd::arithmetic::logarithm::log;
use vstd::arithmetic::power::{lemma_pow0, pow};
use vstd::arithmetic::power2::pow2;
use vstd::prelude::*;

verus! {

/// Degree bound of the sumcheck round polynomials in [`ShiftSumcheckVerifier`].
pub const DEGREE_BOUND: usize = 2;

/// The part of the proving key that the shift sumcheck reads.
pub struct UniformSpartanKey {
    /// The number of cycles, padding counted in.
    pub num_steps: usize,
}

/// `floor(log2(n))`.
fn ilog2(n: usize) -> (k: usize)
    requires
        n > 0,
    ensures
        k == log(2, n as int),
{
    let mut rest: usize = n;
    let mut k: usize = 0;
    reveal(log);
    while rest > 1
        invariant
            rest > 0,
            k + rest <= n,
            log(2, n as int) == k + log(2, rest as int),
        decreases rest,
    {
        reveal(log);
        rest /= 2;
        k += 1;
    }
    k
}

/// `1, gamma, gamma^2, gamma^3, gamma^4`.
fn scalar_powers<F: JoltField>(gamma: F) -> (powers: [F; 5])
    ensures
        forall|i: int|
            0 <= i < 5 ==> (#[trigger] powers[i]).value() == pow(gamma.value(), i as nat)
                % F::modulus(),
{
    proof {
        F::modulus_exceeds_one();
        lemma_pow0(gamma.value());
        lemma_small_mod(1, F::modulus() as nat);
    }
    let p0 = F::one();
    let p1 = next_power(p0, gamma, Ghost(0));
    let p2 = next_power(p1, gamma, Ghost(1));
    let p3 = next_power(p2, gamma, Ghost(2));
    let p4 = next_power(p3, gamma, Ghost(3));
    [p0, p1, p2, p3, p4]
}

fn next_power<F: JoltField>(power: F, gamma: F, Ghost(i): Ghost<nat>) -> (r: F)
    requires
        power.value() == pow(gamma.value(), i) % F::modulus(),
    ensures
        r.value() == pow(gamma.value(), i + 1) % F::modulus(),
{
    proof {
        let g = gamma.value();
        F::modulus_exceeds_one();
        lemma_residue(pow(g, i), F::modulus());
        lemma_congruent_mul(power.value(), g, pow(g, i), g, F::modulus());
        reveal(pow);
        assert(pow(g, i + 1) == g * pow(g, i));
        assert(g * pow(g, i) == pow(g, i) * g) by (nonlinear_arith);
    }
    power.times(gamma)
}

/// The parameters of the shift sumcheck.
pub struct ShiftSumcheckParams<F: JoltField> {
    gamma_powers: [F; 5],
    n_cycle_vars: usize,
    r_cycle: OpeningPoint<BIG_ENDIAN, F>,
    r_product: OpeningPoint<BIG_ENDIAN, F>,
}

impl<F: JoltField> View for ShiftSumcheckParams<F> {
    type V = ShiftParams;

    closed spec fn view(&self) -> ShiftParams {
        ShiftParams {
            gamma_powers: values(self.gamma_powers@),
            n_cycle_vars: self.n_cycle_vars as nat,
            r_cycle: self.r_cycle@,
            r_product: self.r_product@,
        }
    }
}

impl<F: JoltField> ShiftSumcheckParams<F> {
    #[verifier::type_invariant]
    spec fn is_wf(&self) -> bool {
        self@.wf()
    }

    /// The parameters for a batching scalar that is drawn from the transcript.
    pub fn new<T: Transcript<F>, A: OpeningAccumulator<F>>(
        state_manager: &mut StateManager<T, A>,
        key: Arc<UniformSpartanKey>,
    ) -> (params: Self)
        requires
            old(state_manager).transcript.state().can_draw(),
            key.num_steps > 0,
            has_points(old(state_manager).accumulator.openings(), key.num_steps),
        ensures
            final(state_manager).transcript.state() == old(state_manager).transcript.state().draw(),
            final(state_manager).accumulator == old(state_manager).accumulator,
            final(state_manager).trace == old(state_manager).trace,
            params@ == shift_params(
                old(state_manager).transcript.state().next_challenge(),
                old(state_manager).accumulator.openings(),
                key.num_steps,
                F::modulus(),
            ),
            params@.wf(),
            params@.gamma_powers.len() == 5,
            params@.gamma_powers[0] == 1,
            forall|i: int|
                #![trigger params@.gamma_powers[i + 1]]
                0 <= i < 4 ==> params@.gamma_powers[i + 1] == (params@.gamma_powers[i]
                    * old(state_manager).transcript.state().next_challenge()) % F::modulus(),
            pow2(params@.n_cycle_vars) <= key.num_steps < pow2(params@.n_cycle_vars + 1),
            params@.r_cycle.len() == params@.n_cycle_vars,
            params@.r_product.len() == params@.n_cycle_vars,
            forall|i: int|
                0 <= i < params@.n_cycle_vars ==> #[trigger] params@.r_cycle[i]
                    == old(state_manager).accumulator.openings()[
                    OpeningId {
                        polynomial: VirtualPolynomial::NextPC,
                        sumcheck: SumcheckId::SpartanOuter,
                    }
                ].point[i],
            forall|i: int|
                0 <= i < params@.n_cycle_vars ==> #[trigger] params@.r_product[i]
                    == old(state_manager).accumulator.openings()[
                    OpeningId {
                        polynomial: VirtualPolynomial::NextIsNoop,
                        sumcheck: SumcheckId::ProductVirtualization,
                    }
                ].point[i],
    {
        let gamma = state_manager.transcript.challenge_scalar();
        Self::with_gamma(gamma, &state_manager.accumulator, &key)
    }

    /// The parameters for the batching scalar `gamma`.
    pub fn with_gamma<A: OpeningAccumulator<F>>(
        gamma: F,
        accumulator: &A,
        key: &UniformSpartanKey,
    ) -> (params: Self)
        requires
            key.num_steps > 0,
            has_points(accumulator.openings(), key.num_steps),
        ensures
            params@.wf(),
            params@ == shift_params(
                gamma.value(),
                accumulator.openings(),
                key.num_steps,
                F::modulus(),
            ),
            params@.gamma_powers.len() == 5,
            params@.gamma_powers[0] == 1,
            forall|i: int|
                #![trigger params@.gamma_powers[i + 1]]
                0 <= i < 4 ==> params@.gamma_powers[i + 1] == (params@.gamma_powers[i]
                    * gamma.value()) % F::modulus(),
            pow2(params@.n_cycle_vars) <= key.num_steps < pow2(params@.n_cycle_vars + 1),
            params@.r_cycle.len() == params@.n_cycle_vars,
            params@.r_product.len() == params@.n_cycle_vars,
            forall|i: int|
                0 <= i < params@.n_cycle_vars ==> #[trigger] params@.r_cycle[i]
                    == accumulator.openings()[
                    OpeningId {
                        polynomial: VirtualPolynomial::NextPC,
                        sumcheck: SumcheckId::SpartanOuter,
                    }
                ].point[i],
            forall|i: int|
                0 <= i < params@.n_cycle_vars ==> #[trigger] params@.r_product[i]
                    == accumulator.openings()[
                    OpeningId {
                        polynomial: VirtualPolynomial::NextIsNoop,
                        sumcheck: SumcheckId::ProductVirtualization,
                    }
                ].point[i],
    {
        let gamma_powers = scalar_powers(gamma);
        let n_cycle_vars = ilog2(key.num_steps);
        let (outer_sumcheck_r, _) = accumulator.get_virtual_polynomial_opening(
            VirtualPolynomial::NextPC,
            SumcheckId::SpartanOuter,
        );
        let (r_cycle, _) = outer_sumcheck_r.split_at(n_cycle_vars);
        let (product_sumcheck_r, _) = accumulator.get_virtual_polynomial_opening(
            VirtualPolynomial::NextIsNoop,
            SumcheckId::ProductVirtualization,
        );
        let (r_product, _) = product_sumcheck_r.split_at(n_cycle_vars);
        proof {
            F::modulus_exceeds_one();
            lemma_pow0(gamma.value());
            lemma_small_mod(1, F::modulus() as nat);
            theorem_params_from_scalar_and_points(
                gamma.value(),
                accumulator.openings(),
                key.num_steps,
                F::modulus(),
            );
            theorem_what_is_asked_of_openings(
                accumulator.openings(),
                key.num_steps,
                n_cycle_vars as nat,
            );
        }
        let params = ShiftSumcheckParams { gamma_powers, n_cycle_vars, r_cycle, r_product };
        assert(params@ =~= shift_params(
            gamma.value(),
            accumulator.openings(),
            key.num_steps,
            F::modulus(),
        ));
        params
    }

    /// One round per variable.
    pub fn num_rounds(&self) -> (n: usize)
        ensures
            n == self@.n_cycle_vars,
    {
        self.n_cycle_vars
    }

    /// The claim that the sumcheck proves.
    pub fn input_claim<A: OpeningAccumulator<F>>(&self, accumulator: &A) -> (claim: F)
        requires
            has_input_claims(accumulator.openings()),
        ensures
            claim.value() == shift_input_claim(self@, accumulator.openings()) % F::modulus(),
    {
        let (_, next_pc) = accumulator.get_virtual_polynomial_opening(
            VirtualPolynomial::NextPC,
            SumcheckId::SpartanOuter,
        );
        let (_, next_unexpanded_pc) = accumulator.get_virtual_polynomial_opening(
            VirtualPolynomial::NextUnexpandedPC,
            SumcheckId::SpartanOuter,
        );
        let (_, next_is_virtual) = accumulator.get_virtual_polynomial_opening(
            VirtualPolynomial::NextIsVirtual,
            SumcheckId::SpartanOuter,
        );
        let (_, next_is_first) = accumulator.get_virtual_polynomial_opening(
            VirtualPolynomial::NextIsFirstInSequence,
            SumcheckId::SpartanOuter,
        );
        let (_, next_is_noop) = accumulator.get_virtual_polynomial_opening(
            VirtualPolynomial::NextIsNoop,
            SumcheckId::ProductVirtualization,
        );
        let b = next_pc.times(self.gamma_powers[1]);
        let c = next_is_virtual.times(self.gamma_powers[2]);
        let d = next_is_first.times(self.gamma_powers[3]);
        let active = one_minus(next_is_noop);
        let e = active.times(self.gamma_powers[4]);
        let ab = next_unexpanded_pc.plus(b);
        let abc = ab.plus(c);
        let abcd = abc.plus(d);
        proof {
            F::modulus_exceeds_one();
            let m = F::modulus();
            let g = self.gamma_powers;
            let (va, vb, vc, vd, ve) = (
                next_unexpanded_pc.value(),
                next_pc.value() * g[1].value(),
                next_is_virtual.value() * g[2].value(),
                next_is_first.value() * g[3].value(),
                (1 - next_is_noop.value()) * g[4].value(),
            );
            lemma_residue(vb, m);
            lemma_residue(vc, m);
            lemma_residue(vd, m);
            lemma_residue(1 - next_is_noop.value(), m);
            lemma_congruent_mul(
                active.value(),
                g[4].value(),
                1 - next_is_noop.value(),
                g[4].value(),
                m,
            );
            lemma_congruent_add(va, b.value(), va, vb, m);
            lemma_congruent_add(ab.value(), c.value(), va + vb, vc, m);
            lemma_congruent_add(abc.value(), d.value(), va + vb + vc, vd, m);
            lemma_congruent_add(abcd.value(), e.value(), va + vb + vc + vd, ve, m);
        }
        abcd.plus(e)
    }
}

/// The challenges as a point with the most significant variable first: the first
/// round binds the lowest variable.
pub fn get_opening_point<F: JoltField>(
    sumcheck_challenges: &[F::Challenge],
) -> (point: OpeningPoint<BIG_ENDIAN, F>)
    ensures
        point.r@ == sumcheck_challenges@.reverse(),
        point@ == challenge_values::<F>(sumcheck_challenges@).reverse(),
{
    OpeningPoint::<LITTLE_ENDIAN, F>::new(
        copied(sumcheck_challenges, 0, sumcheck_challenges.len()),
    ).match_endianness()
}

/// Sumcheck prover for [`ShiftSumcheckVerifier`].
pub struct ShiftSumcheckProver<F: JoltField> {
    combined_witness_poly: MultilinearPolynomial<F>,
    is_noop_poly: MultilinearPolynomial<F>,
    eq_plus_one_r_cycle: MultilinearPolynomial<F>,
    eq_plus_one_r_product: MultilinearPolynomial<F>,
    trace: Arc<Vec<CycleRow>>,
    params: ShiftSumcheckParams<F>,
}

impl<F: JoltField> View for ShiftSumcheckProver<F> {
    type V = ShiftProver;

    closed spec fn view(&self) -> ShiftProver {
        ShiftProver {
            params: self.params@,
            trace: self.trace@,
            combined_witness: self.combined_witness_poly@,
            is_noop: self.is_noop_poly@,
            eq_plus_one_r_cycle: self.eq_plus_one_r_cycle@,
            eq_plus_one_r_product: self.eq_plus_one_r_product@,
        }
    }
}

/// `a b + g (1 - c) d`.
fn summand<F: JoltField>(a: F, b: F, g: F, c: F, d: F) -> (r: F)
    ensures
        r.value() == (a.value() * b.value() + g.value() * (1 - c.value()) * d.value())
            % F::modulus(),
{
    let ab = a.times(b);
    let not_c = one_minus(c);
    let gc = g.times(not_c);
    let gcd = gc.times(d);
    proof {
        F::modulus_exceeds_one();
        let m = F::modulus();
        let (va, vb, vg, vc, vd) = (a.value(), b.value(), g.value(), c.value(), d.value());
        lemma_residue(va * vb, m);
        lemma_residue(1 - vc, m);
        lemma_congruent_mul(vg, not_c.value(), vg, 1 - vc, m);
        lemma_congruent_mul(gc.value(), vd, vg * (1 - vc), vd, m);
        lemma_congruent_add(ab.value(), gcd.value(), va * vb, vg * (1 - vc) * vd, m);
    }
    ab.plus(gcd)
}

/// The entries of both arrays, added one by one.
fn plus_each<F: JoltField>(a: [F; 2], b: [F; 2]) -> (r: [F; 2])
    ensures
        r[0].value() == (a[0].value() + b[0].value()) % F::modulus(),
        r[1].value() == (a[1].value() + b[1].value()) % F::modulus(),
{
    [a[0].plus(b[0]), a[1].plus(b[1])]
}

fn zeros<F: JoltField>() -> (r: [F; 2])
    ensures
        r[0].value() == 0,
        r[1].value() == 0,
{
    [F::zero(), F::zero()]
}

impl<F: JoltField> ShiftSumcheckProver<F> {
    /// A prover before the first round, for a batching scalar that is drawn from the
    /// transcript.
    pub fn gen<T: Transcript<F>, A: OpeningAccumulator<F>>(
        state_manager: &mut StateManager<T, A>,
        key: Arc<UniformSpartanKey>,
    ) -> (prover: Self)
        requires
            old(state_manager).transcript.state().can_draw(),
            old(state_manager).trace is Some,
            key.num_steps > 0,
            has_points(old(state_manager).accumulator.openings(), key.num_steps),
        ensures
            final(state_manager).transcript.state() == old(state_manager).transcript.state().draw(),
            final(state_manager).accumulator == old(state_manager).accumulator,
            final(state_manager).trace == old(state_manager).trace,
            prover@ == ShiftProver::initial(
                shift_params(
                    old(state_manager).transcript.state().next_challenge(),
                    old(state_manager).accumulator.openings(),
                    key.num_steps,
                    F::modulus(),
                ),
                old(state_manager).trace->0@,
                F::modulus(),
            ),
            prover@.params.wf(),
            prover@.params.gamma_powers.len() == 5,
            prover@.params.gamma_powers[0] == 1,
            forall|i: int|
                #![trigger prover@.params.gamma_powers[i + 1]]
                0 <= i < 4 ==> prover@.params.gamma_powers[i + 1] == (prover@.params.gamma_powers[i]
                    * old(state_manager).transcript.state().next_challenge()) % F::modulus(),
            pow2(prover@.params.n_cycle_vars) <= key.num_steps < pow2(
                prover@.params.n_cycle_vars + 1,
            ),
            prover@.params.r_cycle.len() == prover@.params.n_cycle_vars,
            prover@.params.r_product.len() == prover@.params.n_cycle_vars,
            forall|i: int|
                0 <= i < prover@.params.n_cycle_vars ==> #[trigger] prover@.params.r_cycle[i]
                    == old(state_manager).accumulator.openings()[
                    OpeningId {
                        polynomial: VirtualPolynomial::NextPC,
                        sumcheck: SumcheckId::SpartanOuter,
                    }
                ].point[i],
            forall|i: int|
                0 <= i < prover@.params.n_cycle_vars ==> #[trigger] prover@.params.r_product[i]
                    == old(state_manager).accumulator.openings()[
                    OpeningId {
                        polynomial: VirtualPolynomial::NextIsNoop,
                        sumcheck: SumcheckId::ProductVirtualization,
                    }
                ].point[i],
            prover@.trace == old(state_manager).trace->0@,
            prover@.is_noop.len() == prover@.trace.len(),
            forall|t: int|
                0 <= t < prover@.trace.len() ==> #[trigger] prover@.is_noop[t] == (
                if prover@.trace[t].is_noop {
                    1int
                } else {
                    0
                }),
    {
        let params = ShiftSumcheckParams::new(state_manager, key);
        let trace = state_manager.trace.as_ref().unwrap().clone();
        Self::with_params(params, trace)
    }

    /// A prover before the first round.
    pub fn with_params(params: ShiftSumcheckParams<F>, trace: Arc<Vec<CycleRow>>) -> (prover: Self)
        ensures
            prover@ == ShiftProver::initial(params@, trace@, F::modulus()),
            prover@.params.wf(),
            prover@.params == params@,
            prover@.trace == trace@,
            prover@.is_noop.len() == prover@.trace.len(),
            forall|t: int|
                0 <= t < prover@.trace.len() ==> #[trigger] prover@.is_noop[t] == (
                if prover@.trace[t].is_noop {
                    1int
                } else {
                    0
                }),
    {
        proof {
            use_type_invariant(&params);
        }
        let (_, eq_plus_one_r_cycle) = EqPlusOnePolynomial::<F>::evals(&params.r_cycle.r);
        let (_, eq_plus_one_r_product) = EqPlusOnePolynomial::<F>::evals(&params.r_product.r);
        let (combined_witness_poly, is_noop_poly) = generate_shift_sumcheck_witnesses(
            &trace,
            &params.gamma_powers,
        );
        ShiftSumcheckProver {
            combined_witness_poly,
            is_noop_poly,
            eq_plus_one_r_cycle: MultilinearPolynomial::new(eq_plus_one_r_cycle),
            eq_plus_one_r_product: MultilinearPolynomial::new(eq_plus_one_r_product),
            trace,
            params,
        }
    }

    pub fn degree(&self) -> (d: usize)
        ensures
            d == DEGREE_BOUND,
            d == 2,
    {
        2
    }

    pub fn num_rounds(&self) -> (n: usize)
        ensures
            n == self@.params.n_cycle_vars,
    {
        self.params.num_rounds()
    }

    pub fn input_claim(&self, accumulator: &ProverOpeningAccumulator<F>) -> (claim: F)
        requires
            has_input_claims(accumulator.openings()),
        ensures
            claim.value() == shift_input_claim(self@.params, accumulator.openings())
                % F::modulus(),
    {
        self.params.input_claim(accumulator)
    }

    /// The part of the round polynomial that the other variables at the bits of `i`
    /// contribute, at 0 and at 2.
    fn round_evals(&self, i: usize) -> (evals: [F; 2])
        requires
            self@.aligned(),
            i < self@.combined_witness.len() / 2,
        ensures
            evals[0].value() == self@.round_term(0)(i as int) % F::modulus(),
            evals[1].value() == self@.round_term(2)(i as int) % F::modulus(),
    {
        let combined_witness_evals = self.combined_witness_poly.sumcheck_evals(i);
        let eq_r_cycle_evals = self.eq_plus_one_r_cycle.sumcheck_evals(i);
        let eq_r_product_evals = self.eq_plus_one_r_product.sumcheck_evals(i);
        let is_noop_evals = self.is_noop_poly.sumcheck_evals(i);
        let gamma4 = self.params.gamma_powers[4];
        let at_zero = summand(
            combined_witness_evals[0],
            eq_r_cycle_evals[0],
            gamma4,
            is_noop_evals[0],
            eq_r_product_evals[0],
        );
        let at_two = summand(
            combined_witness_evals[1],
            eq_r_cycle_evals[1],
            gamma4,
            is_noop_evals[1],
            eq_r_product_evals[1],
        );
        proof {
            F::modulus_exceeds_one();
            let m = F::modulus();
            let k = i as int;
            let g = self@.params.gamma_powers[4];
            let (a, b, c, d) = (
                line(self@.combined_witness, k, 2),
                line(self@.eq_plus_one_r_cycle, k, 2),
                line(self@.is_noop, k, 2),
                line(self@.eq_plus_one_r_product, k, 2),
            );
            let (ra, rb, rc, rd) = (a % m, b % m, c % m, d % m);
            lemma_residue(a, m);
            lemma_residue(b, m);
            lemma_residue(c, m);
            lemma_residue(d, m);
            lemma_congruent_mul(ra, rb, a, b, m);
            lemma_congruent_sub(1, rc, 1, c, m);
            lemma_congruent_mul(g, 1 - rc, g, 1 - c, m);
            lemma_congruent_mul(g * (1 - rc), rd, g * (1 - c), d, m);
            lemma_congruent_add(ra * rb, g * (1 - rc) * rd, a * b, g * (1 - c) * d, m);
        }
        [at_zero, at_two]
    }

    /// The round polynomial at 0 and at 2. Its value at 1 follows from the claim of
    /// the round before.
    pub fn compute_prover_message(&mut self, _round: usize, _previous_claim: F) -> (message: Vec<F>)
        requires
            old(self)@.aligned(),
        ensures
            *final(self) == *old(self),
            values(message@) == old(self)@.message(F::modulus()),
            message@.len() == 2,
            message@[0].value() == old(self)@.round_poly(0) % F::modulus(),
            message@[1].value() == old(self)@.round_poly(2) % F::modulus(),
    {
        let evals = self.round_poly_evals();
        let mut message: Vec<F> = Vec::new();
        message.push(evals[0]);
        message.push(evals[1]);
        assert(values(message@) =~= self@.message(F::modulus()));
        message
    }

    fn round_poly_evals(&self) -> (evals: [F; 2])
        requires
            self@.aligned(),
        ensures
            evals[0].value() == self@.round_poly(0) % F::modulus(),
            evals[1].value() == self@.round_poly(2) % F::modulus(),
    {
        let half: usize = self.combined_witness_poly.len() / 2;
        let ghost m = F::modulus();
        let ghost f0 = self@.round_term(0);
        let ghost f2 = self@.round_term(2);
        let map = |i: usize| -> (e: [F; 2])
            requires
                i < half,
            ensures
                e[0].value() == f0(i as int) % m,
                e[1].value() == f2(i as int) % m,
            { self.round_evals(i) };
        let identity = || -> (e: [F; 2])
            ensures
                e[0].value() == 0,
                e[1].value() == 0,
            { zeros() };
        let op = |running: [F; 2], new: [F; 2]| -> (e: [F; 2])
            ensures
                e[0].value() == (running[0].value() + new[0].value()) % m,
                e[1].value() == (running[1].value() + new[1].value()) % m,
            { plus_each(running, new) };
        let evals = map_reduce(half, map, identity, op);
        proof {
            F::modulus_exceeds_one();
            let holds = |a: int, b: int, e: [F; 2]|
                e[0].value() == sum_between(f0, a, b) % m && e[1].value() == sum_between(f2, a, b)
                    % m;
            let tree = choose|tree: Reduction<[F; 2]>|
                tree.result() == evals && tree.span() == half && #[trigger] tree.follows(
                    map,
                    identity,
                    op,
                    0,
                );
            lemma_small_mod(0, m as nat);
            assert forall|k: usize, e: [F; 2]|
                k < half && #[trigger] call_ensures(map, (k,), e) implies holds(
                k as int,
                k + 1,
                e,
            ) by {
                assert(sum(f0, k + 1) == sum(f0, k as int) + f0(k as int));
                assert(sum(f2, k + 1) == sum(f2, k as int) + f2(k as int));
            }
            assert forall|a: int, b: int, c: int, x: [F; 2], y: [F; 2], z: [F; 2]|
                0 <= a <= b <= c <= half && #[trigger] holds(a, b, x) && #[trigger] holds(b, c, y)
                    && #[trigger] call_ensures(op, (x, y), z) implies holds(a, c, z) by {
                lemma_residue(sum_between(f0, a, b), m);
                lemma_residue(sum_between(f0, b, c), m);
                lemma_residue(sum_between(f2, a, b), m);
                lemma_residue(sum_between(f2, b, c), m);
                lemma_congruent_add(
                    x[0].value(),
                    y[0].value(),
                    sum_between(f0, a, b),
                    sum_between(f0, b, c),
                    m,
                );
                lemma_congruent_add(
                    x[1].value(),
                    y[1].value(),
                    sum_between(f2, a, b),
                    sum_between(f2, b, c),
                    m,
                );
            }
            lemma_reduction(tree, map, identity, op, 0, half, holds);
            assert(holds(0, half as int, evals));
        }
        evals
    }

    /// Sets the lowest variable to the challenge of the round.
    pub fn bind(&mut self, r_j: F::Challenge, _round: usize)
        requires
            old(self)@.aligned(),
            old(self)@.combined_witness.len() > 0,
            old(self)@.combined_witness.len() % 2 == 0,
        ensures
            final(self)@ == old(self)@.bind(F::challenge_value(r_j), F::modulus()),
    {
        bind_all(
            &mut self.combined_witness_poly,
            &mut self.is_noop_poly,
            &mut self.eq_plus_one_r_cycle,
            &mut self.eq_plus_one_r_product,
            r_j,
        );
    }

    /// Files the claims about the columns at the point of the challenges.
    pub fn cache_openings<T: Transcript<F>>(
        &self,
        accumulator: &mut ProverOpeningAccumulator<F>,
        transcript: &mut T,
        sumcheck_challenges: &[F::Challenge],
    )
        requires
            self@.is_noop.len() == 1,
            self@.trace.len() == pow2(sumcheck_challenges@.len()),
        ensures
            final(accumulator).openings() == self@.output_claims(
                challenge_values::<F>(sumcheck_challenges@).reverse(),
                F::modulus(),
            ).file(
                old(accumulator).openings(),
                challenge_values::<F>(sumcheck_challenges@).reverse(),
            ),
            final(transcript).state() == old(transcript).state().absorb_all(
                self@.output_claims(
                    challenge_values::<F>(sumcheck_challenges@).reverse(),
                    F::modulus(),
                ).absorbed(),
            ),
    {
        let opening_point = get_opening_point::<F>(sumcheck_challenges);
        let is_noop_eval = self.is_noop_poly.final_sumcheck_claim();
        let evals = evaluate_shift_sumcheck_witnesses(&self.trace, &opening_point);
        accumulator.append_virtual(
            transcript,
            VirtualPolynomial::UnexpandedPC,
            SumcheckId::SpartanShift,
            opening_point.clone(),
            evals[0],
        );
        accumulator.append_virtual(
            transcript,
            VirtualPolynomial::PC,
            SumcheckId::SpartanShift,
            opening_point.clone(),
            evals[1],
        );
        accumulator.append_virtual(
            transcript,
            VirtualPolynomial::OpFlags(CircuitFlags::VirtualInstruction),
            SumcheckId::SpartanShift,
            opening_point.clone(),
            evals[2],
        );
        accumulator.append_virtual(
            transcript,
            VirtualPolynomial::OpFlags(CircuitFlags::IsFirstInSequence),
            SumcheckId::SpartanShift,
            opening_point.clone(),
            evals[3],
        );
        accumulator.append_virtual(
            transcript,
            VirtualPolynomial::InstructionFlags(InstructionFlags::IsNoop),
            SumcheckId::SpartanShift,
            opening_point,
            is_noop_eval,
        );
        assert(transcript.state() =~= old(transcript).state().absorb_all(
            self@.output_claims(
                challenge_values::<F>(sumcheck_challenges@).reverse(),
                F::modulus(),
            ).absorbed(),
        ));
    }
}

/// Sumcheck verifier for the shift sumcheck.
pub struct ShiftSumcheckVerifier<F: JoltField> {
    params: ShiftSumcheckParams<F>,
}

impl<F: JoltField> View for ShiftSumcheckVerifier<F> {
    type V = ShiftParams;

    closed spec fn view(&self) -> ShiftParams {
        self.params@
    }
}

impl<F: JoltField> ShiftSumcheckVerifier<F> {
    /// A verifier for a batching scalar that is drawn from the transcript.
    pub fn new<T: Transcript<F>, A: OpeningAccumulator<F>>(
        state_manager: &mut StateManager<T, A>,
        key: Arc<UniformSpartanKey>,
    ) -> (verifier: Self)
        requires
            old(state_manager).transcript.state().can_draw(),
            key.num_steps > 0,
            has_points(old(state_manager).accumulator.openings(), key.num_steps),
        ensures
            final(state_manager).transcript.state() == old(state_manager).transcript.state().draw(),
            final(state_manager).accumulator == old(state_manager).accumulator,
            final(state_manager).trace == old(state_manager).trace,
            verifier@ == shift_params(
                old(state_manager).transcript.state().next_challenge(),
                old(state_manager).accumulator.openings(),
                key.num_steps,
                F::modulus(),
            ),
            verifier@.wf(),
            verifier@.gamma_powers.len() == 5,
            verifier@.gamma_powers[0] == 1,
            forall|i: int|
                #![trigger verifier@.gamma_powers[i + 1]]
                0 <= i < 4 ==> verifier@.gamma_powers[i + 1] == (verifier@.gamma_powers[i]
                    * old(state_manager).transcript.state().next_challenge()) % F::modulus(),
            pow2(verifier@.n_cycle_vars) <= key.num_steps < pow2(verifier@.n_cycle_vars + 1),
            verifier@.r_cycle.len() == verifier@.n_cycle_vars,
            verifier@.r_product.len() == verifier@.n_cycle_vars,
            forall|i: int|
                0 <= i < verifier@.n_cycle_vars ==> #[trigger] verifier@.r_cycle[i]
                    == old(state_manager).accumulator.openings()[
                    OpeningId {
                        polynomial: VirtualPolynomial::NextPC,
                        sumcheck: SumcheckId::SpartanOuter,
                    }
                ].point[i],
            forall|i: int|
                0 <= i < verifier@.n_cycle_vars ==> #[trigger] verifier@.r_product[i]
                    == old(state_manager).accumulator.openings()[
                    OpeningId {
                        polynomial: VirtualPolynomial::NextIsNoop,
                        sumcheck: SumcheckId::ProductVirtualization,
                    }
                ].point[i],
    {
        let params = ShiftSumcheckParams::new(state_manager, key);
        Self::with_params(params)
    }

    pub fn with_params(params: ShiftSumcheckParams<F>) -> (verifier: Self)
        ensures
            verifier@ == params@,
            verifier@.wf(),
    {
        proof {
            use_type_invariant(&params);
        }
        ShiftSumcheckVerifier { params }
    }

    pub fn degree(&self) -> (d: usize)
        ensures
            d == DEGREE_BOUND,
            d == 2,
    {
        DEGREE_BOUND
    }

    pub fn num_rounds(&self) -> (n: usize)
        ensures
            n == self@.n_cycle_vars,
    {
        self.params.num_rounds()
    }

    pub fn input_claim(&self, accumulator: &VerifierOpeningAccumulator<F>) -> (claim: F)
        requires
            has_input_claims(accumulator.openings()),
        ensures
            claim.value() == shift_input_claim(self@, accumulator.openings()) % F::modulus(),
    {
        self.params.input_claim(accumulator)
    }

    /// What the last round's claim has to be, from the claims that came with the
    /// proof.
    pub fn expected_output_claim(
        &self,
        accumulator: &VerifierOpeningAccumulator<F>,
        sumcheck_challenges: &[F::Challenge],
    ) -> (claim: F)
        requires
            has_output_claims(accumulator.openings()),
            sumcheck_challenges@.len() == self@.n_cycle_vars,
        ensures
            claim.value() == ShiftClaims::filed(accumulator.openings()).expected_output(
                self@,
                challenge_values::<F>(sumcheck_challenges@).reverse(),
            ) % F::modulus(),
    {
        proof {
            use_type_invariant(&self.params);
        }
        let (_, unexpanded_pc_claim) = accumulator.get_virtual_polynomial_opening(
            VirtualPolynomial::UnexpandedPC,
            SumcheckId::SpartanShift,
        );
        let (_, pc_claim) = accumulator.get_virtual_polynomial_opening(
            VirtualPolynomial::PC,
            SumcheckId::SpartanShift,
        );
        let (_, is_virtual_claim) = accumulator.get_virtual_polynomial_opening(
            VirtualPolynomial::OpFlags(CircuitFlags::VirtualInstruction),
            SumcheckId::SpartanShift,
        );
        let (_, is_first_in_sequence_claim) = accumulator.get_virtual_polynomial_opening(
            VirtualPolynomial::OpFlags(CircuitFlags::IsFirstInSequence),
            SumcheckId::SpartanShift,
        );
        let (_, is_noop_claim) = accumulator.get_virtual_polynomial_opening(
            VirtualPolynomial::InstructionFlags(InstructionFlags::IsNoop),
            SumcheckId::SpartanShift,
        );
        let r = get_opening_point::<F>(sumcheck_challenges);
        let r_cycle = self.params.r_cycle.clone();
        let r_product = self.params.r_product.clone();
        assert(r@.len() == sumcheck_challenges@.len());
        let eq_plus_one_r_cycle_at_shift = EqPlusOnePolynomial::<F>::new(r_cycle.r).evaluate(&r.r);
        let eq_plus_one_r_product_at_shift = EqPlusOnePolynomial::<F>::new(r_product.r).evaluate(
            &r.r,
        );
        let g = &self.params.gamma_powers;
        let a = g[0].times(unexpanded_pc_claim);
        let b = g[1].times(pc_claim);
        let c = g[2].times(is_virtual_claim);
        let d = g[3].times(is_first_in_sequence_claim);
        let ab = a.plus(b);
        let abc = ab.plus(c);
        let batched = abc.plus(d);
        let claim = summand(
            batched,
            eq_plus_one_r_cycle_at_shift,
            g[4],
            is_noop_claim,
            eq_plus_one_r_product_at_shift,
        );
        proof {
            F::modulus_exceeds_one();
            let m = F::modulus();
            let (va, vb, vc, vd) = (
                g[0].value() * unexpanded_pc_claim.value(),
                g[1].value() * pc_claim.value(),
                g[2].value() * is_virtual_claim.value(),
                g[3].value() * is_first_in_sequence_claim.value(),
            );
            let ec = eq_plus_one(self@.r_cycle, r@);
            let ep = eq_plus_one(self@.r_product, r@);
            let active = g[4].value() * (1 - is_noop_claim.value());
            lemma_residue(va, m);
            lemma_residue(vb, m);
            lemma_residue(vc, m);
            lemma_residue(vd, m);
            lemma_residue(ec, m);
            lemma_residue(ep, m);
            lemma_congruent_add(a.value(), b.value(), va, vb, m);
            lemma_congruent_add(ab.value(), c.value(), va + vb, vc, m);
            lemma_congruent_add(abc.value(), d.value(), va + vb + vc, vd, m);
            lemma_congruent_mul(batched.value(), ec % m, va + vb + vc + vd, ec, m);
            lemma_congruent_mul(active, ep % m, active, ep, m);
            lemma_congruent_add(
                batched.value() * (ec % m),
                active * (ep % m),
                (va + vb + vc + vd) * ec,
                active * ep,
                m,
            );
        }
        claim
    }

    /// Sets the points of the claims that came with the proof.
    pub fn cache_openings<T: Transcript<F>>(
        &self,
        accumulator: &mut VerifierOpeningAccumulator<F>,
        transcript: &mut T,
        sumcheck_challenges: &[F::Challenge],
    )
        requires
            has_output_claims(old(accumulator).openings()),
        ensures
            final(accumulator).openings() == ShiftClaims::filed(old(accumulator).openings()).file(
                old(accumulator).openings(),
                challenge_values::<F>(sumcheck_challenges@).reverse(),
            ),
            final(transcript).state() == old(transcript).state().absorb_all(
                ShiftClaims::filed(old(accumulator).openings()).absorbed(),
            ),
    {
        let opening_point = get_opening_point::<F>(sumcheck_challenges);
        accumulator.append_virtual(
            transcript,
            VirtualPolynomial::UnexpandedPC,
            SumcheckId::SpartanShift,
            opening_point.clone(),
        );
        accumulator.append_virtual(
            transcript,
            VirtualPolynomial::PC,
            SumcheckId::SpartanShift,
            opening_point.clone(),
        );
        accumulator.append_virtual(
            transcript,
            VirtualPolynomial::OpFlags(CircuitFlags::VirtualInstruction),
            SumcheckId::SpartanShift,
            opening_point.clone(),
        );
        accumulator.append_virtual(
            transcript,
            VirtualPolynomial::OpFlags(CircuitFlags::IsFirstInSequence),
            SumcheckId::SpartanShift,
            opening_point.clone(),
        );
        accumulator.append_virtual(
            transcript,
            VirtualPolynomial::InstructionFlags(InstructionFlags::IsNoop),
            SumcheckId::SpartanShift,
            opening_point,
        );
        assert(transcript.state() =~= old(transcript).state().absorb_all(
            ShiftClaims::filed(old(accumulator).openings()).absorbed(),
        ));
    }
}

} // verus!
