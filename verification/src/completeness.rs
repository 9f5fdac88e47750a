//! Completeness of the shift sumcheck: a prover that follows it is accepted.
use crate::accumulator::{Opening, OpeningId};
use crate::modular::{
    congruent, lemma_congruent_add, lemma_congruent_mul, lemma_congruent_sub,
    lemma_reduced, lemma_residue, reduced,
};
use crate::multilinear::{
    bound, eq_plus_one, eq_plus_one_table, lemma_mle_bound, lemma_mle_congruent, lemma_mle_linear,
    lemma_mle_one, lemma_mle_single, lemma_shifted_sum, line, mle, next, product_term,
};
use crate::model::{
    next_is_first_in_sequence, next_is_noop, next_is_virtual, next_pc, next_unexpanded_pc,
    shift_input_claim, shift_is_first_in_sequence, shift_is_noop, shift_is_virtual, shift_params,
    shift_pc, shift_unexpanded_pc, ShiftClaims, ShiftParams, ShiftProver,
};
use crate::sums::{lemma_sum_add, lemma_sum_congruent, lemma_sum_pairs, lemma_sum_scale, sum};
use crate::transcript::TranscriptState;
use crate::witness::{
    combined_column, is_first_in_sequence_column, is_noop_column, is_virtual_column, pc_column,
    unexpanded_pc_column, CycleRow,
};
use vstd::arithmetic::power2::{lemma2_to64, lemma_pow2_unfold, pow2};
use vstd::prelude::*;

verus! {

/// The round polynomial at 0 and at 1 adds up to the claim of the round.
pub proof fn theorem_round_splits_claim(prover: ShiftProver)
    requires
        prover.aligned(),
        prover.combined_witness.len() % 2 == 0,
    ensures
        prover.round_poly(0) + prover.round_poly(1) == prover.claim(),
{
    let half = (prover.combined_witness.len() / 2) as int;
    let f = prover.term();
    let g0 = prover.round_term(0);
    let g1 = prover.round_term(1);
    let g = |i: int| f(2 * i) + f(2 * i + 1);
    lemma_sum_pairs(f, g, half);
    assert forall|i: int| 0 <= i < half implies #[trigger] g(i) == g0(i) + g1(i) by {
        assert(g0(i) == f(2 * i));
        assert(g1(i) == f(2 * i + 1));
    }
    lemma_sum_add(g0, g1, g, half);
}

/// Binding the lowest variable to a challenge turns the claim into the value of the
/// round polynomial at the challenge.
pub proof fn theorem_bind_evaluates_round(prover: ShiftProver, r: int, modulus: int)
    requires
        modulus > 0,
        prover.aligned(),
    ensures
        prover.bind(r, modulus).aligned(),
        prover.bind(r, modulus).combined_witness.len() == prover.combined_witness.len() / 2,
        congruent(prover.bind(r, modulus).claim(), prover.round_poly(r), modulus),
{
    let m = modulus;
    let half = (prover.combined_witness.len() / 2) as int;
    let next = prover.bind(r, m);
    let f = next.term();
    let g = prover.round_term(r);
    assert forall|i: int| 0 <= i < half implies congruent(#[trigger] f(i), g(i), m) by {
        let gamma = prover.params.gamma_powers[4];
        let (a, b, c, d) = (
            line(prover.combined_witness, i, r),
            line(prover.eq_plus_one_r_cycle, i, r),
            line(prover.is_noop, i, r),
            line(prover.eq_plus_one_r_product, i, r),
        );
        lemma_residue(a, m);
        lemma_residue(b, m);
        lemma_residue(c, m);
        lemma_residue(d, m);
        lemma_summand_congruent(a % m, b % m, gamma, c % m, d % m, a, b, c, d, m);
    }
    lemma_sum_congruent(f, g, half, m);
}

proof fn lemma_summand_congruent(
    a: int,
    b: int,
    g: int,
    c: int,
    d: int,
    a1: int,
    b1: int,
    c1: int,
    d1: int,
    m: int,
)
    requires
        m > 0,
        congruent(a, a1, m),
        congruent(b, b1, m),
        congruent(c, c1, m),
        congruent(d, d1, m),
    ensures
        congruent(a * b + g * (1 - c) * d, a1 * b1 + g * (1 - c1) * d1, m),
{
    lemma_congruent_mul(a, b, a1, b1, m);
    lemma_congruent_sub(1, c, 1, c1, m);
    lemma_congruent_mul(g, 1 - c, g, 1 - c1, m);
    lemma_congruent_mul(g * (1 - c), d, g * (1 - c1), d1, m);
    lemma_congruent_add(a * b, g * (1 - c) * d, a1 * b1, g * (1 - c1) * d1, m);
}

/// Twice the value at `t` of the polynomial of degree 2 that takes the values `e0`,
/// `e1` and `e2` at 0, 1 and 2.
pub open spec fn twice_interpolated(e0: int, e1: int, e2: int, t: int) -> int {
    e0 * ((t - 1) * (t - 2)) - 2 * (e1 * (t * (t - 2))) + e2 * (t * (t - 1))
}

proof fn lemma_line_product(a: int, da: int, b: int, db: int, t: int)
    ensures
        (a + t * da) * (b + t * db) == a * b + t * (a * db + da * b) + t * t * (da * db),
{
    let (x, y) = (t * da, t * db);
    assert((a + x) * (b + y) == a * b + a * y + x * b + x * y) by (nonlinear_arith);
    assert(a * (t * db) == t * (a * db)) by (nonlinear_arith);
    assert((t * da) * b == t * (da * b)) by (nonlinear_arith);
    assert((t * da) * (t * db) == t * t * (da * db)) by (nonlinear_arith);
    assert(t * (a * db + da * b) == t * (a * db) + t * (da * b)) by (nonlinear_arith);
}

proof fn lemma_line_products(a: int, da: int, b: int, db: int, t: int)
    ensures
        2 * ((a + t * da) * (b + t * db)) == twice_interpolated(
            a * b,
            (a + da) * (b + db),
            (a + 2 * da) * (b + 2 * db),
            t,
        ),
{
    let (p, q, r) = (a * b, a * db + da * b, da * db);
    lemma_line_product(a, da, b, db, t);
    lemma_line_product(a, da, b, db, 1);
    lemma_line_product(a, da, b, db, 2);
    let s = t * t;
    assert((t - 1) * (t - 2) == s - 3 * t + 2) by (nonlinear_arith)
        requires
            s == t * t,
    ;
    assert(t * (t - 2) == s - 2 * t) by (nonlinear_arith)
        requires
            s == t * t,
    ;
    assert(t * (t - 1) == s - t) by (nonlinear_arith)
        requires
            s == t * t,
    ;
    assert(p * (s - 3 * t + 2) == p * s - 3 * (p * t) + 2 * p) by (nonlinear_arith);
    assert((p + q + r) * (s - 2 * t) == p * s + q * s + r * s - 2 * (p * t) - 2 * (q * t) - 2 * (r
        * t)) by (nonlinear_arith);
    assert((p + 2 * q + 4 * r) * (s - t) == p * s + 2 * (q * s) + 4 * (r * s) - p * t - 2 * (q * t)
        - 4 * (r * t)) by (nonlinear_arith);
    assert(t * q == q * t) by (nonlinear_arith);
    assert(s * r == r * s) by (nonlinear_arith);
}

/// The round polynomial has degree 2 at most: its values at 0, 1 and 2 give it
/// everywhere.
pub proof fn theorem_round_has_degree_two(prover: ShiftProver, t: int)
    ensures
        2 * prover.round_poly(t) == twice_interpolated(
            prover.round_poly(0),
            prover.round_poly(1),
            prover.round_poly(2),
            t,
        ),
{
    let half = (prover.combined_witness.len() / 2) as int;
    lemma_round_sum(prover, t, half);
}

proof fn lemma_round_sum(prover: ShiftProver, t: int, n: int)
    ensures
        2 * sum(prover.round_term(t), n) == twice_interpolated(
            sum(prover.round_term(0), n),
            sum(prover.round_term(1), n),
            sum(prover.round_term(2), n),
            t,
        ),
    decreases n,
{
    if n > 0 {
        let i = n - 1;
        lemma_round_sum(prover, t, i);
        let (w, e, s, q) = (
            prover.combined_witness,
            prover.eq_plus_one_r_cycle,
            prover.is_noop,
            prover.eq_plus_one_r_product,
        );
        let g = prover.params.gamma_powers[4];
        let (w0, dw) = (w[2 * i], w[2 * i + 1] - w[2 * i]);
        let (e0, de) = (e[2 * i], e[2 * i + 1] - e[2 * i]);
        let (s0, ds) = (s[2 * i], s[2 * i + 1] - s[2 * i]);
        let (q0, dq) = (q[2 * i], q[2 * i + 1] - q[2 * i]);
        lemma_line_products(w0, dw, e0, de, t);
        let (n0, dn) = (g * (1 - s0), -(g * ds));
        lemma_line_products(n0, dn, q0, dq, t);
        assert forall|u: int| #![trigger u * ds] g * (1 - (s0 + u * ds)) == n0 + u * dn by {
            assert(g * (1 - (s0 + u * ds)) == g * (1 - s0) + u * (-(g * ds))) by (nonlinear_arith);
        }
        assert(g * (1 - (s0 + t * ds)) == n0 + t * dn);
        assert(g * (1 - (s0 + 0 * ds)) == n0 + 0 * dn);
        assert(g * (1 - (s0 + 1 * ds)) == n0 + 1 * dn);
        assert(g * (1 - (s0 + 2 * ds)) == n0 + 2 * dn);
        let (x0, x1, x2) = (
            prover.round_term(0)(i),
            prover.round_term(1)(i),
            prover.round_term(2)(i),
        );
        let x = prover.round_term(t)(i);
        assert(x == (w0 + t * dw) * (e0 + t * de) + (n0 + t * dn) * (q0 + t * dq));
        assert(x0 == w0 * e0 + n0 * q0);
        assert(x1 == (w0 + dw) * (e0 + de) + (n0 + dn) * (q0 + dq));
        assert(x2 == (w0 + 2 * dw) * (e0 + 2 * de) + (n0 + 2 * dn) * (q0 + 2 * dq));
        lemma_interpolation_adds(
            w0 * e0,
            (w0 + dw) * (e0 + de),
            (w0 + 2 * dw) * (e0 + 2 * de),
            n0 * q0,
            (n0 + dn) * (q0 + dq),
            (n0 + 2 * dn) * (q0 + 2 * dq),
            t,
        );
        lemma_interpolation_adds(
            sum(prover.round_term(0), i),
            sum(prover.round_term(1), i),
            sum(prover.round_term(2), i),
            x0,
            x1,
            x2,
            t,
        );
    } else {
        assert(0 * ((t - 1) * (t - 2)) == 0);
        assert(0 * (t * (t - 2)) == 0);
        assert(0 * (t * (t - 1)) == 0);
    }
}

proof fn lemma_interpolation_adds(
    a0: int,
    a1: int,
    a2: int,
    b0: int,
    b1: int,
    b2: int,
    t: int,
)
    ensures
        twice_interpolated(a0 + b0, a1 + b1, a2 + b2, t) == twice_interpolated(a0, a1, a2, t)
            + twice_interpolated(b0, b1, b2, t),
{
    let (p, q, r) = ((t - 1) * (t - 2), t * (t - 2), t * (t - 1));
    assert((a0 + b0) * p == a0 * p + b0 * p) by (nonlinear_arith);
    assert((a1 + b1) * q == a1 * q + b1 * q) by (nonlinear_arith);
    assert((a2 + b2) * r == a2 * r + b2 * r) by (nonlinear_arith);
}

/// The padding column one cycle later. The cycle after the last counts as padding.
pub open spec fn next_is_noop_column(trace: Seq<CycleRow>) -> Seq<int> {
    Seq::new(
        trace.len(),
        |t: int|
            if t + 1 < trace.len() {
                is_noop_column(trace)[t + 1]
            } else {
                1
            },
    )
}

/// The claims that the sumcheck starts from are true of the trace.
pub open spec fn input_claims_hold(
    openings: Map<OpeningId, Opening>,
    params: ShiftParams,
    trace: Seq<CycleRow>,
    modulus: int,
) -> bool {
    &&& congruent(
        openings[next_unexpanded_pc()].claim,
        mle(next(unexpanded_pc_column(trace)), params.r_cycle),
        modulus,
    )
    &&& congruent(
        openings[next_pc()].claim,
        mle(next(pc_column(trace)), params.r_cycle),
        modulus,
    )
    &&& congruent(
        openings[next_is_virtual()].claim,
        mle(next(is_virtual_column(trace)), params.r_cycle),
        modulus,
    )
    &&& congruent(
        openings[next_is_first_in_sequence()].claim,
        mle(next(is_first_in_sequence_column(trace)), params.r_cycle),
        modulus,
    )
    &&& congruent(
        openings[next_is_noop()].claim,
        mle(next_is_noop_column(trace), params.r_product),
        modulus,
    )
}

/// A batch of four tables, extended, is the batch of their extensions.
proof fn lemma_mle_combined(trace: Seq<CycleRow>, g: Seq<int>, x: Seq<int>)
    ensures
        mle(combined_column(trace, g), x) == g[0] * mle(unexpanded_pc_column(trace), x) + g[1]
            * mle(pc_column(trace), x) + g[2] * mle(is_virtual_column(trace), x) + g[3] * mle(
            is_first_in_sequence_column(trace),
            x,
        ),
{
    let (a, b, c, d) = (
        unexpanded_pc_column(trace),
        pc_column(trace),
        is_virtual_column(trace),
        is_first_in_sequence_column(trace),
    );
    let ab = Seq::new(trace.len(), |t: int| g[0] * a[t] + g[1] * b[t]);
    let cd = Seq::new(trace.len(), |t: int| g[2] * c[t] + g[3] * d[t]);
    lemma_mle_linear(g[0], a, g[1], b, ab, x);
    lemma_mle_linear(g[2], c, g[3], d, cd, x);
    lemma_mle_linear(1, ab, 1, cd, combined_column(trace, g), x);
}

/// The batch one cycle later is the batch of the columns one cycle later.
proof fn lemma_mle_next_combined(trace: Seq<CycleRow>, g: Seq<int>, x: Seq<int>)
    ensures
        mle(next(combined_column(trace, g)), x) == g[0] * mle(next(unexpanded_pc_column(trace)), x)
            + g[1] * mle(next(pc_column(trace)), x) + g[2] * mle(
            next(is_virtual_column(trace)),
            x,
        ) + g[3] * mle(next(is_first_in_sequence_column(trace)), x),
{
    let (a, b, c, d) = (
        next(unexpanded_pc_column(trace)),
        next(pc_column(trace)),
        next(is_virtual_column(trace)),
        next(is_first_in_sequence_column(trace)),
    );
    let ab = Seq::new(trace.len(), |t: int| g[0] * a[t] + g[1] * b[t]);
    let cd = Seq::new(trace.len(), |t: int| g[2] * c[t] + g[3] * d[t]);
    let all = next(combined_column(trace, g));
    lemma_mle_linear(g[0], a, g[1], b, ab, x);
    lemma_mle_linear(g[2], c, g[3], d, cd, x);
    assert forall|t: int| 0 <= t < trace.len() implies #[trigger] all[t] == 1 * ab[t] + 1 * cd[t] by {
        if t + 1 >= trace.len() {
            assert(g[0] * 0 + g[1] * 0 + (g[2] * 0 + g[3] * 0) == 0);
        }
    }
    lemma_mle_linear(1, ab, 1, cd, all, x);
}

/// The batched identity: summed against "the cycle after", the columns of a trace
/// give the batch of their extensions one cycle later.
pub proof fn theorem_batched_identity(params: ShiftParams, trace: Seq<CycleRow>, modulus: int)
    requires
        modulus > 0,
        params.wf(),
        trace.len() == pow2(params.n_cycle_vars),
    ensures
        congruent(
            ShiftProver::initial(params, trace, modulus).claim(),
            mle(next(unexpanded_pc_column(trace)), params.r_cycle) + mle(
                next(pc_column(trace)),
                params.r_cycle,
            ) * params.gamma_powers[1] + mle(next(is_virtual_column(trace)), params.r_cycle)
                * params.gamma_powers[2] + mle(
                next(is_first_in_sequence_column(trace)),
                params.r_cycle,
            ) * params.gamma_powers[3] + (1 - mle(next_is_noop_column(trace), params.r_product))
                * params.gamma_powers[4],
            modulus,
        ),
{
    let m = modulus;
    let g = params.gamma_powers;
    let n = trace.len() as int;
    let prover = ShiftProver::initial(params, trace, m);
    let combined = combined_column(trace, g);
    let active = Seq::new(trace.len(), |t: int| 1 - is_noop_column(trace)[t]);
    let e = eq_plus_one_table(params.r_cycle);
    let q = eq_plus_one_table(params.r_product);

    // Up to multiples of the modulus the claim is a sum of two products.
    let f = prover.term();
    let fa = product_term(combined, e);
    let fb = product_term(active, q);
    let gfb = |i: int| g[4] * fb(i);
    let h = |i: int| fa(i) + gfb(i);
    assert forall|i: int| 0 <= i < n implies congruent(#[trigger] f(i), h(i), m) by {
        let (a, b, c, d) = (combined[i], e[i], is_noop_column(trace)[i], q[i]);
        lemma_residue(a, m);
        lemma_residue(b, m);
        lemma_residue(d, m);
        lemma_summand_congruent(a % m, b % m, g[4], c, d % m, a, b, c, d, m);
        assert(g[4] * (1 - c) * d == g[4] * ((1 - c) * d)) by (nonlinear_arith);
    }
    lemma_sum_congruent(f, h, n, m);
    lemma_sum_scale(g[4], fb, gfb, n);
    lemma_sum_add(fa, gfb, h, n);

    // Each of them reads its column one cycle later.
    lemma_shifted_sum(combined, params.r_cycle);
    lemma_mle_next_combined(trace, g, params.r_cycle);
    lemma_shifted_sum(active, params.r_product);
    let ones = Seq::new(pow2(params.r_product.len()), |i: int| 1int);
    lemma_mle_one(params.r_product);
    lemma_mle_linear(
        1,
        ones,
        -1,
        next_is_noop_column(trace),
        next(active),
        params.r_product,
    );
    let (p1, p2, p3, p4) = (
        mle(next(pc_column(trace)), params.r_cycle),
        mle(next(is_virtual_column(trace)), params.r_cycle),
        mle(next(is_first_in_sequence_column(trace)), params.r_cycle),
        1 - mle(next_is_noop_column(trace), params.r_product),
    );
    assert(g[1] * p1 == p1 * g[1]) by (nonlinear_arith);
    assert(g[2] * p2 == p2 * g[2]) by (nonlinear_arith);
    assert(g[3] * p3 == p3 * g[3]) by (nonlinear_arith);
    assert(g[4] * p4 == p4 * g[4]) by (nonlinear_arith);
}

/// From true claims the sumcheck starts with a true claim: the input claim is the
/// sum that the prover is about to reduce.
pub proof fn theorem_input_claim_is_the_sum(
    params: ShiftParams,
    trace: Seq<CycleRow>,
    openings: Map<OpeningId, Opening>,
    modulus: int,
)
    requires
        modulus > 0,
        params.wf(),
        trace.len() == pow2(params.n_cycle_vars),
        input_claims_hold(openings, params, trace, modulus),
    ensures
        congruent(
            shift_input_claim(params, openings),
            ShiftProver::initial(params, trace, modulus).claim(),
            modulus,
        ),
{
    let m = modulus;
    let g = params.gamma_powers;
    theorem_batched_identity(params, trace, m);
    let (a, b, c, d, e) = (
        openings[next_unexpanded_pc()].claim,
        openings[next_pc()].claim,
        openings[next_is_virtual()].claim,
        openings[next_is_first_in_sequence()].claim,
        openings[next_is_noop()].claim,
    );
    let (a1, b1, c1, d1, e1) = (
        mle(next(unexpanded_pc_column(trace)), params.r_cycle),
        mle(next(pc_column(trace)), params.r_cycle),
        mle(next(is_virtual_column(trace)), params.r_cycle),
        mle(next(is_first_in_sequence_column(trace)), params.r_cycle),
        mle(next_is_noop_column(trace), params.r_product),
    );
    lemma_congruent_mul(b, g[1], b1, g[1], m);
    lemma_congruent_mul(c, g[2], c1, g[2], m);
    lemma_congruent_mul(d, g[3], d1, g[3], m);
    lemma_congruent_sub(1, e, 1, e1, m);
    lemma_congruent_mul(1 - e, g[4], 1 - e1, g[4], m);
    lemma_congruent_add(a, b * g[1], a1, b1 * g[1], m);
    lemma_congruent_add(a + b * g[1], c * g[2], a1 + b1 * g[1], c1 * g[2], m);
    lemma_congruent_add(
        a + b * g[1] + c * g[2],
        d * g[3],
        a1 + b1 * g[1] + c1 * g[2],
        d1 * g[3],
        m,
    );
    lemma_congruent_add(
        a + b * g[1] + c * g[2] + d * g[3],
        (1 - e) * g[4],
        a1 + b1 * g[1] + c1 * g[2] + d1 * g[3],
        (1 - e1) * g[4],
        m,
    );
}

/// A table after its variables were set to `challenges`, from the lowest on.
pub open spec fn bound_all(table: Seq<int>, challenges: Seq<int>, modulus: int) -> Seq<int>
    decreases challenges.len(),
{
    if challenges.len() == 0 {
        table
    } else {
        reduced(
            bound(bound_all(table, challenges.drop_last(), modulus), challenges.last()),
            modulus,
        )
    }
}

/// The prover's tables are bound one by one.
proof fn lemma_after(prover: ShiftProver, challenges: Seq<int>, modulus: int)
    ensures
        prover.after(challenges, modulus).params == prover.params,
        prover.after(challenges, modulus).trace == prover.trace,
        prover.after(challenges, modulus).combined_witness == bound_all(
            prover.combined_witness,
            challenges,
            modulus,
        ),
        prover.after(challenges, modulus).is_noop == bound_all(
            prover.is_noop,
            challenges,
            modulus,
        ),
        prover.after(challenges, modulus).eq_plus_one_r_cycle == bound_all(
            prover.eq_plus_one_r_cycle,
            challenges,
            modulus,
        ),
        prover.after(challenges, modulus).eq_plus_one_r_product == bound_all(
            prover.eq_plus_one_r_product,
            challenges,
            modulus,
        ),
    decreases challenges.len(),
{
    if challenges.len() > 0 {
        lemma_after(prover, challenges.drop_last(), modulus);
    }
}

/// The extension of a table of which some variables are bound, in those that are
/// left: the challenges take the places of the lowest variables, in opposite order.
proof fn lemma_bound_all(
    table: Seq<int>,
    challenges: Seq<int>,
    y: Seq<int>,
    modulus: int,
)
    requires
        modulus > 0,
        table.len() == pow2(challenges.len() + y.len()),
    ensures
        bound_all(table, challenges, modulus).len() == pow2(y.len()),
        congruent(
            mle(bound_all(table, challenges, modulus), y),
            mle(table, y + challenges.reverse()),
            modulus,
        ),
    decreases challenges.len(),
{
    if challenges.len() == 0 {
        assert(y + challenges.reverse() =~= y);
    } else {
        let m = modulus;
        let rest = challenges.drop_last();
        let r = challenges.last();
        let y1 = y.push(r);
        lemma_bound_all(table, rest, y1, m);
        let before = bound_all(table, rest, m);
        lemma_pow2_unfold(y1.len());
        assert(y1.drop_last() =~= y);
        lemma_mle_bound(before, y1);
        lemma_reduced(bound(before, r), m);
        lemma_mle_congruent(reduced(bound(before, r), m), bound(before, r), y, m);
        assert(y + challenges.reverse() =~= y1 + rest.reverse());
    }
}

/// A table whose variables are all bound holds its extension at the point of the
/// challenges, the last one first.
pub proof fn theorem_bound_table_is_the_extension(
    table: Seq<int>,
    challenges: Seq<int>,
    modulus: int,
)
    requires
        modulus > 0,
        table.len() == pow2(challenges.len()),
    ensures
        bound_all(table, challenges, modulus).len() == 1,
        congruent(
            bound_all(table, challenges, modulus)[0],
            mle(table, challenges.reverse()),
            modulus,
        ),
{
    let y = Seq::<int>::empty();
    lemma_bound_all(table, challenges, y, modulus);
    lemma2_to64();
    lemma_mle_single(bound_all(table, challenges, modulus), y);
    assert(y + challenges.reverse() =~= challenges.reverse());
}

/// After the last round the claim is what the verifier computes from the claims that
/// the prover files: the sumcheck ends where the verifier expects it.
pub proof fn theorem_last_claim_is_expected(
    params: ShiftParams,
    trace: Seq<CycleRow>,
    challenges: Seq<int>,
    modulus: int,
)
    requires
        modulus > 0,
        params.wf(),
        trace.len() == pow2(params.n_cycle_vars),
        challenges.len() == params.n_cycle_vars,
    ensures
        ({
            let last = ShiftProver::initial(params, trace, modulus).after(challenges, modulus);
            let point = challenges.reverse();
            &&& last.combined_witness.len() == 1
            &&& last.is_noop.len() == 1
            &&& congruent(
                last.claim(),
                last.output_claims(point, modulus).expected_output(params, point),
                modulus,
            )
        }),
{
    let m = modulus;
    let g = params.gamma_powers;
    let first = ShiftProver::initial(params, trace, m);
    let last = first.after(challenges, m);
    let point = challenges.reverse();
    let claims = last.output_claims(point, m);
    lemma_after(first, challenges, m);
    theorem_bound_table_is_the_extension(first.combined_witness, challenges, m);
    theorem_bound_table_is_the_extension(first.is_noop, challenges, m);
    theorem_bound_table_is_the_extension(first.eq_plus_one_r_cycle, challenges, m);
    theorem_bound_table_is_the_extension(first.eq_plus_one_r_product, challenges, m);

    // The extensions of the tables, before they were reduced.
    let combined = combined_column(trace, g);
    lemma_reduced(combined, m);
    lemma_reduced(eq_plus_one_table(params.r_cycle), m);
    lemma_reduced(eq_plus_one_table(params.r_product), m);
    lemma_mle_congruent(first.combined_witness, combined, point, m);
    lemma_mle_congruent(first.eq_plus_one_r_cycle, eq_plus_one_table(params.r_cycle), point, m);
    lemma_mle_congruent(first.eq_plus_one_r_product, eq_plus_one_table(params.r_product), point, m);

    // The batch, from the claims about its columns.
    let (a, b, c, d) = (
        mle(unexpanded_pc_column(trace), point),
        mle(pc_column(trace), point),
        mle(is_virtual_column(trace), point),
        mle(is_first_in_sequence_column(trace), point),
    );
    lemma_mle_combined(trace, g, point);
    lemma_residue(a, m);
    lemma_residue(b, m);
    lemma_residue(c, m);
    lemma_residue(d, m);
    lemma_congruent_mul(g[0], claims.unexpanded_pc, g[0], a, m);
    lemma_congruent_mul(g[1], claims.pc, g[1], b, m);
    lemma_congruent_mul(g[2], claims.is_virtual, g[2], c, m);
    lemma_congruent_mul(g[3], claims.is_first_in_sequence, g[3], d, m);
    lemma_congruent_add(
        g[0] * claims.unexpanded_pc,
        g[1] * claims.pc,
        g[0] * a,
        g[1] * b,
        m,
    );
    lemma_congruent_add(
        g[0] * claims.unexpanded_pc + g[1] * claims.pc,
        g[2] * claims.is_virtual,
        g[0] * a + g[1] * b,
        g[2] * c,
        m,
    );
    lemma_congruent_add(
        g[0] * claims.unexpanded_pc + g[1] * claims.pc + g[2] * claims.is_virtual,
        g[3] * claims.is_first_in_sequence,
        g[0] * a + g[1] * b + g[2] * c,
        g[3] * d,
        m,
    );
    let batch = g[0] * claims.unexpanded_pc + g[1] * claims.pc + g[2] * claims.is_virtual + g[3]
        * claims.is_first_in_sequence;
    lemma_summand_congruent(
        last.combined_witness[0],
        last.eq_plus_one_r_cycle[0],
        g[4],
        last.is_noop[0],
        last.eq_plus_one_r_product[0],
        batch,
        eq_plus_one(params.r_cycle, point),
        claims.is_noop,
        eq_plus_one(params.r_product, point),
        m,
    );
    let f = last.term();
    assert(sum(f, 0) == 0);
    assert(sum(f, 1) == sum(f, 0) + f(0));
}

/// Every claim that the prover files is the value of its column at the point of the
/// challenges.
pub proof fn theorem_filed_claims_are_true(
    params: ShiftParams,
    trace: Seq<CycleRow>,
    challenges: Seq<int>,
    modulus: int,
)
    requires
        modulus > 0,
        trace.len() == pow2(challenges.len()),
    ensures
        ({
            let last = ShiftProver::initial(params, trace, modulus).after(challenges, modulus);
            let point = challenges.reverse();
            let claims = last.output_claims(point, modulus);
            &&& congruent(claims.unexpanded_pc, mle(unexpanded_pc_column(trace), point), modulus)
            &&& congruent(claims.pc, mle(pc_column(trace), point), modulus)
            &&& congruent(claims.is_virtual, mle(is_virtual_column(trace), point), modulus)
            &&& congruent(
                claims.is_first_in_sequence,
                mle(is_first_in_sequence_column(trace), point),
                modulus,
            )
            &&& congruent(claims.is_noop, mle(is_noop_column(trace), point), modulus)
        }),
{
    let m = modulus;
    let first = ShiftProver::initial(params, trace, m);
    let point = challenges.reverse();
    lemma_after(first, challenges, m);
    theorem_bound_table_is_the_extension(first.is_noop, challenges, m);
    lemma_residue(mle(unexpanded_pc_column(trace), point), m);
    lemma_residue(mle(pc_column(trace), point), m);
    lemma_residue(mle(is_virtual_column(trace), point), m);
    lemma_residue(mle(is_first_in_sequence_column(trace), point), m);
}

/// What a verifier asks of one round: with `message` the round polynomial at 0 and at
/// 2, its value at 1 taken from `claim`, `next_claim` is its value at `r`.
pub open spec fn round_checks(
    claim: int,
    message: Seq<int>,
    r: int,
    next_claim: int,
    modulus: int,
) -> bool {
    congruent(
        2 * next_claim,
        twice_interpolated(message[0], claim - message[0], message[1], r),
        modulus,
    )
}

proof fn lemma_interpolation_congruent(
    e0: int,
    e1: int,
    e2: int,
    f0: int,
    f1: int,
    f2: int,
    t: int,
    m: int,
)
    requires
        m > 0,
        congruent(e0, f0, m),
        congruent(e1, f1, m),
        congruent(e2, f2, m),
    ensures
        congruent(twice_interpolated(e0, e1, e2, t), twice_interpolated(f0, f1, f2, t), m),
{
    let (p, q, r) = ((t - 1) * (t - 2), t * (t - 2), t * (t - 1));
    lemma_congruent_mul(e0, p, f0, p, m);
    lemma_congruent_mul(e1, q, f1, q, m);
    lemma_congruent_mul(2, e1 * q, 2, f1 * q, m);
    lemma_congruent_mul(e2, r, f2, r, m);
    lemma_congruent_sub(e0 * p, 2 * (e1 * q), f0 * p, 2 * (f1 * q), m);
    lemma_congruent_add(
        e0 * p - 2 * (e1 * q),
        e2 * r,
        f0 * p - 2 * (f1 * q),
        f2 * r,
        m,
    );
}

/// The prover's message passes the check of the round, from the claim before the
/// binding to the claim after it.
pub proof fn theorem_message_passes_the_round(prover: ShiftProver, r: int, modulus: int)
    requires
        modulus > 0,
        prover.aligned(),
        prover.combined_witness.len() % 2 == 0,
    ensures
        round_checks(
            prover.claim(),
            prover.message(modulus),
            r,
            prover.bind(r, modulus).claim(),
            modulus,
        ),
{
    let m = modulus;
    let (e0, e1, e2) = (prover.round_poly(0), prover.round_poly(1), prover.round_poly(2));
    theorem_round_splits_claim(prover);
    theorem_bind_evaluates_round(prover, r, m);
    theorem_round_has_degree_two(prover, r);
    let next_claim = prover.bind(r, m).claim();
    lemma_congruent_mul(2, next_claim, 2, prover.round_poly(r), m);
    lemma_residue(e0, m);
    lemma_residue(e2, m);
    lemma_congruent_sub(prover.claim(), e0 % m, prover.claim(), e0, m);
    lemma_interpolation_congruent(
        e0 % m,
        prover.claim() - e0 % m,
        e2 % m,
        e0,
        e1,
        e2,
        r,
        m,
    );
}

/// The round check leaves one claim: modulo an odd number, two can be divided away.
proof fn lemma_round_determines(
    claim: int,
    other: int,
    message: Seq<int>,
    r: int,
    a: int,
    b: int,
    m: int,
)
    requires
        m > 1,
        m % 2 == 1,
        congruent(claim, other, m),
        round_checks(claim, message, r, a, m),
        round_checks(other, message, r, b, m),
    ensures
        congruent(a, b, m),
{
    lemma_congruent_sub(claim, message[0], other, message[0], m);
    lemma_interpolation_congruent(
        message[0],
        claim - message[0],
        message[1],
        message[0],
        other - message[0],
        message[1],
        r,
        m,
    );
    let half = (m + 1) / 2;
    assert(2 * half == m + 1);
    lemma_congruent_mul(2 * a, half, 2 * b, half, m);
    assert((2 * a) * half == a + a * m) by (nonlinear_arith)
        requires
            2 * half == m + 1,
    ;
    assert((2 * b) * half == b + b * m) by (nonlinear_arith)
        requires
            2 * half == m + 1,
    ;
    vstd::arithmetic::div_mod::lemma_mod_multiples_vanish(a, a, m);
    vstd::arithmetic::div_mod::lemma_mod_multiples_vanish(b, b, m);
    assert(a * m == m * a) by (nonlinear_arith);
    assert(b * m == m * b) by (nonlinear_arith);
}

/// The prover after the first `k` rounds.
pub open spec fn prover_at(
    params: ShiftParams,
    trace: Seq<CycleRow>,
    challenges: Seq<int>,
    k: int,
    modulus: int,
) -> ShiftProver {
    ShiftProver::initial(params, trace, modulus).after(challenges.take(k), modulus)
}

/// `claims` is what a verifier computes along the way: the input claim first, then
/// from each message and challenge the claim of the next round.
pub open spec fn verifier_claims(
    params: ShiftParams,
    trace: Seq<CycleRow>,
    openings: Map<OpeningId, Opening>,
    challenges: Seq<int>,
    claims: Seq<int>,
    modulus: int,
) -> bool {
    &&& claims.len() == challenges.len() + 1
    &&& congruent(claims[0], shift_input_claim(params, openings), modulus)
    &&& forall|k: int|
        0 <= k < challenges.len() ==> round_checks(
            claims[k],
            (#[trigger] prover_at(params, trace, challenges, k, modulus)).message(modulus),
            challenges[k],
            claims[k + 1],
            modulus,
        )
}

/// The sums that are left after each round.
pub open spec fn sums_left(
    params: ShiftParams,
    trace: Seq<CycleRow>,
    challenges: Seq<int>,
    modulus: int,
) -> Seq<int> {
    Seq::new(
        challenges.len() + 1,
        |k: int| prover_at(params, trace, challenges, k, modulus).claim(),
    )
}

/// Until the last round the prover's tables are aligned and can be bound once more.
pub proof fn theorem_prover_stays_aligned(
    params: ShiftParams,
    trace: Seq<CycleRow>,
    challenges: Seq<int>,
    k: int,
    modulus: int,
)
    requires
        modulus > 0,
        params.wf(),
        trace.len() == pow2(params.n_cycle_vars),
        challenges.len() == params.n_cycle_vars,
        0 <= k <= challenges.len(),
    ensures
        prover_at(params, trace, challenges, k, modulus).aligned(),
        prover_at(params, trace, challenges, k, modulus).combined_witness.len() == pow2(
            (params.n_cycle_vars - k) as nat,
        ),
        k < challenges.len() ==> prover_at(
            params,
            trace,
            challenges,
            k,
            modulus,
        ).combined_witness.len() % 2 == 0,
    decreases k,
{
    let first = ShiftProver::initial(params, trace, modulus);
    if k == 0 {
        assert(challenges.take(0).len() == 0);
    } else {
        theorem_prover_stays_aligned(params, trace, challenges, k - 1, modulus);
        let before = prover_at(params, trace, challenges, k - 1, modulus);
        assert(challenges.take(k).drop_last() =~= challenges.take(k - 1));
        theorem_bind_evaluates_round(before, challenges[k - 1], modulus);
        lemma_pow2_unfold((params.n_cycle_vars - (k - 1)) as nat);
    }
    if k < challenges.len() {
        lemma_pow2_unfold((params.n_cycle_vars - k) as nat);
    }
}

/// From true input claims the sums that are left pass the check of every round.
pub proof fn theorem_sums_pass_every_round(
    params: ShiftParams,
    trace: Seq<CycleRow>,
    openings: Map<OpeningId, Opening>,
    challenges: Seq<int>,
    modulus: int,
)
    requires
        modulus > 0,
        params.wf(),
        trace.len() == pow2(params.n_cycle_vars),
        challenges.len() == params.n_cycle_vars,
        input_claims_hold(openings, params, trace, modulus),
    ensures
        verifier_claims(
            params,
            trace,
            openings,
            challenges,
            sums_left(params, trace, challenges, modulus),
            modulus,
        ),
{
    let m = modulus;
    let claims = sums_left(params, trace, challenges, m);
    assert(challenges.take(0).len() == 0);
    theorem_input_claim_is_the_sum(params, trace, openings, m);
    assert forall|k: int| 0 <= k < challenges.len() implies round_checks(
        claims[k],
        (#[trigger] prover_at(params, trace, challenges, k, m)).message(m),
        challenges[k],
        claims[k + 1],
        m,
    ) by {
        let before = prover_at(params, trace, challenges, k, m);
        theorem_prover_stays_aligned(params, trace, challenges, k, m);
        theorem_message_passes_the_round(before, challenges[k], m);
        assert(challenges.take(k + 1).drop_last() =~= challenges.take(k));
    }
}

/// Along an honest run the verifier's claims are the sums that are left.
proof fn lemma_claims_are_the_sums(
    params: ShiftParams,
    trace: Seq<CycleRow>,
    openings: Map<OpeningId, Opening>,
    challenges: Seq<int>,
    claims: Seq<int>,
    k: int,
    modulus: int,
)
    requires
        modulus > 1,
        modulus % 2 == 1,
        params.wf(),
        trace.len() == pow2(params.n_cycle_vars),
        challenges.len() == params.n_cycle_vars,
        input_claims_hold(openings, params, trace, modulus),
        verifier_claims(params, trace, openings, challenges, claims, modulus),
        0 <= k <= challenges.len(),
    ensures
        congruent(claims[k], prover_at(params, trace, challenges, k, modulus).claim(), modulus),
    decreases k,
{
    let m = modulus;
    if k == 0 {
        assert(challenges.take(0).len() == 0);
        theorem_input_claim_is_the_sum(params, trace, openings, m);
    } else {
        lemma_claims_are_the_sums(params, trace, openings, challenges, claims, k - 1, m);
        theorem_prover_stays_aligned(params, trace, challenges, k - 1, m);
        let before = prover_at(params, trace, challenges, k - 1, m);
        let r = challenges[k - 1];
        theorem_message_passes_the_round(before, r, m);
        assert(challenges.take(k).drop_last() =~= challenges.take(k - 1));
        assert(prover_at(params, trace, challenges, k, m) == before.bind(r, m));
        lemma_round_determines(
            claims[k - 1],
            before.claim(),
            before.message(m),
            r,
            claims[k],
            before.bind(r, m).claim(),
            m,
        );
    }
}

/// Completeness: from true input claims, whatever the challenges are, the verifier
/// who follows the prover's messages arrives at the output claim that it expects of
/// the openings that the prover files. The modulus is odd, so that a polynomial of
/// degree 2 can be interpolated.
pub proof fn theorem_honest_prover_is_accepted(
    params: ShiftParams,
    trace: Seq<CycleRow>,
    openings: Map<OpeningId, Opening>,
    challenges: Seq<int>,
    claims: Seq<int>,
    modulus: int,
)
    requires
        modulus > 1,
        modulus % 2 == 1,
        params.wf(),
        trace.len() == pow2(params.n_cycle_vars),
        challenges.len() == params.n_cycle_vars,
        input_claims_hold(openings, params, trace, modulus),
        verifier_claims(params, trace, openings, challenges, claims, modulus),
    ensures
        congruent(
            claims.last(),
            ShiftProver::initial(params, trace, modulus).after(challenges, modulus).output_claims(
                challenges.reverse(),
                modulus,
            ).expected_output(params, challenges.reverse()),
            modulus,
        ),
{
    let n = challenges.len() as int;
    lemma_claims_are_the_sums(params, trace, openings, challenges, claims, n, modulus);
    assert(challenges.take(n) =~= challenges);
    theorem_last_claim_is_expected(params, trace, challenges, modulus);
}

/// Claims that are filed are read back as they were, at the point they were filed
/// for, and no other opening changes.
pub proof fn theorem_filed_claims_are_read_back(
    claims: ShiftClaims,
    openings: Map<OpeningId, Opening>,
    point: Seq<int>,
    id: OpeningId,
)
    ensures
        ShiftClaims::filed(claims.file(openings, point)) == claims,
        claims.file(openings, point)[shift_unexpanded_pc()].point == point,
        claims.file(openings, point)[shift_pc()].point == point,
        claims.file(openings, point)[shift_is_virtual()].point == point,
        claims.file(openings, point)[shift_is_first_in_sequence()].point == point,
        claims.file(openings, point)[shift_is_noop()].point == point,
        ({
            ||| id == shift_unexpanded_pc()
            ||| id == shift_pc()
            ||| id == shift_is_virtual()
            ||| id == shift_is_first_in_sequence()
            ||| id == shift_is_noop()
            ||| {
                &&& claims.file(openings, point).contains_key(id) == openings.contains_key(id)
                &&& claims.file(openings, point)[id] == openings[id]
            }
        }),
{
}

/// A prover and a verifier whose transcripts are in the same state, and whose
/// openings have the same points, get the same parameters, and their transcripts are
/// in the same state again.
pub proof fn theorem_both_sides_get_the_same_params(
    prover_state: TranscriptState,
    verifier_state: TranscriptState,
    prover_openings: Map<OpeningId, Opening>,
    verifier_openings: Map<OpeningId, Opening>,
    num_steps: usize,
    modulus: int,
)
    requires
        prover_state == verifier_state,
        prover_openings[next_pc()].point == verifier_openings[next_pc()].point,
        prover_openings[next_is_noop()].point == verifier_openings[next_is_noop()].point,
    ensures
        shift_params(
            prover_state.next_challenge(),
            prover_openings,
            num_steps,
            modulus,
        ) == shift_params(
            verifier_state.next_challenge(),
            verifier_openings,
            num_steps,
            modulus,
        ),
        prover_state.draw() == verifier_state.draw(),
{
}

/// On the same parameters and the same claims about the next cycle, both sides start
/// from the same claim.
pub proof fn theorem_both_sides_start_from_the_same_claim(
    params: ShiftParams,
    prover_openings: Map<OpeningId, Opening>,
    verifier_openings: Map<OpeningId, Opening>,
)
    requires
        prover_openings[next_pc()].claim == verifier_openings[next_pc()].claim,
        prover_openings[next_unexpanded_pc()].claim
            == verifier_openings[next_unexpanded_pc()].claim,
        prover_openings[next_is_virtual()].claim == verifier_openings[next_is_virtual()].claim,
        prover_openings[next_is_first_in_sequence()].claim
            == verifier_openings[next_is_first_in_sequence()].claim,
        prover_openings[next_is_noop()].claim == verifier_openings[next_is_noop()].claim,
    ensures
        shift_input_claim(params, prover_openings) == shift_input_claim(params, verifier_openings),
{
}

/// A verifier that was given the prover's claims files what the prover files, and
/// transcripts that were in the same state are in the same state again.
pub proof fn theorem_both_sides_file_the_same(
    claims: ShiftClaims,
    prover_state: TranscriptState,
    verifier_state: TranscriptState,
    prover_openings: Map<OpeningId, Opening>,
    verifier_openings: Map<OpeningId, Opening>,
    point: Seq<int>,
    id: OpeningId,
)
    requires
        prover_state == verifier_state,
        ShiftClaims::filed(verifier_openings) == claims,
        id == shift_unexpanded_pc() || id == shift_pc() || id == shift_is_virtual() || id
            == shift_is_first_in_sequence() || id == shift_is_noop(),
    ensures
        ShiftClaims::filed(verifier_openings).file(verifier_openings, point)[id] == claims.file(
            prover_openings,
            point,
        )[id],
        verifier_state.absorb_all(ShiftClaims::filed(verifier_openings).absorbed())
            == prover_state.absorb_all(claims.absorbed()),
{
}

} // verus!
