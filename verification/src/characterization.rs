//! What the definitions of the model come to.
//!
//! Every notion that the contracts speak of is tied here to the data that it is
//! about: to the fields of a row, to the entries of a table, to the openings by their
//! names, to the challenges that a transcript gives. Where a notion is fixed by how it
//! behaves (the extension of a table, the batch as a polynomial in its scalar, the
//! steps of a transcript), that behaviour is what is proved.
use crate::accumulator::{
    opening_id, CircuitFlags, InstructionFlags, Opening, OpeningId, SumcheckId, VirtualPolynomial,
};
use crate::completeness::{
    bound_all, input_claims_hold, next_is_noop_column, prover_at, round_checks, sums_left,
    twice_interpolated, verifier_claims,
};
use crate::field::{challenge_values, flag_value, values, JoltField};
use crate::mersenne61::Mersenne61;
use crate::model::{
    cycle_vars, has_input_claims, has_output_claims, has_points, next_is_first_in_sequence,
    next_is_noop, next_is_virtual, next_pc, next_unexpanded_pc, shift_input_claim,
    shift_is_first_in_sequence, shift_is_noop, shift_is_virtual, shift_params, shift_pc,
    shift_unexpanded_pc, ShiftClaims, ShiftParams, ShiftProver,
};
use crate::modular::{
    congruent, lemma_congruent_add, lemma_congruent_mul, lemma_residue, reduced,
};
use crate::multilinear::{
    bits, bound, eq_at, eq_plus_one, eq_plus_one_at, eq_plus_one_table, eq_table, lemma_bits_len,
    lemma_eq_at_bits, lemma_mle_linear, line, mle, mle_term, next,
    theorem_extension_agrees_on_indices,
};
use crate::opening::OpeningPoint;
use crate::sums::sum;
use crate::transcript::{draws, event, public_coins, recorded, Entry, Event, TranscriptState};
use crate::witness::{
    combined_column, is_first_in_sequence_column, is_noop_column, is_virtual_column, pc_column,
    unexpanded_pc_column, CycleRow,
};
use vstd::arithmetic::div_mod::{
    lemma_div_denominator, lemma_fundamental_div_mod, lemma_mod_multiples_vanish, lemma_small_mod,
};
use vstd::arithmetic::logarithm::log;
use vstd::arithmetic::power::pow;
use vstd::arithmetic::power2::{
    lemma2_to64, lemma2_to64_rest, lemma_pow2_pos, lemma_pow2_strictly_increases, lemma_pow2_unfold,
    pow2,
};
use vstd::prelude::*;

verus! {

/// Two integers are congruent where the modulus divides their difference.
pub proof fn theorem_congruent_means_divisible(a: int, b: int, m: int)
    requires
        m > 0,
    ensures
        congruent(a, b, m) <==> exists|k: int| a - b == #[trigger] (k * m),
{
    lemma_fundamental_div_mod(a, m);
    lemma_fundamental_div_mod(b, m);
    if congruent(a, b, m) {
        let k = a / m - b / m;
        assert(m * (a / m) - m * (b / m) == k * m) by (nonlinear_arith)
            requires
                k == a / m - b / m,
        ;
        assert(a - b == k * m);
    }
    if exists|k: int| a - b == #[trigger] (k * m) {
        let k = choose|k: int| a - b == #[trigger] (k * m);
        lemma_mod_multiples_vanish(k, b, m);
        assert(k * m == m * k) by (nonlinear_arith);
    }
}

/// Reducing keeps the length and takes every entry to its remainder.
pub proof fn theorem_reduced_entries(s: Seq<int>, m: int, i: int)
    requires
        m > 0,
        0 <= i < s.len(),
    ensures
        reduced(s, m).len() == s.len(),
        reduced(s, m)[i] == s[i] % m,
        0 <= reduced(s, m)[i] < m,
{
}

/// A sum grows by one term at a time, from zero.
pub proof fn theorem_sum_by_steps(f: spec_fn(int) -> int, n: int)
    requires
        n >= 0,
    ensures
        sum(f, 0) == 0,
        sum(f, n + 1) == sum(f, n) + f(n),
{
}

/// The model of field elements and challenges keeps their number and order.
pub proof fn theorem_values_entries<F: JoltField>(s: Seq<F>, c: Seq<F::Challenge>, i: int)
    ensures
        values(s).len() == s.len(),
        challenge_values::<F>(c).len() == c.len(),
        0 <= i < s.len() ==> values(s)[i] == s[i].value(),
        0 <= i < c.len() ==> challenge_values::<F>(c)[i] == F::challenge_value(c[i]),
{
}

/// A point is its coordinates, in the order in which they are held.
pub proof fn theorem_point_is_its_coordinates<const E: bool, F: JoltField>(
    point: OpeningPoint<E, F>,
    i: int,
)
    ensures
        point@.len() == point.r@.len(),
        0 <= i < point.r@.len() ==> point@[i] == F::challenge_value(point.r@[i]),
{
}

/// The instance: its modulus is `2^61 - 1` and a challenge stands for itself.
pub proof fn theorem_mersenne61_model(c: u32)
    ensures
        Mersenne61::modulus() == pow2(61) - 1,
        Mersenne61::challenge_value(c) == c as int,
{
    lemma2_to64();
    lemma2_to64_rest();
}

/// Every column reads its own field of a row, whatever the other fields are.
pub proof fn theorem_columns_read_their_fields(trace: Seq<CycleRow>, t: int)
    requires
        0 <= t < trace.len(),
    ensures
        unexpanded_pc_column(trace).len() == trace.len(),
        pc_column(trace).len() == trace.len(),
        is_virtual_column(trace).len() == trace.len(),
        is_first_in_sequence_column(trace).len() == trace.len(),
        is_noop_column(trace).len() == trace.len(),
        unexpanded_pc_column(trace)[t] == trace[t].unexpanded_pc,
        pc_column(trace)[t] == trace[t].pc,
        is_virtual_column(trace)[t] == (if trace[t].is_virtual {
            1int
        } else {
            0
        }),
        is_first_in_sequence_column(trace)[t] == (if trace[t].is_first_in_sequence {
            1int
        } else {
            0
        }),
        is_noop_column(trace)[t] == (if trace[t].is_noop {
            1int
        } else {
            0
        }),
        flag_value(true) == 1,
        flag_value(false) == 0,
{
}

/// Opened at the bits of a cycle, every column gives what the row of that cycle says.
pub proof fn theorem_opened_columns_are_the_rows(trace: Seq<CycleRow>, n: nat, t: int)
    requires
        trace.len() == pow2(n),
        0 <= t < trace.len(),
    ensures
        mle(unexpanded_pc_column(trace), bits(n, t)) == trace[t].unexpanded_pc,
        mle(pc_column(trace), bits(n, t)) == trace[t].pc,
        trace[t].is_virtual ==> mle(is_virtual_column(trace), bits(n, t)) == 1,
        !trace[t].is_virtual ==> mle(is_virtual_column(trace), bits(n, t)) == 0,
        trace[t].is_first_in_sequence ==> mle(is_first_in_sequence_column(trace), bits(n, t)) == 1,
        !trace[t].is_first_in_sequence ==> mle(is_first_in_sequence_column(trace), bits(n, t)) == 0,
        trace[t].is_noop ==> mle(is_noop_column(trace), bits(n, t)) == 1,
        !trace[t].is_noop ==> mle(is_noop_column(trace), bits(n, t)) == 0,
{
    theorem_extension_agrees_on_indices(unexpanded_pc_column(trace), n, t);
    theorem_extension_agrees_on_indices(pc_column(trace), n, t);
    theorem_extension_agrees_on_indices(is_virtual_column(trace), n, t);
    theorem_extension_agrees_on_indices(is_first_in_sequence_column(trace), n, t);
    theorem_extension_agrees_on_indices(is_noop_column(trace), n, t);
}

/// One cycle later every column has the field of the next row. After the last cycle
/// come zeros, and padding.
pub proof fn theorem_next_columns_read_the_next_row(trace: Seq<CycleRow>, t: int)
    requires
        0 <= t < trace.len(),
    ensures
        next(unexpanded_pc_column(trace)).len() == trace.len(),
        next(pc_column(trace)).len() == trace.len(),
        next(is_virtual_column(trace)).len() == trace.len(),
        next(is_first_in_sequence_column(trace)).len() == trace.len(),
        next_is_noop_column(trace).len() == trace.len(),
        t + 1 < trace.len() ==> {
            let row = trace[t + 1];
            &&& next(unexpanded_pc_column(trace))[t] == row.unexpanded_pc
            &&& next(pc_column(trace))[t] == row.pc
            &&& next(is_virtual_column(trace))[t] == (if row.is_virtual {
                1int
            } else {
                0
            })
            &&& next(is_first_in_sequence_column(trace))[t] == (if row.is_first_in_sequence {
                1int
            } else {
                0
            })
            &&& next_is_noop_column(trace)[t] == (if row.is_noop {
                1int
            } else {
                0
            })
        },
        t + 1 == trace.len() ==> {
            &&& next(unexpanded_pc_column(trace))[t] == 0
            &&& next(pc_column(trace))[t] == 0
            &&& next(is_virtual_column(trace))[t] == 0
            &&& next(is_first_in_sequence_column(trace))[t] == 0
            &&& next_is_noop_column(trace)[t] == 1
        },
{
}

/// A table one index later: what stood at `i + 1` stands at `i`, and 0 at the end.
pub proof fn theorem_next_shifts(table: Seq<int>, i: int)
    requires
        0 <= i < table.len(),
    ensures
        next(table).len() == table.len(),
        i + 1 < table.len() ==> next(table)[i] == table[i + 1],
        i + 1 == table.len() ==> next(table)[i] == 0,
{
}

/// The number of cycle variables is the logarithm of the number of cycles, rounded
/// down: a padded trace of `num_steps` cycles has one cycle for every index.
pub proof fn theorem_cycle_vars_is_the_logarithm(num_steps: usize)
    requires
        num_steps > 0,
    ensures
        pow2(cycle_vars(num_steps)) <= num_steps < pow2(cycle_vars(num_steps) + 1),
        forall|n: nat| num_steps == #[trigger] pow2(n) ==> cycle_vars(num_steps) == n,
{
    lemma_log_bounds(num_steps as int);
    assert forall|n: nat| num_steps == #[trigger] pow2(n) implies cycle_vars(num_steps) == n by {
        let k = cycle_vars(num_steps);
        if k < n {
            if k + 1 < n {
                lemma_pow2_strictly_increases(k + 1, n);
            }
        } else if k > n {
            lemma_pow2_strictly_increases(n, k);
        }
    }
}

proof fn lemma_log_bounds(n: int)
    requires
        n > 0,
    ensures
        log(2, n) >= 0,
        pow2(log(2, n) as nat) <= n < pow2((log(2, n) + 1) as nat),
    decreases n,
{
    reveal(log);
    if n < 2 {
        lemma2_to64();
    } else {
        lemma_log_bounds(n / 2);
        let k = log(2, n / 2);
        assert(log(2, n) == k + 1);
        lemma_pow2_unfold((k + 1) as nat);
        lemma_pow2_unfold((k + 2) as nat);
    }
}

proof fn lemma_power_products(g: int)
    ensures
        pow(g, 0) == 1,
        pow(g, 1) == g,
        pow(g, 2) == g * g,
        pow(g, 3) == g * g * g,
        pow(g, 4) == g * g * g * g,
{
    reveal_with_fuel(pow, 5);
    assert(g * (g * (g * 1)) == g * g * g) by (nonlinear_arith);
    assert(g * (g * (g * (g * 1))) == g * g * g * g) by (nonlinear_arith);
}

/// The parameters: `gamma_powers` starts at 1 and every entry is the one before times
/// the scalar; the two points are the first coordinates, one per cycle variable, of
/// the points at which `NextPC` and `NextIsNoop` were opened.
pub proof fn theorem_params_from_scalar_and_points(
    gamma: int,
    openings: Map<OpeningId, Opening>,
    num_steps: usize,
    modulus: int,
)
    requires
        modulus > 1,
        num_steps > 0,
    ensures
        ({
            let params = shift_params(gamma, openings, num_steps, modulus);
            let g = params.gamma_powers;
            let n = params.n_cycle_vars;
            let outer = openings[
                OpeningId {
                    polynomial: VirtualPolynomial::NextPC,
                    sumcheck: SumcheckId::SpartanOuter,
                }
            ].point;
            let product = openings[
                OpeningId {
                    polynomial: VirtualPolynomial::NextIsNoop,
                    sumcheck: SumcheckId::ProductVirtualization,
                }
            ].point;
            &&& g.len() == 5
            &&& g[0] == 1
            &&& forall|i: int|
                #![trigger g[i + 1]]
                0 <= i < 4 ==> g[i + 1] == (g[i] * gamma) % modulus
            &&& pow2(n) <= num_steps < pow2(n + 1)
            &&& outer.len() >= n ==> params.r_cycle.len() == n
            &&& outer.len() >= n ==> forall|i: int|
                0 <= i < n ==> #[trigger] params.r_cycle[i] == outer[i]
            &&& product.len() >= n ==> params.r_product.len() == n
            &&& product.len() >= n ==> forall|i: int|
                0 <= i < n ==> #[trigger] params.r_product[i] == product[i]
        }),
{
    theorem_cycle_vars_is_the_logarithm(num_steps);
    let m = modulus;
    let g = shift_params(gamma, openings, num_steps, m).gamma_powers;
    lemma_power_products(gamma);
    lemma_small_mod(1, m as nat);
    assert forall|i: int| #![trigger g[i + 1]] 0 <= i < 4 implies g[i + 1] == (g[i] * gamma)
        % m by {
        let p = pow(gamma, i as nat);
        lemma_residue(p, m);
        lemma_congruent_mul(p % m, gamma, p, gamma, m);
        assert(pow(gamma, (i + 1) as nat) == p * gamma) by {
            reveal(pow);
            assert(pow(gamma, (i + 1) as nat) == gamma * pow(gamma, i as nat));
            assert(gamma * p == p * gamma) by (nonlinear_arith);
        }
    }
}

/// The entries of `gamma_powers` stand for products of the scalar.
proof fn lemma_gamma_powers(
    gamma: int,
    openings: Map<OpeningId, Opening>,
    num_steps: usize,
    modulus: int,
)
    requires
        modulus > 0,
    ensures
        ({
            let g = shift_params(gamma, openings, num_steps, modulus).gamma_powers;
            &&& congruent(g[0], 1, modulus)
            &&& congruent(g[1], gamma, modulus)
            &&& congruent(g[2], gamma * gamma, modulus)
            &&& congruent(g[3], gamma * gamma * gamma, modulus)
            &&& congruent(g[4], gamma * gamma * gamma * gamma, modulus)
        }),
{
    lemma_power_products(gamma);
    lemma_residue(1, modulus);
    lemma_residue(gamma, modulus);
    lemma_residue(gamma * gamma, modulus);
    lemma_residue(gamma * gamma * gamma, modulus);
    lemma_residue(gamma * gamma * gamma * gamma, modulus);
}

/// Four products and what they are congruent to, added up.
proof fn lemma_add_four(
    a: int,
    b: int,
    c: int,
    d: int,
    a1: int,
    b1: int,
    c1: int,
    d1: int,
    m: int,
)
    requires
        m > 0,
        congruent(a, a1, m),
        congruent(b, b1, m),
        congruent(c, c1, m),
        congruent(d, d1, m),
    ensures
        congruent(a + b + c + d, a1 + b1 + c1 + d1, m),
{
    lemma_congruent_add(a, b, a1, b1, m);
    lemma_congruent_add(a + b, c, a1 + b1, c1, m);
    lemma_congruent_add(a + b + c, d, a1 + b1 + c1, d1, m);
}

/// As a polynomial in the scalar, the batch of a cycle has the four fields of its row
/// as coefficients: none is batched with another's power.
pub proof fn theorem_batched_row_is_a_polynomial_in_gamma(
    trace: Seq<CycleRow>,
    t: int,
    gamma: int,
    openings: Map<OpeningId, Opening>,
    num_steps: usize,
    modulus: int,
)
    requires
        modulus > 0,
        0 <= t < trace.len(),
    ensures
        ({
            let params = shift_params(gamma, openings, num_steps, modulus);
            let row = trace[t];
            let v = if row.is_virtual {
                1int
            } else {
                0
            };
            let f = if row.is_first_in_sequence {
                1int
            } else {
                0
            };
            congruent(
                ShiftProver::initial(params, trace, modulus).combined_witness[t],
                row.unexpanded_pc + gamma * row.pc + gamma * gamma * v + gamma * gamma * gamma * f,
                modulus,
            )
        }),
{
    let m = modulus;
    let g = shift_params(gamma, openings, num_steps, m).gamma_powers;
    let row = trace[t];
    let (u, p) = (row.unexpanded_pc as int, row.pc as int);
    let (v, f) = (flag_value(row.is_virtual), flag_value(row.is_first_in_sequence));
    lemma_gamma_powers(gamma, openings, num_steps, m);
    lemma_congruent_mul(g[0], u, 1, u, m);
    lemma_congruent_mul(g[1], p, gamma, p, m);
    lemma_congruent_mul(g[2], v, gamma * gamma, v, m);
    lemma_congruent_mul(g[3], f, gamma * gamma * gamma, f, m);
    lemma_add_four(
        g[0] * u,
        g[1] * p,
        g[2] * v,
        g[3] * f,
        1 * u,
        gamma * p,
        gamma * gamma * v,
        gamma * gamma * gamma * f,
        m,
    );
    lemma_residue(combined_column(trace, g)[t], m);
}

/// As a polynomial in the scalar, the input claim has the five claims about the next
/// cycle as coefficients, each found under its own name.
pub proof fn theorem_input_claim_is_a_polynomial_in_gamma(
    gamma: int,
    openings: Map<OpeningId, Opening>,
    num_steps: usize,
    modulus: int,
)
    requires
        modulus > 0,
    ensures
        ({
            let outer = SumcheckId::SpartanOuter;
            let product = SumcheckId::ProductVirtualization;
            let claim = |polynomial: VirtualPolynomial, sumcheck: SumcheckId|
                openings[OpeningId { polynomial, sumcheck }].claim;
            congruent(
                shift_input_claim(shift_params(gamma, openings, num_steps, modulus), openings),
                claim(VirtualPolynomial::NextUnexpandedPC, outer) + gamma * claim(
                    VirtualPolynomial::NextPC,
                    outer,
                ) + gamma * gamma * claim(VirtualPolynomial::NextIsVirtual, outer) + gamma * gamma
                    * gamma * claim(VirtualPolynomial::NextIsFirstInSequence, outer) + gamma * gamma
                    * gamma * gamma * (1 - claim(VirtualPolynomial::NextIsNoop, product)),
                modulus,
            )
        }),
{
    let m = modulus;
    let g = shift_params(gamma, openings, num_steps, m).gamma_powers;
    let (a, b, c, d, e) = (
        openings[next_unexpanded_pc()].claim,
        openings[next_pc()].claim,
        openings[next_is_virtual()].claim,
        openings[next_is_first_in_sequence()].claim,
        1 - openings[next_is_noop()].claim,
    );
    let (g1, g2, g3, g4) = (
        gamma,
        gamma * gamma,
        gamma * gamma * gamma,
        gamma * gamma * gamma * gamma,
    );
    lemma_gamma_powers(gamma, openings, num_steps, m);
    lemma_congruent_mul(b, g[1], b, g1, m);
    lemma_congruent_mul(c, g[2], c, g2, m);
    lemma_congruent_mul(d, g[3], d, g3, m);
    lemma_congruent_mul(e, g[4], e, g4, m);
    lemma_add_four(a, b * g[1], c * g[2], d * g[3], a, b * g1, c * g2, d * g3, m);
    lemma_congruent_add(
        a + b * g[1] + c * g[2] + d * g[3],
        e * g[4],
        a + b * g1 + c * g2 + d * g3,
        e * g4,
        m,
    );
    assert(b * g1 == g1 * b) by (nonlinear_arith);
    assert(c * g2 == g2 * c) by (nonlinear_arith);
    assert(d * g3 == g3 * d) by (nonlinear_arith);
    assert(e * g4 == g4 * e) by (nonlinear_arith);
}

/// Both claims of the sumcheck for any parameters: every claim is weighted by the
/// power that has its place, and the activity of a cycle is one minus its padding.
pub proof fn theorem_claims_by_place(
    params: ShiftParams,
    openings: Map<OpeningId, Opening>,
    claims: ShiftClaims,
    point: Seq<int>,
)
    ensures
        ({
            let g = params.gamma_powers;
            let outer = SumcheckId::SpartanOuter;
            let product = SumcheckId::ProductVirtualization;
            let claim = |polynomial: VirtualPolynomial, sumcheck: SumcheckId|
                openings[OpeningId { polynomial, sumcheck }].claim;
            shift_input_claim(params, openings) == claim(VirtualPolynomial::NextUnexpandedPC, outer)
                + claim(VirtualPolynomial::NextPC, outer) * g[1] + claim(
                VirtualPolynomial::NextIsVirtual,
                outer,
            ) * g[2] + claim(VirtualPolynomial::NextIsFirstInSequence, outer) * g[3] + g[4]
                - claim(VirtualPolynomial::NextIsNoop, product) * g[4]
        }),
        ({
            let g = params.gamma_powers;
            let cycle = eq_plus_one(params.r_cycle, point);
            let product = eq_plus_one(params.r_product, point);
            claims.expected_output(params, point) == (g[0] * claims.unexpanded_pc + g[1] * claims.pc
                + g[2] * claims.is_virtual + g[3] * claims.is_first_in_sequence) * cycle + g[4] * (1
                - claims.is_noop) * product
        }),
{
    let c = openings[next_is_noop()].claim;
    let g4 = params.gamma_powers[4];
    assert((1 - c) * g4 == g4 - c * g4) by (nonlinear_arith);
}

/// As a polynomial in the scalar, the expected output claim has the claims about the
/// columns as coefficients, each weighted at its own point.
pub proof fn theorem_expected_output_is_a_polynomial_in_gamma(
    claims: ShiftClaims,
    gamma: int,
    openings: Map<OpeningId, Opening>,
    num_steps: usize,
    point: Seq<int>,
    modulus: int,
)
    requires
        modulus > 0,
    ensures
        ({
            let params = shift_params(gamma, openings, num_steps, modulus);
            let cycle = eq_plus_one(params.r_cycle, point);
            let product = eq_plus_one(params.r_product, point);
            congruent(
                claims.expected_output(params, point),
                (claims.unexpanded_pc + gamma * claims.pc + gamma * gamma * claims.is_virtual
                    + gamma * gamma * gamma * claims.is_first_in_sequence) * cycle + gamma * gamma
                    * gamma * gamma * (1 - claims.is_noop) * product,
                modulus,
            )
        }),
{
    let m = modulus;
    let params = shift_params(gamma, openings, num_steps, m);
    let g = params.gamma_powers;
    let (u, p, v, f, a) = (
        claims.unexpanded_pc,
        claims.pc,
        claims.is_virtual,
        claims.is_first_in_sequence,
        1 - claims.is_noop,
    );
    let (g2, g3, g4) = (
        gamma * gamma,
        gamma * gamma * gamma,
        gamma * gamma * gamma * gamma,
    );
    let cycle = eq_plus_one(params.r_cycle, point);
    let product = eq_plus_one(params.r_product, point);
    lemma_gamma_powers(gamma, openings, num_steps, m);
    lemma_congruent_mul(g[0], u, 1, u, m);
    lemma_congruent_mul(g[1], p, gamma, p, m);
    lemma_congruent_mul(g[2], v, g2, v, m);
    lemma_congruent_mul(g[3], f, g3, f, m);
    lemma_congruent_mul(g[4], a, g4, a, m);
    lemma_add_four(
        g[0] * u,
        g[1] * p,
        g[2] * v,
        g[3] * f,
        1 * u,
        gamma * p,
        g2 * v,
        g3 * f,
        m,
    );
    let batch = g[0] * u + g[1] * p + g[2] * v + g[3] * f;
    let batch1 = u + gamma * p + g2 * v + g3 * f;
    lemma_congruent_mul(batch, cycle, batch1, cycle, m);
    lemma_congruent_mul(g[4] * a, product, g4 * a, product, m);
    lemma_congruent_add(
        batch * cycle,
        g[4] * a * product,
        batch1 * cycle,
        g4 * a * product,
        m,
    );
}

/// Openings are filed under the polynomial and the sumcheck that they are named for.
pub proof fn theorem_ids_by_name(polynomial: VirtualPolynomial, sumcheck: SumcheckId)
    ensures
        opening_id(polynomial, sumcheck) == (OpeningId { polynomial, sumcheck }),
        next_pc() == (OpeningId {
            polynomial: VirtualPolynomial::NextPC,
            sumcheck: SumcheckId::SpartanOuter,
        }),
        next_unexpanded_pc() == (OpeningId {
            polynomial: VirtualPolynomial::NextUnexpandedPC,
            sumcheck: SumcheckId::SpartanOuter,
        }),
        next_is_virtual() == (OpeningId {
            polynomial: VirtualPolynomial::NextIsVirtual,
            sumcheck: SumcheckId::SpartanOuter,
        }),
        next_is_first_in_sequence() == (OpeningId {
            polynomial: VirtualPolynomial::NextIsFirstInSequence,
            sumcheck: SumcheckId::SpartanOuter,
        }),
        next_is_noop() == (OpeningId {
            polynomial: VirtualPolynomial::NextIsNoop,
            sumcheck: SumcheckId::ProductVirtualization,
        }),
        shift_unexpanded_pc() == (OpeningId {
            polynomial: VirtualPolynomial::UnexpandedPC,
            sumcheck: SumcheckId::SpartanShift,
        }),
        shift_pc() == (OpeningId {
            polynomial: VirtualPolynomial::PC,
            sumcheck: SumcheckId::SpartanShift,
        }),
        shift_is_virtual() == (OpeningId {
            polynomial: VirtualPolynomial::OpFlags(CircuitFlags::VirtualInstruction),
            sumcheck: SumcheckId::SpartanShift,
        }),
        shift_is_first_in_sequence() == (OpeningId {
            polynomial: VirtualPolynomial::OpFlags(CircuitFlags::IsFirstInSequence),
            sumcheck: SumcheckId::SpartanShift,
        }),
        shift_is_noop() == (OpeningId {
            polynomial: VirtualPolynomial::InstructionFlags(InstructionFlags::IsNoop),
            sumcheck: SumcheckId::SpartanShift,
        }),
{
}

/// What each side asks of the openings that it is handed: that the ones it reads are
/// there, and that the points are long enough for the number of cycles. Nothing else.
pub proof fn theorem_what_is_asked_of_openings(
    openings: Map<OpeningId, Opening>,
    num_steps: usize,
    n: nat,
)
    requires
        pow2(n) <= num_steps < pow2(n + 1),
    ensures
        has_points(openings, num_steps) <==> {
            &&& openings.contains_key(next_pc())
            &&& openings.contains_key(next_is_noop())
            &&& openings[next_pc()].point.len() >= n
            &&& openings[next_is_noop()].point.len() >= n
        },
        has_input_claims(openings) <==> {
            &&& openings.contains_key(next_pc())
            &&& openings.contains_key(next_unexpanded_pc())
            &&& openings.contains_key(next_is_virtual())
            &&& openings.contains_key(next_is_first_in_sequence())
            &&& openings.contains_key(next_is_noop())
        },
        has_output_claims(openings) <==> {
            &&& openings.contains_key(shift_unexpanded_pc())
            &&& openings.contains_key(shift_pc())
            &&& openings.contains_key(shift_is_virtual())
            &&& openings.contains_key(shift_is_first_in_sequence())
            &&& openings.contains_key(shift_is_noop())
        },
{
    lemma_pow2_pos(n);
    theorem_cycle_vars_is_the_logarithm(num_steps);
    let k = cycle_vars(num_steps);
    if k < n {
        if k + 1 < n {
            lemma_pow2_strictly_increases(k + 1, n);
        }
    } else if k > n {
        if n + 1 < k {
            lemma_pow2_strictly_increases(n + 1, k);
        }
    }
}

/// What parameters and provers have to satisfy. Nothing else.
pub proof fn theorem_what_is_well_formed(params: ShiftParams, prover: ShiftProver)
    ensures
        params.wf() <==> {
            &&& params.gamma_powers.len() == 5
            &&& params.gamma_powers[0] == 1
            &&& params.r_cycle.len() == params.n_cycle_vars
            &&& params.r_product.len() == params.n_cycle_vars
        },
        prover.aligned() <==> {
            &&& prover.is_noop.len() == prover.combined_witness.len()
            &&& prover.eq_plus_one_r_cycle.len() == prover.combined_witness.len()
            &&& prover.eq_plus_one_r_product.len() == prover.combined_witness.len()
        },
{
}

/// Before the first round: the padding table has 1 exactly at the padding cycles, and
/// the tables of "the cycle after" have, one cycle later, the weight of each cycle at
/// their point. Nothing comes before the first cycle.
pub proof fn theorem_first_tables_come_from_the_trace(
    params: ShiftParams,
    trace: Seq<CycleRow>,
    t: int,
    modulus: int,
)
    requires
        modulus > 1,
    ensures
        ({
            let prover = ShiftProver::initial(params, trace, modulus);
            let g = params.gamma_powers;
            let row = trace[t];
            &&& prover.params == params
            &&& prover.trace == trace
            &&& prover.combined_witness.len() == trace.len()
            &&& prover.is_noop.len() == trace.len()
            &&& 0 <= t < trace.len() ==> prover.combined_witness[t] == (g[0] * row.unexpanded_pc
                + g[1] * row.pc + (if row.is_virtual {
                g[2]
            } else {
                0
            }) + (if row.is_first_in_sequence {
                g[3]
            } else {
                0
            })) % modulus
            &&& 0 <= t < trace.len() && row.is_noop ==> prover.is_noop[t] == 1
            &&& 0 <= t < trace.len() && !row.is_noop ==> prover.is_noop[t] == 0
            &&& prover.eq_plus_one_r_cycle.len() == pow2(params.r_cycle.len())
            &&& prover.eq_plus_one_r_product.len() == pow2(params.r_product.len())
            &&& prover.eq_plus_one_r_cycle[0] == 0
            &&& prover.eq_plus_one_r_product[0] == 0
            &&& 0 < t < pow2(params.r_cycle.len()) ==> prover.eq_plus_one_r_cycle[t] == eq_at(
                params.r_cycle,
                t - 1,
            ) % modulus
            &&& 0 < t < pow2(params.r_product.len()) ==> prover.eq_plus_one_r_product[t] == eq_at(
                params.r_product,
                t - 1,
            ) % modulus
        }),
{
    let g = params.gamma_powers;
    assert(g[2] * 1 == g[2] && g[2] * 0 == 0 && g[3] * 1 == g[3] && g[3] * 0 == 0);
    lemma_small_mod(0, modulus as nat);
    lemma_pow2_pos(params.r_cycle.len());
    lemma_pow2_pos(params.r_product.len());
}

/// Where the tables of "the cycle after" are at the bits of a cycle, they have 1 at the
/// next cycle and 0 elsewhere.
pub proof fn theorem_first_tables_point_at_the_next_cycle(
    params: ShiftParams,
    trace: Seq<CycleRow>,
    i: int,
    j: int,
    modulus: int,
)
    requires
        modulus > 1,
        0 <= i < pow2(params.n_cycle_vars),
        0 <= j < pow2(params.n_cycle_vars),
    ensures
        params.r_cycle == bits(params.n_cycle_vars, i) ==> ShiftProver::initial(
            params,
            trace,
            modulus,
        ).eq_plus_one_r_cycle[j] == (if j == i + 1 {
            1int
        } else {
            0
        }),
        params.r_product == bits(params.n_cycle_vars, i) ==> ShiftProver::initial(
            params,
            trace,
            modulus,
        ).eq_plus_one_r_product[j] == (if j == i + 1 {
            1int
        } else {
            0
        }),
{
    lemma_bits_len(params.n_cycle_vars, i);
    lemma_small_mod(0, modulus as nat);
    lemma_small_mod(1, modulus as nat);
    if j > 0 {
        lemma_eq_at_bits(params.n_cycle_vars, i, j - 1);
    }
}

/// The summand and the round polynomial, from the four tables.
pub proof fn theorem_summand_of_tables(prover: ShiftProver, i: int, t: int, modulus: int)
    requires
        modulus > 0,
    ensures
        ({
            let (w, s) = (prover.combined_witness, prover.is_noop);
            let (e, q) = (prover.eq_plus_one_r_cycle, prover.eq_plus_one_r_product);
            let g4 = prover.params.gamma_powers[4];
            let at = |table: Seq<int>| (1 - t) * table[2 * i] + t * table[2 * i + 1];
            &&& prover.term()(i) == w[i] * e[i] + g4 * (1 - s[i]) * q[i]
            &&& prover.round_term(t)(i) == at(w) * at(e) + g4 * (1 - at(s)) * at(q)
            &&& prover.claim() == sum(prover.term(), w.len() as int)
            &&& prover.round_poly(t) == sum(prover.round_term(t), (w.len() / 2) as int)
            &&& prover.message(modulus).len() == 2
            &&& prover.message(modulus)[0] == prover.round_poly(0) % modulus
            &&& prover.message(modulus)[1] == prover.round_poly(2) % modulus
        }),
{
    theorem_bound_entries(prover.combined_witness, t, i);
    theorem_bound_entries(prover.is_noop, t, i);
    theorem_bound_entries(prover.eq_plus_one_r_cycle, t, i);
    theorem_bound_entries(prover.eq_plus_one_r_product, t, i);
}

/// Setting the lowest variable halves a table and joins neighbours: at 0 it keeps the
/// even entries, at 1 the odd ones, and in between it is linear.
pub proof fn theorem_bound_entries(table: Seq<int>, t: int, i: int)
    ensures
        bound(table, t).len() == table.len() / 2,
        line(table, i, t) == (1 - t) * table[2 * i] + t * table[2 * i + 1],
        0 <= i < table.len() / 2 ==> bound(table, t)[i] == (1 - t) * table[2 * i] + t * table[2 * i
            + 1],
{
    let (a, b) = (table[2 * i], table[2 * i + 1]);
    assert(a + t * (b - a) == (1 - t) * a + t * b) by (nonlinear_arith);
}

/// Binding a prover binds each of its four tables and leaves the rest.
pub proof fn theorem_bind_binds_every_table(prover: ShiftProver, r: int, modulus: int, i: int)
    requires
        modulus > 0,
        prover.aligned(),
        0 <= i < prover.combined_witness.len() / 2,
    ensures
        ({
            let bound = prover.bind(r, modulus);
            let half = (prover.combined_witness.len() / 2) as nat;
            let at = |table: Seq<int>| ((1 - r) * table[2 * i] + r * table[2 * i + 1]) % modulus;
            &&& bound.params == prover.params
            &&& bound.trace == prover.trace
            &&& bound.combined_witness.len() == half
            &&& bound.is_noop.len() == half
            &&& bound.eq_plus_one_r_cycle.len() == half
            &&& bound.eq_plus_one_r_product.len() == half
            &&& bound.combined_witness[i] == at(prover.combined_witness)
            &&& bound.is_noop[i] == at(prover.is_noop)
            &&& bound.eq_plus_one_r_cycle[i] == at(prover.eq_plus_one_r_cycle)
            &&& bound.eq_plus_one_r_product[i] == at(prover.eq_plus_one_r_product)
        }),
{
    theorem_bound_entries(prover.combined_witness, r, i);
    theorem_bound_entries(prover.is_noop, r, i);
    theorem_bound_entries(prover.eq_plus_one_r_cycle, r, i);
    theorem_bound_entries(prover.eq_plus_one_r_product, r, i);
}

/// One challenge more binds once more, after the others.
pub proof fn theorem_after_by_rounds(
    prover: ShiftProver,
    table: Seq<int>,
    challenges: Seq<int>,
    r: int,
    modulus: int,
)
    ensures
        prover.after(Seq::empty(), modulus) == prover,
        prover.after(challenges.push(r), modulus) == prover.after(challenges, modulus).bind(
            r,
            modulus,
        ),
        bound_all(table, Seq::empty(), modulus) == table,
        bound_all(table, challenges.push(r), modulus) == reduced(
            bound(bound_all(table, challenges, modulus), r),
            modulus,
        ),
{
    assert(challenges.push(r).drop_last() =~= challenges);
}

/// A run, round by round.
pub proof fn theorem_run_by_rounds(
    params: ShiftParams,
    trace: Seq<CycleRow>,
    challenges: Seq<int>,
    k: int,
    modulus: int,
)
    requires
        0 <= k < challenges.len(),
    ensures
        prover_at(params, trace, challenges, 0, modulus) == ShiftProver::initial(
            params,
            trace,
            modulus,
        ),
        prover_at(params, trace, challenges, k + 1, modulus) == prover_at(
            params,
            trace,
            challenges,
            k,
            modulus,
        ).bind(challenges[k], modulus),
        sums_left(params, trace, challenges, modulus).len() == challenges.len() + 1,
        sums_left(params, trace, challenges, modulus)[k] == prover_at(
            params,
            trace,
            challenges,
            k,
            modulus,
        ).claim(),
{
    assert(challenges.take(0) =~= Seq::empty());
    assert(challenges.take(k + 1) =~= challenges.take(k).push(challenges[k]));
    theorem_after_by_rounds(
        ShiftProver::initial(params, trace, modulus),
        Seq::empty(),
        challenges.take(k),
        challenges[k],
        modulus,
    );
}

/// The polynomial through three values takes them at 0, 1 and 2, and its third
/// differences vanish: it has degree 2 at most.
pub proof fn theorem_interpolation_through_values(e0: int, e1: int, e2: int, t: int)
    ensures
        twice_interpolated(e0, e1, e2, 0) == 2 * e0,
        twice_interpolated(e0, e1, e2, 1) == 2 * e1,
        twice_interpolated(e0, e1, e2, 2) == 2 * e2,
        twice_interpolated(e0, e1, e2, t + 3) - 3 * twice_interpolated(e0, e1, e2, t + 2) + 3
            * twice_interpolated(e0, e1, e2, t + 1) - twice_interpolated(e0, e1, e2, t) == 0,
{
    lemma_expand_interpolation(e0, e1, e2, 0);
    lemma_expand_interpolation(e0, e1, e2, 1);
    lemma_expand_interpolation(e0, e1, e2, 2);
    lemma_expand_interpolation(e0, e1, e2, t);
    lemma_expand_interpolation(e0, e1, e2, t + 1);
    lemma_expand_interpolation(e0, e1, e2, t + 2);
    lemma_expand_interpolation(e0, e1, e2, t + 3);
    let c = e0 - 2 * e1 + e2;
    let b = 4 * e1 - 3 * e0 - e2;
    assert(c * ((t + 3) * (t + 3)) - 3 * (c * ((t + 2) * (t + 2))) + 3 * (c * ((t + 1) * (t + 1)))
        - c * (t * t) == 0) by (nonlinear_arith);
    assert(b * (t + 3) - 3 * (b * (t + 2)) + 3 * (b * (t + 1)) - b * t == 0) by (nonlinear_arith);
}

proof fn lemma_expand_interpolation(e0: int, e1: int, e2: int, t: int)
    ensures
        twice_interpolated(e0, e1, e2, t) == (e0 - 2 * e1 + e2) * (t * t) + (4 * e1 - 3 * e0 - e2)
            * t + 2 * e0,
{
    let s = t * t;
    assert((t - 1) * (t - 2) == s - 3 * t + 2) by (nonlinear_arith)
        requires
            s == t * t,
    ;
    assert(t * (t - 2) == s - 2 * t) by (nonlinear_arith)
        requires
            s == t * t,
    ;
    assert(t * (t - 1) == s - t) by (nonlinear_arith)
        requires
            s == t * t,
    ;
    assert(e0 * (s - 3 * t + 2) == e0 * s - 3 * (e0 * t) + 2 * e0) by (nonlinear_arith);
    assert(e1 * (s - 2 * t) == e1 * s - 2 * (e1 * t)) by (nonlinear_arith);
    assert(e2 * (s - t) == e2 * s - e2 * t) by (nonlinear_arith);
    assert((e0 - 2 * e1 + e2) * s == e0 * s - 2 * (e1 * s) + e2 * s) by (nonlinear_arith);
    assert((4 * e1 - 3 * e0 - e2) * t == 4 * (e1 * t) - 3 * (e0 * t) - e2 * t) by (nonlinear_arith);
}

/// What a verifier asks: of one round, and of a run. Nothing else.
pub proof fn theorem_what_a_verifier_asks(
    params: ShiftParams,
    trace: Seq<CycleRow>,
    openings: Map<OpeningId, Opening>,
    challenges: Seq<int>,
    claims: Seq<int>,
    claim: int,
    message: Seq<int>,
    r: int,
    next_claim: int,
    modulus: int,
)
    ensures
        round_checks(claim, message, r, next_claim, modulus) <==> (2 * next_claim) % modulus
            == twice_interpolated(message[0], claim - message[0], message[1], r) % modulus,
        verifier_claims(params, trace, openings, challenges, claims, modulus) <==> {
            &&& claims.len() == challenges.len() + 1
            &&& claims[0] % modulus == shift_input_claim(params, openings) % modulus
            &&& forall|k: int|
                0 <= k < challenges.len() ==> round_checks(
                    claims[k],
                    (#[trigger] prover_at(params, trace, challenges, k, modulus)).message(modulus),
                    challenges[k],
                    claims[k + 1],
                    modulus,
                )
        },
{
}

/// What it is for the input claims to be true. Nothing else.
pub proof fn theorem_what_true_input_claims_are(
    openings: Map<OpeningId, Opening>,
    params: ShiftParams,
    trace: Seq<CycleRow>,
    modulus: int,
)
    ensures
        input_claims_hold(openings, params, trace, modulus) <==> {
            &&& openings[next_unexpanded_pc()].claim % modulus == mle(
                next(unexpanded_pc_column(trace)),
                params.r_cycle,
            ) % modulus
            &&& openings[next_pc()].claim % modulus == mle(next(pc_column(trace)), params.r_cycle)
                % modulus
            &&& openings[next_is_virtual()].claim % modulus == mle(
                next(is_virtual_column(trace)),
                params.r_cycle,
            ) % modulus
            &&& openings[next_is_first_in_sequence()].claim % modulus == mle(
                next(is_first_in_sequence_column(trace)),
                params.r_cycle,
            ) % modulus
            &&& openings[next_is_noop()].claim % modulus == mle(
                next_is_noop_column(trace),
                params.r_product,
            ) % modulus
        },
{
}

/// The claims that a prover files at the bits of a cycle are what the row of that cycle
/// says, reduced; the padding claim is the one entry that is left of its table.
pub proof fn theorem_output_claims_at_a_cycle_are_the_row(
    prover: ShiftProver,
    n: nat,
    t: int,
    modulus: int,
)
    requires
        modulus > 1,
        prover.trace.len() == pow2(n),
        0 <= t < prover.trace.len(),
    ensures
        ({
            let claims = prover.output_claims(bits(n, t), modulus);
            let row = prover.trace[t];
            &&& claims.unexpanded_pc == row.unexpanded_pc as int % modulus
            &&& claims.pc == row.pc as int % modulus
            &&& claims.is_virtual == (if row.is_virtual {
                1int
            } else {
                0
            })
            &&& claims.is_first_in_sequence == (if row.is_first_in_sequence {
                1int
            } else {
                0
            })
            &&& claims.is_noop == prover.is_noop[0]
        }),
{
    theorem_opened_columns_are_the_rows(prover.trace, n, t);
    lemma_small_mod(0, modulus as nat);
    lemma_small_mod(1, modulus as nat);
}

/// At any point the four claims that a prover computes from the trace are the
/// extensions of their columns there, reduced.
pub proof fn theorem_output_claims_are_extensions(
    prover: ShiftProver,
    point: Seq<int>,
    modulus: int,
)
    ensures
        ({
            let claims = prover.output_claims(point, modulus);
            &&& claims.unexpanded_pc == mle(unexpanded_pc_column(prover.trace), point) % modulus
            &&& claims.pc == mle(pc_column(prover.trace), point) % modulus
            &&& claims.is_virtual == mle(is_virtual_column(prover.trace), point) % modulus
            &&& claims.is_first_in_sequence == mle(is_first_in_sequence_column(prover.trace), point)
                % modulus
            &&& claims.is_noop == prover.is_noop[0]
        }),
{
}

/// Claims are absorbed in the order in which they are filed, and every claim is found
/// under its own name, with the point.
pub proof fn theorem_claims_are_filed_by_name(
    claims: ShiftClaims,
    openings: Map<OpeningId, Opening>,
    point: Seq<int>,
)
    ensures
        ({
            let filed = claims.file(openings, point);
            let at = |polynomial: VirtualPolynomial|
                OpeningId { polynomial, sumcheck: SumcheckId::SpartanShift };
            let upc = at(VirtualPolynomial::UnexpandedPC);
            let pc = at(VirtualPolynomial::PC);
            let is_virtual = at(VirtualPolynomial::OpFlags(CircuitFlags::VirtualInstruction));
            let is_first = at(VirtualPolynomial::OpFlags(CircuitFlags::IsFirstInSequence));
            let is_noop = at(VirtualPolynomial::InstructionFlags(InstructionFlags::IsNoop));
            &&& filed.contains_key(upc) && filed[upc] == (Opening {
                point,
                claim: claims.unexpanded_pc,
            })
            &&& filed.contains_key(pc) && filed[pc] == (Opening { point, claim: claims.pc })
            &&& filed.contains_key(is_virtual) && filed[is_virtual] == (Opening {
                point,
                claim: claims.is_virtual,
            })
            &&& filed.contains_key(is_first) && filed[is_first] == (Opening {
                point,
                claim: claims.is_first_in_sequence,
            })
            &&& filed.contains_key(is_noop) && filed[is_noop] == (Opening {
                point,
                claim: claims.is_noop,
            })
            &&& forall|id: OpeningId|
                id != upc && id != pc && id != is_virtual && id != is_first && id != is_noop ==> {
                    &&& (#[trigger] filed.contains_key(id)) == openings.contains_key(id)
                    &&& filed[id] == openings[id]
                }
            &&& claims.absorbed().len() == 5
            &&& claims.absorbed()[0] == filed[upc].claim
            &&& claims.absorbed()[1] == filed[pc].claim
            &&& claims.absorbed()[2] == filed[is_virtual].claim
            &&& claims.absorbed()[3] == filed[is_first].claim
            &&& claims.absorbed()[4] == filed[is_noop].claim
            &&& ShiftClaims::filed(openings).unexpanded_pc == openings[upc].claim
            &&& ShiftClaims::filed(openings).pc == openings[pc].claim
            &&& ShiftClaims::filed(openings).is_virtual == openings[is_virtual].claim
            &&& ShiftClaims::filed(openings).is_first_in_sequence == openings[is_first].claim
            &&& ShiftClaims::filed(openings).is_noop == openings[is_noop].claim
        }),
{
}

/// A transcript gives the challenge that its rule says for the steps so far, and every
/// step is recorded at the end.
pub proof fn theorem_transcript_by_steps(
    state: TranscriptState,
    scalar: int,
    scalars: Seq<int>,
)
    ensures
        state.can_draw() <==> (state.oracle)(state.events) is Some,
        state.can_draw() ==> (state.oracle)(state.events) == Some(state.next_challenge()),
        state.draw().oracle == state.oracle,
        state.draw().events == state.events.push(Event::Drawn(state.next_challenge())),
        state.absorb(scalar).oracle == state.oracle,
        state.absorb(scalar).events == state.events.push(Event::Absorbed(scalar)),
        state.absorb_all(Seq::empty()) == state,
        state.absorb_all(scalars.push(scalar)) == state.absorb_all(scalars).absorb(scalar),
{
    assert(state.absorb_all(Seq::empty()) =~= state);
    assert(state.absorb_all(scalars.push(scalar)) =~= state.absorb_all(scalars).absorb(scalar));
}

/// Public coins come in order: before any step the first one, absorbing changes
/// nothing, and a draw uses one up.
pub proof fn theorem_coins_come_in_order(coins: Seq<int>, events: Seq<Event>, x: int)
    ensures
        coins.len() > 0 ==> public_coins(coins)(Seq::empty()) == Some(coins[0]),
        coins.len() == 0 ==> public_coins(coins)(events) is None,
        public_coins(coins)(events.push(Event::Absorbed(x))) == public_coins(coins)(events),
        coins.len() > 0 ==> public_coins(coins)(events.push(Event::Drawn(x))) == public_coins(
            coins.skip(1),
        )(events),
{
    assert(events.push(Event::Absorbed(x)).drop_last() =~= events);
    assert(events.push(Event::Drawn(x)).drop_last() =~= events);
    assert(draws(Seq::empty()) == 0);
}

/// A record tells what was absorbed and what was drawn, entry by entry.
pub proof fn theorem_record_tells_the_steps<F: JoltField>(record: Seq<Entry<F>>, i: int, x: F)
    requires
        0 <= i < record.len(),
    ensures
        recorded(record).len() == record.len(),
        record[i] == Entry::Absorbed(x) ==> recorded(record)[i] == Event::Absorbed(x.value()),
        record[i] == Entry::Drawn(x) ==> recorded(record)[i] == Event::Drawn(x.value()),
        event(Entry::Absorbed(x)) == Event::Absorbed(x.value()),
        event(Entry::Drawn(x)) == Event::Drawn(x.value()),
{
}

/// The bits of an index, each by its weight.
pub proof fn theorem_bits_by_weight(n: nat, i: int, k: int)
    requires
        0 <= i,
        0 <= k < n,
    ensures
        bits(n, i).len() == n,
        bits(n, i)[k] == (i / (pow2((n - 1 - k) as nat) as int)) % 2,
    decreases n,
{
    lemma_bits_len(n, i);
    lemma_bits_len((n - 1) as nat, i / 2);
    if k == n - 1 {
        lemma2_to64();
        assert(i / 1 == i);
    } else {
        theorem_bits_by_weight((n - 1) as nat, i / 2, k);
        let e = (n - 2 - k) as nat;
        lemma_pow2_pos(e);
        lemma_pow2_unfold((n - 1 - k) as nat);
        lemma_div_denominator(i, 2, pow2(e) as int);
        assert(bits(n, i)[k] == bits((n - 1) as nat, i / 2)[k]);
        assert((i / 2) / (pow2(e) as int) == i / (2 * (pow2(e) as int)));
    }
}

/// A weight is linear in every coordinate of its point.
proof fn lemma_eq_at_linear(x: Seq<int>, k: int, t: int, i: int)
    requires
        0 <= k < x.len(),
    ensures
        eq_at(x.update(k, t), i) == (1 - t) * eq_at(x.update(k, 0), i) + t * eq_at(
            x.update(k, 1),
            i,
        ),
    decreases x.len(),
{
    let (xt, x0, x1) = (x.update(k, t), x.update(k, 0), x.update(k, 1));
    let y = x.drop_last();
    if k == x.len() - 1 {
        assert(xt.drop_last() =~= y);
        assert(x0.drop_last() =~= y);
        assert(x1.drop_last() =~= y);
        let e = eq_at(y, i / 2);
        assert(e * t == (1 - t) * (e * 0) + t * (e * 1)) by (nonlinear_arith);
        assert(e * (1 - t) == (1 - t) * (e * (1 - 0)) + t * (e * (1 - 1))) by (nonlinear_arith);
    } else {
        assert(xt.drop_last() =~= y.update(k, t));
        assert(x0.drop_last() =~= y.update(k, 0));
        assert(x1.drop_last() =~= y.update(k, 1));
        lemma_eq_at_linear(y, k, t, i / 2);
        let (a, b) = (eq_at(y.update(k, 0), i / 2), eq_at(y.update(k, 1), i / 2));
        let c = if i % 2 == 1 {
            x.last()
        } else {
            1 - x.last()
        };
        assert(((1 - t) * a + t * b) * c == (1 - t) * (a * c) + t * (b * c)) by (nonlinear_arith);
    }
}

/// The weights at a point: 1 for the index whose bits it is and 0 for the others, and
/// linear in every coordinate. Both tables have an entry for every index.
pub proof fn theorem_weights_at_a_point(x: Seq<int>, n: nat, i: int, j: int, k: int, t: int)
    requires
        x.len() == n,
        0 <= i < pow2(n),
        0 <= j < pow2(n),
    ensures
        eq_at(bits(n, i), j) == (if j == i {
            1int
        } else {
            0
        }),
        0 <= k < n ==> eq_at(x.update(k, t), j) == (1 - t) * eq_at(x.update(k, 0), j) + t * eq_at(
            x.update(k, 1),
            j,
        ),
        eq_table(x).len() == pow2(n),
        eq_table(x)[j] == eq_at(x, j),
        eq_plus_one_table(x).len() == pow2(n),
        eq_plus_one_table(x)[0] == 0,
        j > 0 ==> eq_plus_one_table(x)[j] == eq_at(x, j - 1),
        eq_plus_one_table(x)[j] == eq_plus_one_at(x, j),
{
    lemma_pow2_pos(n);
    lemma_eq_at_bits(n, i, j);
    if 0 <= k < n {
        lemma_eq_at_linear(x, k, t, j);
    }
}

proof fn lemma_mle_sum_linear(table: Seq<int>, x: Seq<int>, k: int, t: int, n: int)
    requires
        0 <= k < x.len(),
    ensures
        sum(mle_term(table, x.update(k, t)), n) == (1 - t) * sum(
            mle_term(table, x.update(k, 0)),
            n,
        ) + t * sum(mle_term(table, x.update(k, 1)), n),
    decreases n,
{
    if n > 0 {
        lemma_mle_sum_linear(table, x, k, t, n - 1);
        lemma_eq_at_linear(x, k, t, n - 1);
        let c = table[n - 1];
        let (a, b) = (eq_at(x.update(k, 0), n - 1), eq_at(x.update(k, 1), n - 1));
        let (s0, s1) = (
            sum(mle_term(table, x.update(k, 0)), n - 1),
            sum(mle_term(table, x.update(k, 1)), n - 1),
        );
        assert(c * ((1 - t) * a + t * b) == (1 - t) * (c * a) + t * (c * b)) by (nonlinear_arith);
        assert((1 - t) * s0 + (1 - t) * (c * a) == (1 - t) * (s0 + c * a)) by (nonlinear_arith);
        assert(t * s1 + t * (c * b) == t * (s1 + c * b)) by (nonlinear_arith);
    } else {
        assert((1 - t) * 0 + t * 0 == 0);
    }
}

/// The extension of a table is linear in every coordinate of its point.
pub proof fn theorem_extension_is_multilinear(table: Seq<int>, x: Seq<int>, k: int, t: int)
    requires
        0 <= k < x.len(),
    ensures
        mle(table, x.update(k, t)) == (1 - t) * mle(table, x.update(k, 0)) + t * mle(
            table,
            x.update(k, 1),
        ),
{
    lemma_mle_sum_linear(table, x, k, t, table.len() as int);
}

/// "The cycle after" is linear in every coordinate of both of its points.
pub proof fn theorem_eq_plus_one_is_multilinear(x: Seq<int>, y: Seq<int>, k: int, t: int)
    requires
        x.len() == y.len(),
        0 <= k < x.len(),
    ensures
        eq_plus_one(x, y.update(k, t)) == (1 - t) * eq_plus_one(x, y.update(k, 0)) + t
            * eq_plus_one(x, y.update(k, 1)),
        eq_plus_one(x.update(k, t), y) == (1 - t) * eq_plus_one(x.update(k, 0), y) + t
            * eq_plus_one(x.update(k, 1), y),
{
    theorem_extension_is_multilinear(eq_plus_one_table(x), y, k, t);
    let (a, b) = (eq_plus_one_table(x.update(k, 0)), eq_plus_one_table(x.update(k, 1)));
    let u = eq_plus_one_table(x.update(k, t));
    assert forall|j: int| 0 <= j < u.len() implies #[trigger] u[j] == (1 - t) * a[j] + t * b[j] by {
        if j == 0 {
            assert((1 - t) * 0 + t * 0 == 0);
        } else {
            lemma_eq_at_linear(x, k, t, j - 1);
        }
    }
    lemma_mle_linear(1 - t, a, t, b, u, y);
}

/// The index whose bits a point of the hypercube is.
proof fn lemma_index_of_bits(x: Seq<int>) -> (i: int)
    requires
        forall|k: int| 0 <= k < x.len() ==> #[trigger] x[k] == 0 || x[k] == 1,
    ensures
        0 <= i < pow2(x.len()),
        bits(x.len(), i) == x,
    decreases x.len(),
{
    if x.len() == 0 {
        lemma2_to64();
        assert(bits(0, 0) =~= x);
        0
    } else {
        let i = lemma_index_of_bits(x.drop_last());
        lemma_pow2_unfold(x.len());
        let j = 2 * i + x.last();
        assert(x[x.len() - 1] == 0 || x[x.len() - 1] == 1);
        assert(j / 2 == i && j % 2 == x.last());
        assert(bits(x.len(), j) =~= x);
        j
    }
}

/// Where the coordinates from `k` on are bits, two multilinear functions that agree on
/// the hypercube agree.
proof fn lemma_multilinear_agree(
    f: spec_fn(Seq<int>) -> int,
    table: Seq<int>,
    x: Seq<int>,
    k: int,
)
    requires
        table.len() == pow2(x.len()),
        0 <= k <= x.len(),
        forall|j: int| k <= j < x.len() ==> #[trigger] x[j] == 0 || x[j] == 1,
        forall|i: int| 0 <= i < table.len() ==> f(#[trigger] bits(x.len(), i)) == table[i],
        forall|y: Seq<int>, j: int, t: int|
            y.len() == x.len() && 0 <= j < y.len() ==> #[trigger] f(y.update(j, t)) == (1 - t) * f(
                y.update(j, 0),
            ) + t * f(y.update(j, 1)),
    ensures
        f(x) == mle(table, x),
    decreases k,
{
    if k == 0 {
        let i = lemma_index_of_bits(x);
        theorem_extension_agrees_on_indices(table, x.len(), i);
        assert(f(bits(x.len(), i)) == table[i]);
    } else {
        let t = x[k - 1];
        lemma_multilinear_agree(f, table, x.update(k - 1, 0), k - 1);
        lemma_multilinear_agree(f, table, x.update(k - 1, 1), k - 1);
        theorem_extension_is_multilinear(table, x, k - 1, t);
        assert(x.update(k - 1, t) =~= x);
        assert(f(x.update(k - 1, t)) == (1 - t) * f(x.update(k - 1, 0)) + t * f(
            x.update(k - 1, 1),
        ));
    }
}

/// The extension of a table is the only function that is linear in every coordinate
/// and takes the entries of the table at the bits of their indices.
pub proof fn theorem_extension_is_unique(
    f: spec_fn(Seq<int>) -> int,
    table: Seq<int>,
    x: Seq<int>,
)
    requires
        table.len() == pow2(x.len()),
        forall|i: int| 0 <= i < table.len() ==> f(#[trigger] bits(x.len(), i)) == table[i],
        forall|y: Seq<int>, j: int, t: int|
            y.len() == x.len() && 0 <= j < y.len() ==> #[trigger] f(y.update(j, t)) == (1 - t) * f(
                y.update(j, 0),
            ) + t * f(y.update(j, 1)),
    ensures
        f(x) == mle(table, x),
{
    lemma_multilinear_agree(f, table, x, x.len() as int);
}

} // verus!
