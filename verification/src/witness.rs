//! The polynomials over the cycles of a trace.
use crate::eq_plus_one::EqPlusOnePolynomial;
use crate::field::{flag_value, from_bool, values, JoltField};
use crate::modular::{
    congruent, lemma_congruent_add, lemma_congruent_mul, lemma_residue, reduced,
};
use crate::multilinear::{
    bits, eq_at, eq_table, mle, mle_term, theorem_extension_agrees_on_indices,
};
use crate::opening::{OpeningPoint, BIG_ENDIAN};
use crate::polynomial::MultilinearPolynomial;
use crate::sums::sum;
use vstd::arithmetic::div_mod::lemma_small_mod;
use vstd::arithmetic::power2::pow2;
use vstd::prelude::*;

verus! {

/// What the shift argument reads of one cycle.
#[derive(Clone, Copy, Debug, PartialEq, Eq)]
pub struct CycleRow {
    /// The address of the instruction.
    pub unexpanded_pc: u64,
    /// The index of the instruction in the expanded bytecode.
    pub pc: u64,
    /// Whether the instruction is part of a virtual sequence.
    pub is_virtual: bool,
    /// Whether the instruction begins a virtual sequence.
    pub is_first_in_sequence: bool,
    /// Whether the cycle is padding.
    pub is_noop: bool,
}

pub open spec fn unexpanded_pc_column(trace: Seq<CycleRow>) -> Seq<int> {
    Seq::new(trace.len(), |t: int| trace[t].unexpanded_pc as int)
}

pub open spec fn pc_column(trace: Seq<CycleRow>) -> Seq<int> {
    Seq::new(trace.len(), |t: int| trace[t].pc as int)
}

pub open spec fn is_virtual_column(trace: Seq<CycleRow>) -> Seq<int> {
    Seq::new(trace.len(), |t: int| flag_value(trace[t].is_virtual))
}

pub open spec fn is_first_in_sequence_column(trace: Seq<CycleRow>) -> Seq<int> {
    Seq::new(trace.len(), |t: int| flag_value(trace[t].is_first_in_sequence))
}

pub open spec fn is_noop_column(trace: Seq<CycleRow>) -> Seq<int> {
    Seq::new(trace.len(), |t: int| flag_value(trace[t].is_noop))
}

/// The first four columns, batched by powers of the batching scalar.
pub open spec fn combined_column(trace: Seq<CycleRow>, gamma_powers: Seq<int>) -> Seq<int> {
    Seq::new(
        trace.len(),
        |t: int|
            gamma_powers[0] * unexpanded_pc_column(trace)[t] + gamma_powers[1] * pc_column(trace)[t]
                + gamma_powers[2] * is_virtual_column(trace)[t] + gamma_powers[3]
                * is_first_in_sequence_column(trace)[t],
    )
}

/// One cycle of the batched column.
fn combined_value<F: JoltField>(row: &CycleRow, gamma_powers: &[F; 5]) -> (r: F)
    ensures
        r.value() == (gamma_powers[0].value() * row.unexpanded_pc + gamma_powers[1].value() * row.pc
            + gamma_powers[2].value() * flag_value(row.is_virtual) + gamma_powers[3].value()
            * flag_value(row.is_first_in_sequence)) % F::modulus(),
{
    let unexpanded_pc = F::from_u64(row.unexpanded_pc);
    let pc = F::from_u64(row.pc);
    let is_virtual: F = from_bool(row.is_virtual);
    let is_first: F = from_bool(row.is_first_in_sequence);
    let a = gamma_powers[0].times(unexpanded_pc);
    let b = gamma_powers[1].times(pc);
    let c = gamma_powers[2].times(is_virtual);
    let d = gamma_powers[3].times(is_first);
    let ab = a.plus(b);
    let abc = ab.plus(c);
    let r = abc.plus(d);
    proof {
        F::modulus_exceeds_one();
        let m = F::modulus();
        let g = gamma_powers;
        let (u, p) = (row.unexpanded_pc as int, row.pc as int);
        let (v, f) = (flag_value(row.is_virtual), flag_value(row.is_first_in_sequence));
        lemma_residue(u, m);
        lemma_residue(p, m);
        lemma_congruent_mul(g[0].value(), unexpanded_pc.value(), g[0].value(), u, m);
        lemma_congruent_mul(g[1].value(), pc.value(), g[1].value(), p, m);
        lemma_congruent_mul(g[2].value(), is_virtual.value(), g[2].value(), v, m);
        lemma_congruent_mul(g[3].value(), is_first.value(), g[3].value(), f, m);
        let (wa, wb, wc, wd) = (
            g[0].value() * u,
            g[1].value() * p,
            g[2].value() * v,
            g[3].value() * f,
        );
        lemma_congruent_add(a.value(), b.value(), wa, wb, m);
        lemma_congruent_add(ab.value(), c.value(), wa + wb, wc, m);
        lemma_congruent_add(abc.value(), d.value(), wa + wb + wc, wd, m);
    }
    r
}

/// The batched column and the padding column of a trace, in one pass.
pub fn generate_shift_sumcheck_witnesses<F: JoltField>(
    trace: &[CycleRow],
    gamma_powers: &[F; 5],
) -> (polys: (MultilinearPolynomial<F>, MultilinearPolynomial<F>))
    ensures
        polys.0@ == reduced(combined_column(trace@, values(gamma_powers@)), F::modulus()),
        polys.1@ == is_noop_column(trace@),
        polys.0@.len() == trace@.len(),
        polys.1@.len() == trace@.len(),
        forall|t: int|
            0 <= t < trace@.len() ==> #[trigger] polys.0@[t] == (gamma_powers[0].value()
                * trace@[t].unexpanded_pc + gamma_powers[1].value() * trace@[t].pc
                + gamma_powers[2].value() * (if trace@[t].is_virtual {
                1int
            } else {
                0
            }) + gamma_powers[3].value() * (if trace@[t].is_first_in_sequence {
                1int
            } else {
                0
            })) % F::modulus(),
        forall|t: int|
            0 <= t < trace@.len() ==> #[trigger] polys.1@[t] == (if trace@[t].is_noop {
                1int
            } else {
                0
            }),
{
    let mut combined: Vec<F> = Vec::new();
    let mut is_noop: Vec<F> = Vec::new();
    let ghost target = combined_column(trace@, values(gamma_powers@));
    let mut t: usize = 0;
    while t < trace.len()
        invariant
            t <= trace@.len(),
            combined@.len() == t,
            is_noop@.len() == t,
            target == combined_column(trace@, values(gamma_powers@)),
            forall|k: int|
                0 <= k < t ==> (#[trigger] combined@[k]).value() == target[k] % F::modulus(),
            forall|k: int|
                0 <= k < t ==> (#[trigger] is_noop@[k]).value() == flag_value(trace@[k].is_noop),
        decreases trace.len() - t,
    {
        let value = combined_value(&trace[t], gamma_powers);
        assert(value.value() == target[t as int] % F::modulus());
        combined.push(value);
        is_noop.push(from_bool(trace[t].is_noop));
        t += 1;
    }
    assert(values(combined@) =~= reduced(target, F::modulus()));
    assert(values(is_noop@) =~= is_noop_column(trace@));
    (MultilinearPolynomial::new(combined), MultilinearPolynomial::new(is_noop))
}

/// `total + weight * entry`.
fn accumulate<F: JoltField>(
    total: F,
    weight: F,
    entry: F,
    Ghost(column): Ghost<Seq<int>>,
    Ghost(x): Ghost<Seq<int>>,
    Ghost(t): Ghost<int>,
) -> (r: F)
    requires
        t >= 0,
        total.value() == sum(mle_term(column, x), t) % F::modulus(),
        weight.value() == eq_at(x, t) % F::modulus(),
        congruent(entry.value(), column[t], F::modulus()),
    ensures
        r.value() == sum(mle_term(column, x), t + 1) % F::modulus(),
{
    let product = entry.times(weight);
    proof {
        F::modulus_exceeds_one();
        let m = F::modulus();
        let s = sum(mle_term(column, x), t);
        lemma_residue(s, m);
        lemma_residue(eq_at(x, t), m);
        lemma_congruent_mul(entry.value(), weight.value(), column[t], eq_at(x, t), m);
        lemma_congruent_add(total.value(), product.value(), s, column[t] * eq_at(x, t), m);
        assert(sum(mle_term(column, x), t + 1) == s + mle_term(column, x)(t));
    }
    total.plus(product)
}

/// The values at `point` of the four columns that are batched, in one pass.
pub fn evaluate_shift_sumcheck_witnesses<F: JoltField>(
    trace: &[CycleRow],
    point: &OpeningPoint<BIG_ENDIAN, F>,
) -> (evals: [F; 4])
    requires
        trace@.len() == pow2(point@.len()),
    ensures
        evals[0].value() == mle(unexpanded_pc_column(trace@), point@) % F::modulus(),
        evals[1].value() == mle(pc_column(trace@), point@) % F::modulus(),
        evals[2].value() == mle(is_virtual_column(trace@), point@) % F::modulus(),
        evals[3].value() == mle(is_first_in_sequence_column(trace@), point@) % F::modulus(),
        forall|t: int|
            0 <= t < trace@.len() && point@ == #[trigger] bits(point@.len(), t) ==> {
                &&& evals[0].value() == trace@[t].unexpanded_pc as int % F::modulus()
                &&& evals[1].value() == trace@[t].pc as int % F::modulus()
                &&& evals[2].value() == (if trace@[t].is_virtual {
                    1int
                } else {
                    0
                })
                &&& evals[3].value() == (if trace@[t].is_first_in_sequence {
                    1int
                } else {
                    0
                })
            },
{
    let ghost x = point@;
    let ghost m = F::modulus();
    let (weights, _) = EqPlusOnePolynomial::<F>::evals(&point.r);
    let mut unexpanded_pc = F::zero();
    let mut pc = F::zero();
    let mut is_virtual = F::zero();
    let mut is_first = F::zero();
    proof {
        F::modulus_exceeds_one();
        lemma_small_mod(0, m as nat);
        assert(values(weights@).len() == pow2(x.len()));
    }
    let mut t: usize = 0;
    while t < trace.len()
        invariant
            t <= trace@.len(),
            trace@.len() == weights@.len(),
            trace@.len() == pow2(x.len()),
            values(weights@) == reduced(eq_table(x), m),
            m == F::modulus(),
            unexpanded_pc.value() == sum(mle_term(unexpanded_pc_column(trace@), x), t as int) % m,
            pc.value() == sum(mle_term(pc_column(trace@), x), t as int) % m,
            is_virtual.value() == sum(mle_term(is_virtual_column(trace@), x), t as int) % m,
            is_first.value() == sum(mle_term(is_first_in_sequence_column(trace@), x), t as int) % m,
        decreases trace.len() - t,
    {
        let row = &trace[t];
        let weight = weights[t];
        proof {
            F::modulus_exceeds_one();
            assert(weight.value() == values(weights@)[t as int]);
            lemma_residue(row.unexpanded_pc as int, m);
            lemma_residue(row.pc as int, m);
        }
        unexpanded_pc = accumulate(
            unexpanded_pc,
            weight,
            F::from_u64(row.unexpanded_pc),
            Ghost(unexpanded_pc_column(trace@)),
            Ghost(x),
            Ghost(t as int),
        );
        pc = accumulate(
            pc,
            weight,
            F::from_u64(row.pc),
            Ghost(pc_column(trace@)),
            Ghost(x),
            Ghost(t as int),
        );
        is_virtual = accumulate(
            is_virtual,
            weight,
            from_bool(row.is_virtual),
            Ghost(is_virtual_column(trace@)),
            Ghost(x),
            Ghost(t as int),
        );
        is_first = accumulate(
            is_first,
            weight,
            from_bool(row.is_first_in_sequence),
            Ghost(is_first_in_sequence_column(trace@)),
            Ghost(x),
            Ghost(t as int),
        );
        t += 1;
    }
    proof {
        let n = x.len();
        assert forall|c: int| 0 <= c < trace@.len() && x == #[trigger] bits(n, c) implies {
            &&& unexpanded_pc.value() == trace@[c].unexpanded_pc as int % m
            &&& pc.value() == trace@[c].pc as int % m
            &&& is_virtual.value() == flag_value(trace@[c].is_virtual)
            &&& is_first.value() == flag_value(trace@[c].is_first_in_sequence)
        } by {
            theorem_extension_agrees_on_indices(unexpanded_pc_column(trace@), n, c);
            theorem_extension_agrees_on_indices(pc_column(trace@), n, c);
            theorem_extension_agrees_on_indices(is_virtual_column(trace@), n, c);
            theorem_extension_agrees_on_indices(is_first_in_sequence_column(trace@), n, c);
            lemma_small_mod(1, m as nat);
        }
    }
    [unexpanded_pc, pc, is_virtual, is_first]
}

} // verus!
