use spartan_shift::accumulator::{
    CircuitFlags, InstructionFlags, OpeningAccumulator, ProverOpeningAccumulator, SumcheckId,
    VerifierOpeningAccumulator, VirtualPolynomial,
};
use spartan_shift::eq_plus_one::EqPlusOnePolynomial;
use spartan_shift::field::{from_bool, JoltField};
use spartan_shift::mersenne61::{Mersenne61, MODULUS};
use spartan_shift::opening::{OpeningPoint, BIG_ENDIAN};
use spartan_shift::shift::{
    get_opening_point, ShiftSumcheckParams, ShiftSumcheckProver, ShiftSumcheckVerifier,
    UniformSpartanKey, DEGREE_BOUND,
};
use spartan_shift::state::StateManager;
use spartan_shift::transcript::{Entry, PublicCoinTranscript};
use spartan_shift::witness::{
    evaluate_shift_sumcheck_witnesses, generate_shift_sumcheck_witnesses, CycleRow,
};
use std::sync::Arc;

type F = Mersenne61;

const OUTER: SumcheckId = SumcheckId::SpartanOuter;
const PRODUCT: SumcheckId = SumcheckId::ProductVirtualization;
const SHIFT: SumcheckId = SumcheckId::SpartanShift;

const OUTPUTS: [VirtualPolynomial; 5] = [
    VirtualPolynomial::UnexpandedPC,
    VirtualPolynomial::PC,
    VirtualPolynomial::OpFlags(CircuitFlags::VirtualInstruction),
    VirtualPolynomial::OpFlags(CircuitFlags::IsFirstInSequence),
    VirtualPolynomial::InstructionFlags(InstructionFlags::IsNoop),
];

fn element(x: u64) -> F {
    F::from_u64(x)
}

fn negative(x: u64) -> F {
    F::from_u64(MODULUS - x)
}

fn point(r: &[u32]) -> OpeningPoint<BIG_ENDIAN, F> {
    OpeningPoint::new(r.to_vec())
}

fn sample_trace(len: usize) -> Vec<CycleRow> {
    (0..len as u64)
        .map(|t| CycleRow {
            unexpanded_pc: 0x8000_0000 + 4 * t,
            pc: 1 + t * t,
            is_virtual: t % 3 == 1,
            is_first_in_sequence: t % 3 == 0,
            is_noop: t + 2 >= len as u64,
        })
        .collect()
}

fn extension(table: &[F], r: &[u32]) -> F {
    let (weights, _) = EqPlusOnePolynomial::<F>::evals(r);
    let mut total = F::zero();
    for (a, b) in table.iter().zip(&weights) {
        total = total.plus(a.times(*b));
    }
    total
}

fn column(trace: &[CycleRow], read: fn(&CycleRow) -> F) -> Vec<F> {
    trace.iter().map(read).collect()
}

fn columns(trace: &[CycleRow]) -> [Vec<F>; 5] {
    [
        column(trace, |c| element(c.unexpanded_pc)),
        column(trace, |c| element(c.pc)),
        column(trace, |c| from_bool(c.is_virtual)),
        column(trace, |c| from_bool(c.is_first_in_sequence)),
        column(trace, |c| from_bool(c.is_noop)),
    ]
}

fn later(table: &[F], last: F) -> Vec<F> {
    let mut next = table[1..].to_vec();
    next.push(last);
    next
}

/// The claims about the next cycle, true of the trace.
fn input_claims(
    trace: &[CycleRow],
    r_cycle: &[u32],
    r_product: &[u32],
) -> [(VirtualPolynomial, SumcheckId, F); 5] {
    let [upc, pc, is_virtual, is_first, is_noop] = columns(trace);
    [
        (
            VirtualPolynomial::NextUnexpandedPC,
            OUTER,
            extension(&later(&upc, F::zero()), r_cycle),
        ),
        (VirtualPolynomial::NextPC, OUTER, extension(&later(&pc, F::zero()), r_cycle)),
        (
            VirtualPolynomial::NextIsVirtual,
            OUTER,
            extension(&later(&is_virtual, F::zero()), r_cycle),
        ),
        (
            VirtualPolynomial::NextIsFirstInSequence,
            OUTER,
            extension(&later(&is_first, F::zero()), r_cycle),
        ),
        (
            VirtualPolynomial::NextIsNoop,
            PRODUCT,
            extension(&later(&is_noop, F::one()), r_product),
        ),
    ]
}

fn half() -> F {
    element((MODULUS + 1) / 2)
}

/// The polynomial of degree 2 through the three values, at `t`.
fn interpolate(e0: F, e1: F, e2: F, t: F) -> F {
    let one = F::one();
    let two = one.plus(one);
    let a = e0.times(t.minus(one)).times(t.minus(two)).times(half());
    let b = e1.times(t).times(t.minus(two));
    let c = e2.times(t).times(t.minus(one)).times(half());
    a.minus(b).plus(c)
}

struct Run {
    last_claim: F,
    expected: F,
    prover: ProverOpeningAccumulator<F>,
    verifier: VerifierOpeningAccumulator<F>,
    prover_transcript: PublicCoinTranscript<F>,
    verifier_transcript: PublicCoinTranscript<F>,
}

fn run(
    trace: &[CycleRow],
    outer: &[u32],
    product: &[u32],
    gamma: F,
    challenges: &[u32],
    spoil: fn(VirtualPolynomial, F) -> F,
) -> Run {
    let n = challenges.len();
    let key = Arc::new(UniformSpartanKey { num_steps: trace.len() });
    let mut before = PublicCoinTranscript::new(vec![]);
    let mut prover_openings = ProverOpeningAccumulator::new();
    let mut verifier_openings = VerifierOpeningAccumulator::new();
    for (polynomial, sumcheck, claim) in input_claims(trace, &outer[..n], &product[..n]) {
        let r = if sumcheck == OUTER { point(outer) } else { point(product) };
        prover_openings.append_virtual(&mut before, polynomial, sumcheck, r.clone(), claim);
        verifier_openings.receive_claim(polynomial, sumcheck, claim);
        verifier_openings.append_virtual(&mut before, polynomial, sumcheck, r);
    }

    let mut prover_state = StateManager {
        transcript: PublicCoinTranscript::new(vec![gamma]),
        accumulator: prover_openings,
        trace: Some(Arc::new(trace.to_vec())),
    };
    let mut verifier_state = StateManager {
        transcript: PublicCoinTranscript::new(vec![gamma]),
        accumulator: verifier_openings,
        trace: None,
    };
    let mut prover = ShiftSumcheckProver::gen(&mut prover_state, key.clone());
    let verifier = ShiftSumcheckVerifier::new(&mut verifier_state, key);
    let StateManager {
        transcript: mut prover_transcript,
        accumulator: mut prover_openings,
        ..
    } = prover_state;
    let StateManager {
        transcript: mut verifier_transcript,
        accumulator: mut verifier_openings,
        ..
    } = verifier_state;
    assert_eq!(prover.num_rounds(), n);
    assert_eq!(verifier.num_rounds(), n);
    let mut claim = verifier.input_claim(&verifier_openings);
    assert_eq!(claim, prover.input_claim(&prover_openings));
    for (round, &r) in challenges.iter().enumerate() {
        let message = prover.compute_prover_message(round, claim);
        assert_eq!(message.len(), DEGREE_BOUND);
        claim = interpolate(
            message[0],
            claim.minus(message[0]),
            message[1],
            F::from_challenge(r),
        );
        prover.bind(r, round);
    }

    prover.cache_openings(&mut prover_openings, &mut prover_transcript, challenges);
    for polynomial in OUTPUTS {
        let (_, value) = prover_openings.get_virtual_polynomial_opening(polynomial, SHIFT);
        verifier_openings.receive_claim(polynomial, SHIFT, spoil(polynomial, value));
    }
    let expected = verifier.expected_output_claim(&verifier_openings, challenges);
    verifier.cache_openings(&mut verifier_openings, &mut verifier_transcript, challenges);
    Run {
        last_claim: claim,
        expected,
        prover: prover_openings,
        verifier: verifier_openings,
        prover_transcript,
        verifier_transcript,
    }
}

fn honest(_: VirtualPolynomial, claim: F) -> F {
    claim
}

#[test]
fn honest_prover_is_accepted() {
    let trace = sample_trace(8);
    let done = run(
        &trace,
        &[3, 1000, 77, 5],
        &[9, 4294967295, 2, 8],
        element(123456789),
        &[11, 222, 3333],
        honest,
    );
    assert_eq!(done.last_claim, done.expected);
    assert_ne!(done.expected, F::zero());
}

#[test]
fn honest_prover_is_accepted_on_a_long_trace() {
    let trace = sample_trace(1024);
    let outer: Vec<u32> = (0..10).map(|i| 17 * i + 3).collect();
    let product: Vec<u32> = (0..12).map(|i| 1000 - i).collect();
    let challenges: Vec<u32> = (0..10).map(|i| i * i + 1).collect();
    let done = run(&trace, &outer, &product, element(5), &challenges, honest);
    assert_eq!(done.last_claim, done.expected);
}

#[test]
fn honest_prover_is_accepted_without_rounds() {
    let trace = sample_trace(1);
    let done = run(&trace, &[], &[], element(5), &[], honest);
    assert_eq!(done.last_claim, done.expected);
    assert_eq!(done.expected, F::zero());
}

#[test]
fn a_false_opening_is_noticed() {
    for spoiled in OUTPUTS {
        let spoil: fn(VirtualPolynomial, F) -> F = match spoiled {
            VirtualPolynomial::UnexpandedPC => |p, c| {
                if p == VirtualPolynomial::UnexpandedPC { c.plus(F::one()) } else { c }
            },
            VirtualPolynomial::PC => |p, c| {
                if p == VirtualPolynomial::PC { c.plus(F::one()) } else { c }
            },
            VirtualPolynomial::OpFlags(CircuitFlags::VirtualInstruction) => |p, c| {
                if p == OUTPUTS[2] { c.plus(F::one()) } else { c }
            },
            VirtualPolynomial::OpFlags(CircuitFlags::IsFirstInSequence) => |p, c| {
                if p == OUTPUTS[3] { c.plus(F::one()) } else { c }
            },
            _ => |p, c| if p == OUTPUTS[4] { c.plus(F::one()) } else { c },
        };
        let done = run(
            &sample_trace(4),
            &[3, 1000],
            &[9, 21],
            element(6),
            &[11, 222],
            spoil,
        );
        assert_ne!(done.last_claim, done.expected);
    }
}

#[test]
fn both_sides_file_the_same() {
    let trace = sample_trace(4);
    let done = run(&trace, &[3, 1000], &[9, 21], element(6), &[11, 222], honest);
    let mut steps = vec![Entry::Drawn(element(6))];
    for (polynomial, table) in OUTPUTS.iter().zip(columns(&trace)) {
        let (p, a) = done.prover.get_virtual_polynomial_opening(*polynomial, SHIFT);
        let (v, b) = done.verifier.get_virtual_polynomial_opening(*polynomial, SHIFT);
        assert_eq!(p.r, vec![222, 11]);
        assert_eq!(v.r, vec![222, 11]);
        assert_eq!(a, b);
        assert_eq!(a, extension(&table, &[222, 11]));
        steps.push(Entry::Absorbed(a));
    }
    assert_eq!(*done.prover_transcript.record(), steps);
    assert_eq!(*done.verifier_transcript.record(), steps);
}

#[test]
fn opening_point_is_the_challenges_reversed() {
    assert_eq!(get_opening_point::<F>(&[1, 2, 3]).r, vec![3, 2, 1]);
    assert!(get_opening_point::<F>(&[]).r.is_empty());
}

#[test]
fn witnesses_are_batched() {
    let trace = [
        CycleRow {
            unexpanded_pc: 100,
            pc: 7,
            is_virtual: true,
            is_first_in_sequence: false,
            is_noop: false,
        },
        CycleRow {
            unexpanded_pc: 104,
            pc: 8,
            is_virtual: false,
            is_first_in_sequence: true,
            is_noop: true,
        },
    ];
    let powers = [element(1), element(10), element(1000), element(5000), element(99)];
    let (combined, is_noop) = generate_shift_sumcheck_witnesses(&trace, &powers);
    // 100 + 10 * 7 + 1000 and 104 + 10 * 8 + 5000.
    assert_eq!(combined.sumcheck_evals(0)[0], element(1170));
    assert_eq!(combined.sumcheck_evals(0)[1], element(5184 + 5184 - 1170));
    assert_eq!(is_noop.sumcheck_evals(0)[0], element(0));
    assert_eq!(is_noop.sumcheck_evals(0)[1], element(2));
    // At 3: a + 3 (b - a).
    let evals = evaluate_shift_sumcheck_witnesses(&trace, &point(&[3]));
    assert_eq!(evals, [element(112), element(10), negative(2), element(3)]);
}

fn claims_accumulator(claims: &[(VirtualPolynomial, SumcheckId, u64)]) -> VerifierOpeningAccumulator<F> {
    let mut transcript = PublicCoinTranscript::new(vec![]);
    let mut accumulator = VerifierOpeningAccumulator::new();
    for (polynomial, sumcheck, claim) in claims {
        accumulator.receive_claim(*polynomial, *sumcheck, element(*claim));
        let r = if *sumcheck == OUTER { point(&[2, 40]) } else { point(&[5]) };
        accumulator.append_virtual(&mut transcript, *polynomial, *sumcheck, r);
    }
    accumulator
}

#[test]
fn claims_follow_their_formulas() {
    let accumulator = claims_accumulator(&[
        (VirtualPolynomial::NextPC, OUTER, 2),
        (VirtualPolynomial::NextUnexpandedPC, OUTER, 3),
        (VirtualPolynomial::NextIsVirtual, OUTER, 4),
        (VirtualPolynomial::NextIsFirstInSequence, OUTER, 5),
        (VirtualPolynomial::NextIsNoop, PRODUCT, 7),
        (OUTPUTS[0], SHIFT, 11),
        (OUTPUTS[1], SHIFT, 13),
        (OUTPUTS[2], SHIFT, 17),
        (OUTPUTS[3], SHIFT, 19),
        (OUTPUTS[4], SHIFT, 23),
    ]);
    // Three cycles need one variable, rounded down.
    let key = UniformSpartanKey { num_steps: 3 };
    let params = ShiftSumcheckParams::with_gamma(element(10), &accumulator, &key);
    let verifier = ShiftSumcheckVerifier::with_params(params);
    assert_eq!(verifier.degree(), 2);
    assert_eq!(verifier.num_rounds(), 1);
    // 3 + 2 * 10 + 4 * 100 + 5 * 1000 + (1 - 7) * 10000.
    assert_eq!(verifier.input_claim(&accumulator), negative(60000 - 5423));
    // With one variable the cycle after is (1 - x) y, at x = 2 and x = 5, y = 6:
    // (11 + 130 + 1700 + 19000) * -6 + 10000 * (1 - 23) * -24.
    assert_eq!(
        verifier.expected_output_claim(&accumulator, &[6]),
        element(10000 * 22 * 24 - 20841 * 6)
    );
}

#[test]
fn messages_are_the_round_polynomial() {
    let accumulator = claims_accumulator(&[
        (VirtualPolynomial::NextPC, OUTER, 0),
        (VirtualPolynomial::NextIsNoop, PRODUCT, 0),
    ]);
    let trace = vec![
        CycleRow {
            unexpanded_pc: 100,
            pc: 7,
            is_virtual: true,
            is_first_in_sequence: false,
            is_noop: false,
        },
        CycleRow {
            unexpanded_pc: 104,
            pc: 8,
            is_virtual: false,
            is_first_in_sequence: true,
            is_noop: true,
        },
    ];
    let key = UniformSpartanKey { num_steps: 2 };
    let params = ShiftSumcheckParams::with_gamma(element(10), &accumulator, &key);
    let mut prover = ShiftSumcheckProver::with_params(params, Arc::new(trace));
    assert_eq!(prover.degree(), 2);
    assert_eq!(prover.num_rounds(), 1);
    // The tables: 270, 1184; 0, 1; 0, 1 - 2; 0, 1 - 5.
    let message = prover.compute_prover_message(0, F::zero());
    // At 2: 2098 * -2 + 10000 * (1 - 2) * -8.
    assert_eq!(message, vec![element(0), element(80000 - 4196)]);
    prover.bind(3, 0);
    let again = prover.compute_prover_message(1, F::zero());
    assert_eq!(again, vec![element(0), element(0)]);
}
