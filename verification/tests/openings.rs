use spartan_shift::accumulator::{
    CircuitFlags, OpeningAccumulator, ProverOpeningAccumulator, SumcheckId,
    VerifierOpeningAccumulator, VirtualPolynomial,
};
use spartan_shift::field::JoltField;
use spartan_shift::mersenne61::Mersenne61;
use spartan_shift::opening::{OpeningPoint, BIG_ENDIAN};
use spartan_shift::transcript::{Entry, PublicCoinTranscript, Transcript};

fn point(r: &[u32]) -> OpeningPoint<BIG_ENDIAN, Mersenne61> {
    OpeningPoint::new(r.to_vec())
}

fn element(x: u64) -> Mersenne61 {
    Mersenne61::from_u64(x)
}

#[test]
fn prover_openings_are_read_back() {
    let mut transcript = PublicCoinTranscript::new(vec![]);
    let mut accumulator = ProverOpeningAccumulator::new();
    let flag = VirtualPolynomial::OpFlags(CircuitFlags::VirtualInstruction);
    accumulator.append_virtual(
        &mut transcript,
        VirtualPolynomial::PC,
        SumcheckId::SpartanShift,
        point(&[1, 2]),
        element(10),
    );
    accumulator.append_virtual(
        &mut transcript,
        flag,
        SumcheckId::SpartanShift,
        point(&[3]),
        element(11),
    );
    let (r, claim) =
        accumulator.get_virtual_polynomial_opening(VirtualPolynomial::PC, SumcheckId::SpartanShift);
    assert_eq!(r.r, vec![1, 2]);
    assert_eq!(claim, element(10));
    let (r, claim) = accumulator.get_virtual_polynomial_opening(flag, SumcheckId::SpartanShift);
    assert_eq!(r.r, vec![3]);
    assert_eq!(claim, element(11));
    assert_eq!(
        *transcript.record(),
        vec![Entry::Absorbed(element(10)), Entry::Absorbed(element(11))]
    );
}

#[test]
fn openings_are_told_apart() {
    let mut transcript = PublicCoinTranscript::new(vec![]);
    let mut accumulator = ProverOpeningAccumulator::new();
    assert!(!accumulator
        .has_virtual_polynomial_opening(VirtualPolynomial::PC, SumcheckId::SpartanShift));
    accumulator.append_virtual(
        &mut transcript,
        VirtualPolynomial::PC,
        SumcheckId::SpartanShift,
        point(&[]),
        element(1),
    );
    assert!(accumulator
        .has_virtual_polynomial_opening(VirtualPolynomial::PC, SumcheckId::SpartanShift));
    assert!(!accumulator
        .has_virtual_polynomial_opening(VirtualPolynomial::PC, SumcheckId::SpartanOuter));
    assert!(!accumulator
        .has_virtual_polynomial_opening(VirtualPolynomial::NextPC, SumcheckId::SpartanShift));
}

#[test]
fn a_later_opening_takes_the_place_of_an_earlier_one() {
    let mut transcript = PublicCoinTranscript::new(vec![]);
    let mut accumulator = ProverOpeningAccumulator::new();
    for claim in [5, 6] {
        accumulator.append_virtual(
            &mut transcript,
            VirtualPolynomial::NextPC,
            SumcheckId::SpartanOuter,
            point(&[claim as u32]),
            element(claim),
        );
    }
    let (r, claim) = accumulator
        .get_virtual_polynomial_opening(VirtualPolynomial::NextPC, SumcheckId::SpartanOuter);
    assert_eq!(r.r, vec![6]);
    assert_eq!(claim, element(6));
}

#[test]
fn verifier_sets_the_point_of_a_received_claim() {
    let mut transcript = PublicCoinTranscript::new(vec![]);
    let mut accumulator = VerifierOpeningAccumulator::new();
    accumulator.receive_claim(VirtualPolynomial::PC, SumcheckId::SpartanShift, element(9));
    let (r, claim) =
        accumulator.get_virtual_polynomial_opening(VirtualPolynomial::PC, SumcheckId::SpartanShift);
    assert!(r.r.is_empty());
    assert_eq!(claim, element(9));
    accumulator.append_virtual(
        &mut transcript,
        VirtualPolynomial::PC,
        SumcheckId::SpartanShift,
        point(&[4, 5]),
    );
    let (r, claim) =
        accumulator.get_virtual_polynomial_opening(VirtualPolynomial::PC, SumcheckId::SpartanShift);
    assert_eq!(r.r, vec![4, 5]);
    assert_eq!(claim, element(9));
    assert_eq!(*transcript.record(), vec![Entry::Absorbed(element(9))]);
}

#[test]
fn transcript_gives_the_coins_in_order() {
    let mut transcript = PublicCoinTranscript::new(vec![element(3), element(4)]);
    assert!(transcript.can_draw());
    assert_eq!(transcript.challenge_scalar(), element(3));
    assert!(transcript.can_draw());
    transcript.append_scalar(element(8));
    assert_eq!(transcript.challenge_scalar(), element(4));
    assert!(!transcript.can_draw());
    assert_eq!(
        *transcript.record(),
        vec![
            Entry::Drawn(element(3)),
            Entry::Absorbed(element(8)),
            Entry::Drawn(element(4)),
        ]
    );
}
