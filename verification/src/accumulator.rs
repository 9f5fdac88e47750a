//! The claims that one protocol step leaves for another.
use crate::field::JoltField;
use crate::opening::{OpeningPoint, BIG_ENDIAN};
use crate::transcript::Transcript;
use vstd::prelude::*;

verus! {

/// Flags of an instruction that the constraint system reads.
#[derive(Clone, Copy, Debug, PartialEq, Eq, Structural)]
pub enum CircuitFlags {
    VirtualInstruction,
    IsFirstInSequence,
}

/// Flags of an instruction that the constraint system does not read.
#[derive(Clone, Copy, Debug, PartialEq, Eq, Structural)]
pub enum InstructionFlags {
    IsNoop,
}

/// A polynomial over the cycles that is not committed to.
#[derive(Clone, Copy, Debug, PartialEq, Eq, Structural)]
pub enum VirtualPolynomial {
    UnexpandedPC,
    PC,
    NextUnexpandedPC,
    NextPC,
    NextIsVirtual,
    NextIsFirstInSequence,
    NextIsNoop,
    OpFlags(CircuitFlags),
    InstructionFlags(InstructionFlags),
}

/// The sumcheck at whose end a polynomial was opened.
#[derive(Clone, Copy, Debug, PartialEq, Eq, Structural)]
pub enum SumcheckId {
    SpartanOuter,
    ProductVirtualization,
    SpartanShift,
}

/// What an opening is filed under.
#[derive(Clone, Copy, Debug, PartialEq, Eq, Structural)]
pub struct OpeningId {
    pub polynomial: VirtualPolynomial,
    pub sumcheck: SumcheckId,
}

/// A polynomial takes the value `claim` at `point`.
#[verifier::ext_equal]
pub struct Opening {
    pub point: Seq<int>,
    pub claim: int,
}

/// `OpeningId` of a polynomial opened at the end of a sumcheck.
pub open spec fn opening_id(polynomial: VirtualPolynomial, sumcheck: SumcheckId) -> OpeningId {
    OpeningId { polynomial, sumcheck }
}

struct Entry<F: JoltField> {
    id: OpeningId,
    point: OpeningPoint<BIG_ENDIAN, F>,
    claim: F,
}

impl<F: JoltField> Entry<F> {
    spec fn opening(self) -> Opening {
        Opening { point: self.point@, claim: self.claim.value() }
    }
}

/// Openings by their id. A later entry takes the place of an earlier one.
struct OpeningLog<F: JoltField> {
    entries: Vec<Entry<F>>,
}

spec fn filed<F: JoltField>(entries: Seq<Entry<F>>) -> Map<OpeningId, Opening>
    decreases entries.len(),
{
    if entries.len() == 0 {
        Map::empty()
    } else {
        filed(entries.drop_last()).insert(entries.last().id, entries.last().opening())
    }
}

/// What is filed in the first `k` entries is filed in all of them.
proof fn lemma_filed_stays<F: JoltField>(entries: Seq<Entry<F>>, k: int, id: OpeningId)
    requires
        0 <= k <= entries.len(),
        filed(entries.take(k)).contains_key(id),
    ensures
        filed(entries).contains_key(id),
    decreases entries.len() - k,
{
    if k == entries.len() {
        assert(entries.take(k) =~= entries);
    } else {
        assert(entries.take(k + 1).drop_last() =~= entries.take(k));
        lemma_filed_stays(entries, k + 1, id);
    }
}

impl<F: JoltField> View for OpeningLog<F> {
    type V = Map<OpeningId, Opening>;

    closed spec fn view(&self) -> Map<OpeningId, Opening> {
        filed(self.entries@)
    }
}

impl<F: JoltField> OpeningLog<F> {
    fn new() -> (log: Self)
        ensures
            log@ == Map::<OpeningId, Opening>::empty(),
    {
        OpeningLog { entries: Vec::new() }
    }

    fn insert(&mut self, id: OpeningId, point: OpeningPoint<BIG_ENDIAN, F>, claim: F)
        ensures
            final(self)@ == old(self)@.insert(
                id,
                Opening { point: point@, claim: claim.value() },
            ),
    {
        self.entries.push(Entry { id, point, claim });
        assert(self.entries@.drop_last() =~= old(self).entries@);
    }

    fn contains(&self, id: OpeningId) -> (found: bool)
        ensures
            found == self@.contains_key(id),
    {
        let mut k: usize = 0;
        while k < self.entries.len()
            invariant
                k <= self.entries@.len(),
                !filed(self.entries@.take(k as int)).contains_key(id),
            decreases self.entries.len() - k,
        {
            assert(self.entries@.take(k + 1).drop_last() =~= self.entries@.take(k as int));
            if self.entries[k].id == id {
                proof {
                    lemma_filed_stays(self.entries@, k + 1, id);
                }
                return true;
            }
            k += 1;
        }
        assert(self.entries@.take(k as int) =~= self.entries@);
        false
    }

    fn get(&self, id: OpeningId) -> (opening: (OpeningPoint<BIG_ENDIAN, F>, F))
        requires
            self@.contains_key(id),
        ensures
            opening.0@ == self@[id].point,
            opening.1.value() == self@[id].claim,
    {
        let mut k: usize = self.entries.len() - 1;
        assert(self.entries@.take(k + 1) =~= self.entries@);
        while self.entries[k].id != id
            invariant
                k < self.entries@.len(),
                filed(self.entries@.take(k + 1)).contains_key(id),
                filed(self.entries@.take(k + 1))[id] == self@[id],
            decreases k,
        {
            assert(self.entries@.take(k + 1).drop_last() =~= self.entries@.take(k as int));
            assert(self.entries@.take(k + 1).last() == self.entries@[k as int]);
            assert(filed(self.entries@.take(k as int)).contains_key(id));
            assert(k > 0);
            k -= 1;
        }
        assert(self.entries@.take(k + 1).last() == self.entries@[k as int]);
        let entry = &self.entries[k];
        (entry.point.clone(), entry.claim)
    }
}

/// Where claims are looked up.
pub trait OpeningAccumulator<F: JoltField> {
    spec fn openings(&self) -> Map<OpeningId, Opening>;

    /// Whether `polynomial` was opened at the end of `sumcheck`.
    fn has_virtual_polynomial_opening(
        &self,
        polynomial: VirtualPolynomial,
        sumcheck: SumcheckId,
    ) -> (found: bool)
        ensures
            found == self.openings().contains_key(opening_id(polynomial, sumcheck)),
    ;

    /// The point at which `polynomial` was opened at the end of `sumcheck`, and its
    /// value there.
    fn get_virtual_polynomial_opening(
        &self,
        polynomial: VirtualPolynomial,
        sumcheck: SumcheckId,
    ) -> (opening: (OpeningPoint<BIG_ENDIAN, F>, F))
        requires
            self.openings().contains_key(opening_id(polynomial, sumcheck)),
        ensures
            opening.0@ == self.openings()[opening_id(polynomial, sumcheck)].point,
            opening.1.value() == self.openings()[opening_id(polynomial, sumcheck)].claim,
    ;
}

/// The openings that a prover has made so far.
pub struct ProverOpeningAccumulator<F: JoltField> {
    log: OpeningLog<F>,
}

impl<F: JoltField> OpeningAccumulator<F> for ProverOpeningAccumulator<F> {
    closed spec fn openings(&self) -> Map<OpeningId, Opening> {
        self.log@
    }

    fn has_virtual_polynomial_opening(
        &self,
        polynomial: VirtualPolynomial,
        sumcheck: SumcheckId,
    ) -> (found: bool) {
        self.log.contains(OpeningId { polynomial, sumcheck })
    }

    fn get_virtual_polynomial_opening(
        &self,
        polynomial: VirtualPolynomial,
        sumcheck: SumcheckId,
    ) -> (opening: (OpeningPoint<BIG_ENDIAN, F>, F)) {
        self.log.get(OpeningId { polynomial, sumcheck })
    }
}

impl<F: JoltField> ProverOpeningAccumulator<F> {
    pub fn new() -> (accumulator: Self)
        ensures
            accumulator.openings() == Map::<OpeningId, Opening>::empty(),
    {
        ProverOpeningAccumulator { log: OpeningLog::new() }
    }

    /// Files an opening and has the transcript absorb its claim.
    pub fn append_virtual<T: Transcript<F>>(
        &mut self,
        transcript: &mut T,
        polynomial: VirtualPolynomial,
        sumcheck: SumcheckId,
        opening_point: OpeningPoint<BIG_ENDIAN, F>,
        claim: F,
    )
        ensures
            final(self).openings() == old(self).openings().insert(
                opening_id(polynomial, sumcheck),
                (Opening { point: opening_point@, claim: claim.value() }),
            ),
            final(transcript).state() == old(transcript).state().absorb(claim.value()),
    {
        transcript.append_scalar(claim);
        self.log.insert(OpeningId { polynomial, sumcheck }, opening_point, claim);
    }
}

/// The claims that a verifier was given with the proof, and the points at which
/// they were made so far.
pub struct VerifierOpeningAccumulator<F: JoltField> {
    log: OpeningLog<F>,
}

impl<F: JoltField> OpeningAccumulator<F> for VerifierOpeningAccumulator<F> {
    closed spec fn openings(&self) -> Map<OpeningId, Opening> {
        self.log@
    }

    fn has_virtual_polynomial_opening(
        &self,
        polynomial: VirtualPolynomial,
        sumcheck: SumcheckId,
    ) -> (found: bool) {
        self.log.contains(OpeningId { polynomial, sumcheck })
    }

    fn get_virtual_polynomial_opening(
        &self,
        polynomial: VirtualPolynomial,
        sumcheck: SumcheckId,
    ) -> (opening: (OpeningPoint<BIG_ENDIAN, F>, F)) {
        self.log.get(OpeningId { polynomial, sumcheck })
    }
}

impl<F: JoltField> VerifierOpeningAccumulator<F> {
    pub fn new() -> (accumulator: Self)
        ensures
            accumulator.openings() == Map::<OpeningId, Opening>::empty(),
    {
        VerifierOpeningAccumulator { log: OpeningLog::new() }
    }

    /// Files a claim that came with the proof. Its point is not known yet.
    pub fn receive_claim(
        &mut self,
        polynomial: VirtualPolynomial,
        sumcheck: SumcheckId,
        claim: F,
    )
        ensures
            final(self).openings() == old(self).openings().insert(
                opening_id(polynomial, sumcheck),
                (Opening { point: Seq::empty(), claim: claim.value() }),
            ),
    {
        let point = OpeningPoint::new(Vec::new());
        assert(point@ =~= Seq::<int>::empty());
        self.log.insert(OpeningId { polynomial, sumcheck }, point, claim);
    }

    /// Sets the point of a claim that came with the proof and has the transcript
    /// absorb the claim.
    pub fn append_virtual<T: Transcript<F>>(
        &mut self,
        transcript: &mut T,
        polynomial: VirtualPolynomial,
        sumcheck: SumcheckId,
        opening_point: OpeningPoint<BIG_ENDIAN, F>,
    )
        requires
            old(self).openings().contains_key(opening_id(polynomial, sumcheck)),
        ensures
            final(self).openings() == old(self).openings().insert(
                opening_id(polynomial, sumcheck),
                (Opening {
                    point: opening_point@,
                    claim: old(self).openings()[opening_id(polynomial, sumcheck)].claim,
                }),
            ),
            final(transcript).state() == old(transcript).state().absorb(
                old(self).openings()[opening_id(polynomial, sumcheck)].claim,
            ),
    {
        let id = OpeningId { polynomial, sumcheck };
        let (_, claim) = self.log.get(id);
        transcript.append_scalar(claim);
        self.log.insert(id, opening_point, claim);
    }
}

} // verus!
