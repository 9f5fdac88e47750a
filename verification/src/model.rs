//! The shift sumcheck over the integers: what its two sides hold, say and file.
use crate::accumulator::{
    opening_id, CircuitFlags, InstructionFlags, Opening, OpeningId, SumcheckId, VirtualPolynomial,
};
use crate::modular::reduced;
use crate::multilinear::{bound, eq_plus_one, eq_plus_one_table, line, mle};
use crate::sums::sum;
use crate::witness::{
    combined_column, is_first_in_sequence_column, is_noop_column, is_virtual_column, pc_column,
    unexpanded_pc_column, CycleRow,
};
use vstd::arithmetic::logarithm::log;
use vstd::arithmetic::power::pow;
use vstd::prelude::*;

verus! {

/// What both sides of the sumcheck know.
#[verifier::ext_equal]
pub struct ShiftParams {
    pub gamma_powers: Seq<int>,
    pub n_cycle_vars: nat,
    pub r_cycle: Seq<int>,
    pub r_product: Seq<int>,
}

impl ShiftParams {
    pub open spec fn wf(self) -> bool {
        &&& self.gamma_powers.len() == 5
        &&& self.gamma_powers[0] == 1
        &&& self.r_cycle.len() == self.n_cycle_vars
        &&& self.r_product.len() == self.n_cycle_vars
    }
}

pub open spec fn next_pc() -> OpeningId {
    opening_id(VirtualPolynomial::NextPC, SumcheckId::SpartanOuter)
}

pub open spec fn next_unexpanded_pc() -> OpeningId {
    opening_id(VirtualPolynomial::NextUnexpandedPC, SumcheckId::SpartanOuter)
}

pub open spec fn next_is_virtual() -> OpeningId {
    opening_id(VirtualPolynomial::NextIsVirtual, SumcheckId::SpartanOuter)
}

pub open spec fn next_is_first_in_sequence() -> OpeningId {
    opening_id(VirtualPolynomial::NextIsFirstInSequence, SumcheckId::SpartanOuter)
}

pub open spec fn next_is_noop() -> OpeningId {
    opening_id(VirtualPolynomial::NextIsNoop, SumcheckId::ProductVirtualization)
}

pub open spec fn shift_unexpanded_pc() -> OpeningId {
    opening_id(VirtualPolynomial::UnexpandedPC, SumcheckId::SpartanShift)
}

pub open spec fn shift_pc() -> OpeningId {
    opening_id(VirtualPolynomial::PC, SumcheckId::SpartanShift)
}

pub open spec fn shift_is_virtual() -> OpeningId {
    opening_id(
        VirtualPolynomial::OpFlags(CircuitFlags::VirtualInstruction),
        SumcheckId::SpartanShift,
    )
}

pub open spec fn shift_is_first_in_sequence() -> OpeningId {
    opening_id(
        VirtualPolynomial::OpFlags(CircuitFlags::IsFirstInSequence),
        SumcheckId::SpartanShift,
    )
}

pub open spec fn shift_is_noop() -> OpeningId {
    opening_id(
        VirtualPolynomial::InstructionFlags(InstructionFlags::IsNoop),
        SumcheckId::SpartanShift,
    )
}

/// The number of variables that index `num_steps` cycles.
pub open spec fn cycle_vars(num_steps: usize) -> nat {
    log(2, num_steps as int) as nat
}

/// `openings` has the two points that the parameters are cut from, and they are
/// long enough.
pub open spec fn has_points(openings: Map<OpeningId, Opening>, num_steps: usize) -> bool {
    &&& openings.contains_key(next_pc())
    &&& openings[next_pc()].point.len() >= cycle_vars(num_steps)
    &&& openings.contains_key(next_is_noop())
    &&& openings[next_is_noop()].point.len() >= cycle_vars(num_steps)
}

/// The parameters for the batching scalar `gamma`.
pub open spec fn shift_params(
    gamma: int,
    openings: Map<OpeningId, Opening>,
    num_steps: usize,
    modulus: int,
) -> ShiftParams {
    ShiftParams {
        gamma_powers: Seq::new(5, |i: int| pow(gamma, i as nat) % modulus),
        n_cycle_vars: cycle_vars(num_steps),
        r_cycle: openings[next_pc()].point.take(cycle_vars(num_steps) as int),
        r_product: openings[next_is_noop()].point.take(cycle_vars(num_steps) as int),
    }
}

/// `openings` has the claims that the sumcheck starts from.
pub open spec fn has_input_claims(openings: Map<OpeningId, Opening>) -> bool {
    &&& openings.contains_key(next_pc())
    &&& openings.contains_key(next_unexpanded_pc())
    &&& openings.contains_key(next_is_virtual())
    &&& openings.contains_key(next_is_first_in_sequence())
    &&& openings.contains_key(next_is_noop())
}

/// The right-hand side of the identity.
pub open spec fn shift_input_claim(
    params: ShiftParams,
    openings: Map<OpeningId, Opening>,
) -> int {
    openings[next_unexpanded_pc()].claim + openings[next_pc()].claim * params.gamma_powers[1]
        + openings[next_is_virtual()].claim * params.gamma_powers[2]
        + openings[next_is_first_in_sequence()].claim * params.gamma_powers[3] + (1
        - openings[next_is_noop()].claim) * params.gamma_powers[4]
}

/// What a prover holds in the course of the sumcheck.
#[verifier::ext_equal]
pub struct ShiftProver {
    pub params: ShiftParams,
    pub trace: Seq<CycleRow>,
    pub combined_witness: Seq<int>,
    pub is_noop: Seq<int>,
    pub eq_plus_one_r_cycle: Seq<int>,
    pub eq_plus_one_r_product: Seq<int>,
}

impl ShiftProver {
    /// The four polynomials have the same variables left.
    pub open spec fn aligned(self) -> bool {
        &&& self.is_noop.len() == self.combined_witness.len()
        &&& self.eq_plus_one_r_cycle.len() == self.combined_witness.len()
        &&& self.eq_plus_one_r_product.len() == self.combined_witness.len()
    }

    /// Before the first round.
    pub open spec fn initial(params: ShiftParams, trace: Seq<CycleRow>, modulus: int) -> Self {
        ShiftProver {
            params,
            trace,
            combined_witness: reduced(combined_column(trace, params.gamma_powers), modulus),
            is_noop: is_noop_column(trace),
            eq_plus_one_r_cycle: reduced(eq_plus_one_table(params.r_cycle), modulus),
            eq_plus_one_r_product: reduced(eq_plus_one_table(params.r_product), modulus),
        }
    }

    /// The sum, over the variables that are left, of the summand.
    pub open spec fn claim(self) -> int {
        sum(self.term(), self.combined_witness.len() as int)
    }

    pub open spec fn term(self) -> spec_fn(int) -> int {
        |i: int|
            self.combined_witness[i] * self.eq_plus_one_r_cycle[i] + self.params.gamma_powers[4] * (1
                - self.is_noop[i]) * self.eq_plus_one_r_product[i]
    }

    /// After the lowest variable was set to `r`.
    pub open spec fn bind(self, r: int, modulus: int) -> Self {
        ShiftProver {
            combined_witness: reduced(bound(self.combined_witness, r), modulus),
            is_noop: reduced(bound(self.is_noop, r), modulus),
            eq_plus_one_r_cycle: reduced(bound(self.eq_plus_one_r_cycle, r), modulus),
            eq_plus_one_r_product: reduced(bound(self.eq_plus_one_r_product, r), modulus),
            ..self
        }
    }

    /// After the variables were set to `challenges`, from the lowest on.
    pub open spec fn after(self, challenges: Seq<int>, modulus: int) -> Self
        decreases challenges.len(),
    {
        if challenges.len() == 0 {
            self
        } else {
            self.after(challenges.drop_last(), modulus).bind(challenges.last(), modulus)
        }
    }

    /// The round polynomial at 0 and at 2, reduced.
    pub open spec fn message(self, modulus: int) -> Seq<int> {
        seq![self.round_poly(0) % modulus, self.round_poly(2) % modulus]
    }

    /// The summand with the lowest variable at `t` and the others at the bits of `i`.
    pub open spec fn round_term(self, t: int) -> spec_fn(int) -> int {
        |i: int|
            line(self.combined_witness, i, t) * line(self.eq_plus_one_r_cycle, i, t)
                + self.params.gamma_powers[4] * (1 - line(self.is_noop, i, t)) * line(
                self.eq_plus_one_r_product,
                i,
                t,
            )
    }

    /// The round polynomial at `t`: the summand, summed over all variables but the
    /// lowest.
    pub open spec fn round_poly(self, t: int) -> int {
        sum(self.round_term(t), (self.combined_witness.len() / 2) as int)
    }

    /// The claims that end the sumcheck: the columns at the point of the challenges.
    pub open spec fn output_claims(self, point: Seq<int>, modulus: int) -> ShiftClaims {
        ShiftClaims {
            unexpanded_pc: mle(unexpanded_pc_column(self.trace), point) % modulus,
            pc: mle(pc_column(self.trace), point) % modulus,
            is_virtual: mle(is_virtual_column(self.trace), point) % modulus,
            is_first_in_sequence: mle(is_first_in_sequence_column(self.trace), point) % modulus,
            is_noop: self.is_noop[0],
        }
    }
}

/// Claims about the five columns at one point.
#[verifier::ext_equal]
pub struct ShiftClaims {
    pub unexpanded_pc: int,
    pub pc: int,
    pub is_virtual: int,
    pub is_first_in_sequence: int,
    pub is_noop: int,
}

impl ShiftClaims {
    /// In the order in which the transcript absorbs them.
    pub open spec fn absorbed(self) -> Seq<int> {
        seq![self.unexpanded_pc, self.pc, self.is_virtual, self.is_first_in_sequence, self.is_noop]
    }

    /// `openings` with these claims filed, all at `point`.
    pub open spec fn file(
        self,
        openings: Map<OpeningId, Opening>,
        point: Seq<int>,
    ) -> Map<OpeningId, Opening> {
        openings.insert(
            shift_unexpanded_pc(),
            (Opening { point, claim: self.unexpanded_pc }),
        ).insert(shift_pc(), (Opening { point, claim: self.pc })).insert(
            shift_is_virtual(),
            (Opening { point, claim: self.is_virtual }),
        ).insert(
            shift_is_first_in_sequence(),
            (Opening { point, claim: self.is_first_in_sequence }),
        ).insert(shift_is_noop(), (Opening { point, claim: self.is_noop }))
    }

    /// The five claims that are filed in `openings`.
    pub open spec fn filed(openings: Map<OpeningId, Opening>) -> Self {
        ShiftClaims {
            unexpanded_pc: openings[shift_unexpanded_pc()].claim,
            pc: openings[shift_pc()].claim,
            is_virtual: openings[shift_is_virtual()].claim,
            is_first_in_sequence: openings[shift_is_first_in_sequence()].claim,
            is_noop: openings[shift_is_noop()].claim,
        }
    }

    /// The summand at `point`, from the claims about its columns there.
    pub open spec fn expected_output(self, params: ShiftParams, point: Seq<int>) -> int {
        (params.gamma_powers[0] * self.unexpanded_pc + params.gamma_powers[1] * self.pc
            + params.gamma_powers[2] * self.is_virtual + params.gamma_powers[3]
            * self.is_first_in_sequence) * eq_plus_one(params.r_cycle, point)
            + params.gamma_powers[4] * (1 - self.is_noop) * eq_plus_one(params.r_product, point)
    }
}

/// `openings` has the five claims that end the sumcheck.
pub open spec fn has_output_claims(openings: Map<OpeningId, Opening>) -> bool {
    &&& openings.contains_key(shift_unexpanded_pc())
    &&& openings.contains_key(shift_pc())
    &&& openings.contains_key(shift_is_virtual())
    &&& openings.contains_key(shift_is_first_in_sequence())
    &&& openings.contains_key(shift_is_noop())
}

} // verus!
