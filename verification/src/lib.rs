//! The shift sumcheck of a Spartan-style virtual machine proof, verified.
//!
//! Claims about the program counter and the flags of the *next* cycle are reduced to
//! claims about the cycle itself. [`shift`] holds the prover and the verifier,
//! [`model`] says over the integers what they compute, [`characterization`] ties what
//! is said there to the trace, the openings and the transcript, and [`completeness`]
//! proves that a prover that follows the protocol is accepted. The polynomials over
//! the trace are in [`witness`], "the cycle after" is in [`eq_plus_one`], and what one
//! protocol step leaves for another is in [`accumulator`].
pub mod accumulator;
pub mod characterization;
pub mod completeness;
pub mod eq_plus_one;
pub mod field;
pub mod mersenne61;
pub mod model;
pub mod modular;
pub mod multilinear;
pub mod opening;
pub mod parallel;
pub mod polynomial;
pub mod shift;
pub mod state;
pub mod sums;
pub mod transcript;
pub mod witness;
