# spartan_shift

The shift sumcheck of a Spartan-style virtual machine proof, verified with Verus. It
reduces claims about the program counter and the flags of the next cycle to claims
about the cycle itself, for any field of integers modulo a number.

- `src/shift.rs`: prover and verifier.
- `src/model.rs`: what they compute, over the integers.
- `src/completeness.rs`: the batched identity, the round checks, and the proof that a
  prover that follows the protocol is accepted.
- `src/witness.rs`, `src/eq_plus_one.rs`, `src/polynomial.rs`, `src/multilinear.rs`:
  the polynomials over the trace and their extensions.
- `src/opening.rs`, `src/accumulator.rs`, `src/transcript.rs`, `src/state.rs`: points,
  claims, where they are filed, and the transcript.
- `src/field.rs`, `src/mersenne61.rs`: the field and one instance of it.
- `src/parallel.rs`: work on the rayon thread pool. Its two functions that call rayon
  are trusted; everything else is proved.
- `app/`: the stage with tracing spans and a memory profile.
