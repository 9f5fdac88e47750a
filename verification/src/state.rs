//! What is handed from one protocol stage to the next.
use crate::witness::CycleRow;
use std::sync::Arc;
use vstd::prelude::*;

verus! {

/// The transcript and the openings so far. A prover has the trace too.
pub struct StateManager<T, A> {
    pub transcript: T,
    pub accumulator: A,
    pub trace: Option<Arc<Vec<CycleRow>>>,
}

} // verus!
