//! Work that runs on the thread pool.
use crate::field::JoltField;
use crate::modular::reduced;
use crate::multilinear::bound;
use crate::polynomial::MultilinearPolynomial;
use rayon::iter::{IntoParallelIterator, ParallelIterator};
use vstd::prelude::*;

verus! {

/// One way in which a run of indices was mapped and combined into a result.
pub enum Reduction<T> {
    /// The identity element, over no index.
    Identity(T),
    /// One index, mapped.
    Mapped(T),
    /// Two neighbouring runs, combined.
    Combined(T, Box<Reduction<T>>, Box<Reduction<T>>),
}

impl<T> Reduction<T> {
    pub open spec fn result(self) -> T {
        match self {
            Reduction::Identity(out) => out,
            Reduction::Mapped(out) => out,
            Reduction::Combined(out, _, _) => out,
        }
    }

    /// The number of indices in the run.
    pub open spec fn span(self) -> nat
        decreases self,
    {
        match self {
            Reduction::Identity(_) => 0,
            Reduction::Mapped(_) => 1,
            Reduction::Combined(_, left, right) => left.span() + right.span(),
        }
    }

    /// Every step from the index `lo` on is a call of `map`, `identity` or `op`,
    /// and the runs follow each other in the order of the indices.
    pub open spec fn follows<M: Fn(usize) -> T, I: Fn() -> T, O: Fn(T, T) -> T>(
        self,
        map: M,
        identity: I,
        op: O,
        lo: int,
    ) -> bool
        decreases self,
    {
        match self {
            Reduction::Identity(out) => call_ensures(identity, (), out),
            Reduction::Mapped(out) => call_ensures(map, (lo as usize,), out),
            Reduction::Combined(out, left, right) => {
                &&& left.follows(map, identity, op, lo)
                &&& right.follows(map, identity, op, lo + left.span())
                &&& call_ensures(op, (left.result(), right.result()), out)
            },
        }
    }
}

/// `out` comes of the indices `0 .. len` in some way.
pub open spec fn reduces_to<T, M: Fn(usize) -> T, I: Fn() -> T, O: Fn(T, T) -> T>(
    map: M,
    identity: I,
    op: O,
    len: usize,
    out: T,
) -> bool {
    exists|tree: Reduction<T>|
        tree.result() == out && tree.span() == len && #[trigger] tree.follows(map, identity, op, 0)
}

/// The indices `0 .. len` as a parallel iterator, mapped and reduced: rayon's
/// `IntoParallelIterator::into_par_iter` on a range of `usize`,
/// `ParallelIterator::map` and `ParallelIterator::reduce`.
///
/// Trusted: every index is mapped once, the results are combined with `op` in the
/// order of the indices, and identity elements are put in where a run of indices
/// begins. How the combination is bracketed is left open, as rayon leaves it.
#[verifier::external_body]
pub(crate) fn map_reduce<T, M, I, O>(len: usize, map: M, identity: I, op: O) -> (out: T)
    where
        T: Send,
        M: Fn(usize) -> T + Sync + Send,
        I: Fn() -> T + Sync + Send,
        O: Fn(T, T) -> T + Sync + Send,

    requires
        forall|i: usize| i < len ==> call_requires(map, (i,)),
        call_requires(identity, ()),
        forall|a: T, b: T| call_requires(op, (a, b)),
    ensures
        reduces_to(map, identity, op, len, out),
{
    (0..len).into_par_iter().map(map).reduce(identity, op)
}

/// What holds of an identity element over no index, of a mapped index over that
/// index, and of a combination whenever it holds of its parts, holds of the result.
pub proof fn lemma_reduction<T, M: Fn(usize) -> T, I: Fn() -> T, O: Fn(T, T) -> T>(
    tree: Reduction<T>,
    map: M,
    identity: I,
    op: O,
    lo: int,
    len: usize,
    holds: spec_fn(int, int, T) -> bool,
)
    requires
        0 <= lo,
        lo + tree.span() <= len,
        tree.follows(map, identity, op, lo),
        forall|k: int, e: T|
            0 <= k <= len && #[trigger] call_ensures(identity, (), e) ==> #[trigger] holds(k, k, e),
        forall|k: usize, e: T|
            k < len && #[trigger] call_ensures(map, (k,), e) ==> holds(k as int, k + 1, e),
        forall|a: int, b: int, c: int, x: T, y: T, z: T|
            0 <= a <= b <= c <= len && #[trigger] holds(a, b, x) && #[trigger] holds(b, c, y)
                && #[trigger] call_ensures(op, (x, y), z) ==> holds(a, c, z),
    ensures
        holds(lo, lo + tree.span(), tree.result()),
    decreases tree,
{
    match tree {
        Reduction::Identity(out) => {
            assert(holds(lo, lo, out));
        },
        Reduction::Mapped(out) => {
            assert(call_ensures(map, (lo as usize,), out));
        },
        Reduction::Combined(out, left, right) => {
            lemma_reduction(*left, map, identity, op, lo, len, holds);
            lemma_reduction(*right, map, identity, op, lo + left.span(), len, holds);
            assert(holds(lo, lo + left.span(), left.result()));
            assert(holds(lo + left.span(), lo + tree.span(), right.result()));
        },
    }
}

/// Sets the lowest variable of four polynomials to `r`, each in a task of its own:
/// rayon's `scope` and `Scope::spawn`.
///
/// Trusted: every spawned task runs once, and `scope` returns after all of them
/// have. Each task is one call of `MultilinearPolynomial::bind` on a polynomial
/// that no other task holds.
#[verifier::external_body]
pub(crate) fn bind_all<F: JoltField>(
    a: &mut MultilinearPolynomial<F>,
    b: &mut MultilinearPolynomial<F>,
    c: &mut MultilinearPolynomial<F>,
    d: &mut MultilinearPolynomial<F>,
    r: F::Challenge,
)
    requires
        old(a)@.len() > 0 && old(a)@.len() % 2 == 0,
        old(b)@.len() > 0 && old(b)@.len() % 2 == 0,
        old(c)@.len() > 0 && old(c)@.len() % 2 == 0,
        old(d)@.len() > 0 && old(d)@.len() % 2 == 0,
    ensures
        final(a)@ == reduced(bound(old(a)@, F::challenge_value(r)), F::modulus()),
        final(b)@ == reduced(bound(old(b)@, F::challenge_value(r)), F::modulus()),
        final(c)@ == reduced(bound(old(c)@, F::challenge_value(r)), F::modulus()),
        final(d)@ == reduced(bound(old(d)@, F::challenge_value(r)), F::modulus()),
{
    rayon::scope(|s| {
        s.spawn(|_| a.bind(r));
        s.spawn(|_| b.bind(r));
        s.spawn(|_| c.bind(r));
        s.spawn(|_| d.bind(r));
    });
}

} // verus!
