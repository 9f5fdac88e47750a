//! Finite sums of integers.
use crate::modular::{congruent, lemma_congruent_add};
use vstd::prelude::*;

verus! {

/// `f(0) + f(1) + ... + f(n - 1)`.
pub open spec fn sum(f: spec_fn(int) -> int, n: int) -> int
    decreases n,
{
    if n <= 0 {
        0
    } else {
        sum(f, n - 1) + f(n - 1)
    }
}

/// `f(lo) + f(lo + 1) + ... + f(hi - 1)`.
pub open spec fn sum_between(f: spec_fn(int) -> int, lo: int, hi: int) -> int {
    sum(f, hi) - sum(f, lo)
}

pub proof fn lemma_sum_add(
    f: spec_fn(int) -> int,
    g: spec_fn(int) -> int,
    h: spec_fn(int) -> int,
    n: int,
)
    requires
        forall|i: int| 0 <= i < n ==> #[trigger] h(i) == f(i) + g(i),
    ensures
        sum(h, n) == sum(f, n) + sum(g, n),
    decreases n,
{
    if n > 0 {
        assert(h(n - 1) == f(n - 1) + g(n - 1));
        lemma_sum_add(f, g, h, n - 1);
    }
}

pub proof fn lemma_sum_scale(c: int, f: spec_fn(int) -> int, g: spec_fn(int) -> int, n: int)
    requires
        forall|i: int| 0 <= i < n ==> #[trigger] g(i) == c * f(i),
    ensures
        sum(g, n) == c * sum(f, n),
    decreases n,
{
    if n > 0 {
        assert(g(n - 1) == c * f(n - 1));
        lemma_sum_scale(c, f, g, n - 1);
        let s = sum(f, n - 1);
        let t = f(n - 1);
        assert(c * (s + t) == c * s + c * t) by (nonlinear_arith);
    } else {
        assert(c * 0 == 0) by (nonlinear_arith);
    }
}

/// A sum over an even range, taken two neighbours at a time.
pub proof fn lemma_sum_pairs(f: spec_fn(int) -> int, g: spec_fn(int) -> int, n: int)
    requires
        n >= 0,
        forall|i: int| 0 <= i < n ==> #[trigger] g(i) == f(2 * i) + f(2 * i + 1),
    ensures
        sum(f, 2 * n) == sum(g, n),
    decreases n,
{
    if n > 0 {
        assert(g(n - 1) == f(2 * (n - 1)) + f(2 * (n - 1) + 1));
        lemma_sum_pairs(f, g, n - 1);
        assert(sum(f, 2 * n) == sum(f, 2 * n - 1) + f(2 * n - 1));
        assert(sum(f, 2 * n - 1) == sum(f, 2 * n - 2) + f(2 * n - 2));
    }
}

/// The first term of a sum, split off.
pub proof fn lemma_sum_first(f: spec_fn(int) -> int, g: spec_fn(int) -> int, n: int)
    requires
        n >= 1,
        forall|i: int| 0 <= i < n - 1 ==> #[trigger] g(i) == f(i + 1),
    ensures
        sum(f, n) == f(0) + sum(g, n - 1),
    decreases n,
{
    if n > 1 {
        assert(g(n - 2) == f(n - 1));
        lemma_sum_first(f, g, n - 1);
    } else {
        assert(sum(f, 0) == 0);
        assert(sum(f, 1) == sum(f, 0) + f(0));
    }
}

pub proof fn lemma_sum_congruent(
    f: spec_fn(int) -> int,
    g: spec_fn(int) -> int,
    n: int,
    m: int,
)
    requires
        m > 0,
        forall|i: int| 0 <= i < n ==> congruent(#[trigger] f(i), g(i), m),
    ensures
        congruent(sum(f, n), sum(g, n), m),
    decreases n,
{
    if n > 0 {
        assert(congruent(f(n - 1), g(n - 1), m));
        lemma_sum_congruent(f, g, n - 1, m);
        lemma_congruent_add(sum(f, n - 1), f(n - 1), sum(g, n - 1), g(n - 1), m);
    }
}

} // verus!
