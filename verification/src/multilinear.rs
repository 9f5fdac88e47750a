//! Multilinear extensions.
//!
//! A table of `2^n` integers is a function on the indices `0 .. 2^n`, each read
//! as `n` bits with the most significant bit first. Its multilinear extension
//! takes a point of `n` coordinates, in the same order.
use crate::modular::{all_congruent, congruent, lemma_congruent_mul};
use crate::sums::{
    lemma_sum_add, lemma_sum_congruent, lemma_sum_first, lemma_sum_pairs, lemma_sum_scale, sum,
};
use vstd::arithmetic::power2::{lemma2_to64, lemma_pow2_pos, lemma_pow2_unfold, pow2};
use vstd::prelude::*;

verus! {

/// The extension of "the index is `i`", at the point `x`: the product over the
/// coordinates of `x` where the bit of `i` is set, and of `1 - x` where it is not.
pub open spec fn eq_at(x: Seq<int>, i: int) -> int
    decreases x.len(),
{
    if x.len() == 0 {
        1
    } else {
        eq_at(x.drop_last(), i / 2) * (if i % 2 == 1 {
            x.last()
        } else {
            1 - x.last()
        })
    }
}

/// The extension of "the index before `j` is the one at `x`", at the point `x`.
/// Index 0 comes after nothing: there is no wrap-around.
pub open spec fn eq_plus_one_at(x: Seq<int>, j: int) -> int {
    if j == 0 {
        0
    } else {
        eq_at(x, j - 1)
    }
}

/// `eq_at(x, i)` for all indices `i`.
pub open spec fn eq_table(x: Seq<int>) -> Seq<int> {
    Seq::new(pow2(x.len()), |i: int| eq_at(x, i))
}

/// `eq_plus_one_at(x, j)` for all indices `j`.
pub open spec fn eq_plus_one_table(x: Seq<int>) -> Seq<int> {
    Seq::new(pow2(x.len()), |j: int| eq_plus_one_at(x, j))
}

pub open spec fn mle_term(table: Seq<int>, x: Seq<int>) -> spec_fn(int) -> int {
    |i: int| table[i] * eq_at(x, i)
}

/// The multilinear extension of `table`, at the point `x`.
pub open spec fn mle(table: Seq<int>, x: Seq<int>) -> int {
    sum(mle_term(table, x), table.len() as int)
}

/// The extension, in both arguments, of "`y` is the index after `x`".
pub open spec fn eq_plus_one(x: Seq<int>, y: Seq<int>) -> int {
    mle(eq_plus_one_table(x), y)
}

/// The value at `t` of the line through the entries `2 i` and `2 i + 1`.
pub open spec fn line(table: Seq<int>, i: int, t: int) -> int {
    table[2 * i] + t * (table[2 * i + 1] - table[2 * i])
}

/// The table with its lowest variable set to `t`.
pub open spec fn bound(table: Seq<int>, t: int) -> Seq<int> {
    Seq::new((table.len() / 2) as nat, |i: int| line(table, i, t))
}

/// `table` one index later: the entry at `i` is the one that was at `i + 1`, and
/// 0 comes in at the end.
pub open spec fn next(table: Seq<int>) -> Seq<int> {
    Seq::new(
        table.len(),
        |i: int|
            if i + 1 < table.len() {
                table[i + 1]
            } else {
                0
            },
    )
}

/// Setting the lowest variable leaves the extension in the other variables.
pub proof fn lemma_mle_bound(table: Seq<int>, x: Seq<int>)
    requires
        x.len() > 0,
        table.len() % 2 == 0,
    ensures
        mle(table, x) == mle(bound(table, x.last()), x.drop_last()),
{
    let r = x.last();
    let half = (table.len() / 2) as int;
    let f = mle_term(table, x);
    let g = mle_term(bound(table, r), x.drop_last());
    assert forall|i: int| 0 <= i < half implies #[trigger] g(i) == f(2 * i) + f(2 * i + 1) by {
        let e = eq_at(x.drop_last(), i);
        assert((2 * i) / 2 == i && (2 * i) % 2 == 0);
        assert((2 * i + 1) / 2 == i && (2 * i + 1) % 2 == 1);
        assert(eq_at(x, 2 * i) == e * (1 - r));
        assert(eq_at(x, 2 * i + 1) == e * r);
        let a = table[2 * i];
        let b = table[2 * i + 1];
        assert((a + r * (b - a)) * e == a * (e * (1 - r)) + b * (e * r)) by (nonlinear_arith);
    }
    lemma_sum_pairs(f, g, half);
}

/// The extension of a table of one entry is that entry.
pub proof fn lemma_mle_single(table: Seq<int>, x: Seq<int>)
    requires
        table.len() == 1,
        x.len() == 0,
    ensures
        mle(table, x) == table[0],
{
    let f = mle_term(table, x);
    assert(sum(f, 0) == 0);
    assert(sum(f, 1) == sum(f, 0) + f(0));
    assert(f(0) == table[0] * 1);
}

pub proof fn lemma_mle_congruent(s: Seq<int>, t: Seq<int>, x: Seq<int>, m: int)
    requires
        m > 0,
        all_congruent(s, t, m),
    ensures
        congruent(mle(s, x), mle(t, x), m),
{
    let f = mle_term(s, x);
    let g = mle_term(t, x);
    assert forall|i: int| 0 <= i < s.len() implies congruent(#[trigger] f(i), g(i), m) by {
        lemma_congruent_mul(s[i], eq_at(x, i), t[i], eq_at(x, i), m);
    }
    lemma_sum_congruent(f, g, s.len() as int, m);
}

/// The extension is linear in the table.
pub proof fn lemma_mle_linear(c: int, s: Seq<int>, d: int, t: Seq<int>, u: Seq<int>, x: Seq<int>)
    requires
        s.len() == t.len() == u.len(),
        forall|i: int| 0 <= i < u.len() ==> #[trigger] u[i] == c * s[i] + d * t[i],
    ensures
        mle(u, x) == c * mle(s, x) + d * mle(t, x),
{
    let n = u.len() as int;
    let f = mle_term(s, x);
    let g = mle_term(t, x);
    let h = mle_term(u, x);
    let cf = |i: int| c * f(i);
    let dg = |i: int| d * g(i);
    lemma_sum_scale(c, f, cf, n);
    lemma_sum_scale(d, g, dg, n);
    assert forall|i: int| 0 <= i < n implies #[trigger] h(i) == cf(i) + dg(i) by {
        let (a, b, e) = (s[i], t[i], eq_at(x, i));
        assert(u[i] == c * a + d * b);
        assert((c * a + d * b) * e == c * (a * e) + d * (b * e)) by (nonlinear_arith);
    }
    lemma_sum_add(cf, dg, h, n);
}

/// The extension of the constant table 1 is 1 everywhere.
pub proof fn lemma_mle_one(x: Seq<int>)
    ensures
        mle(Seq::new(pow2(x.len()), |i: int| 1int), x) == 1,
    decreases x.len(),
{
    let t = Seq::new(pow2(x.len()), |i: int| 1int);
    if x.len() == 0 {
        lemma2_to64();
        lemma_mle_single(t, x);
    } else {
        lemma_pow2_unfold(x.len());
        lemma_mle_bound(t, x);
        let r = x.last();
        assert(bound(t, r) =~= Seq::new(pow2(x.drop_last().len()), |i: int| 1int)) by {
            assert forall|i: int| 0 <= i < bound(t, r).len() implies bound(t, r)[i] == 1 by {
                assert(r * 0 == 0);
            }
        }
        lemma_mle_one(x.drop_last());
    }
}

/// The extension, in both arguments, of "`x` and `y` are the same index".
pub open spec fn eq(x: Seq<int>, y: Seq<int>) -> int {
    mle(eq_table(x), y)
}

/// How the two tables grow when a lowest variable `a` is added.
pub proof fn lemma_tables_push(x: Seq<int>, a: int, h: int)
    requires
        h >= 0,
    ensures
        eq_at(x.push(a), 2 * h) == eq_at(x, h) * (1 - a),
        eq_at(x.push(a), 2 * h + 1) == eq_at(x, h) * a,
        eq_plus_one_at(x.push(a), 2 * h) == eq_plus_one_at(x, h) * a,
        eq_plus_one_at(x.push(a), 2 * h + 1) == eq_at(x, h) * (1 - a),
{
    assert(x.push(a).drop_last() =~= x);
    assert((2 * h) / 2 == h && (2 * h) % 2 == 0);
    assert((2 * h + 1) / 2 == h && (2 * h + 1) % 2 == 1);
    if h > 0 {
        assert((2 * h - 1) / 2 == h - 1 && (2 * h - 1) % 2 == 1);
    } else {
        assert(0 * a == 0) by (nonlinear_arith);
    }
}

/// How the two extensions grow when a lowest variable is added to both points.
pub proof fn lemma_extensions_push(x: Seq<int>, y: Seq<int>, a: int, b: int)
    requires
        x.len() == y.len(),
    ensures
        eq(x.push(a), y.push(b)) == eq(x, y) * (a * b + (1 - a) * (1 - b)),
        eq_plus_one(x.push(a), y.push(b)) == eq_plus_one(x, y) * (a * (1 - b)) + eq(x, y) * ((1 - a)
            * b),
{
    let (x1, y1) = (x.push(a), y.push(b));
    let n = pow2(x.len()) as int;
    lemma_pow2_unfold(x1.len());
    assert(y1.drop_last() =~= y);
    let (e, p) = (eq_table(x), eq_plus_one_table(x));
    let (e1, p1) = (eq_table(x1), eq_plus_one_table(x1));
    lemma_mle_bound(e1, y1);
    lemma_mle_bound(p1, y1);
    let same = a * b + (1 - a) * (1 - b);
    let carry = a * (1 - b);
    let rise = (1 - a) * b;
    assert forall|i: int| 0 <= i < n implies {
        &&& #[trigger] bound(e1, b)[i] == same * e[i] + 0 * e[i]
        &&& bound(p1, b)[i] == carry * p[i] + rise * e[i]
    } by {
        lemma_tables_push(x, a, i);
        let (u, v) = (e[i], p[i]);
        assert(u * (1 - a) + b * (u * a - u * (1 - a)) == (a * b + (1 - a) * (1 - b)) * u + 0 * u)
            by (nonlinear_arith);
        assert(v * a + b * (u * (1 - a) - v * a) == (a * (1 - b)) * v + ((1 - a) * b) * u)
            by (nonlinear_arith);
    }
    lemma_mle_linear(same, e, 0, e, bound(e1, b), y);
    assert forall|i: int| 0 <= i < n implies #[trigger] bound(p1, b)[i] == carry * p[i] + rise
        * e[i] by {
        assert(bound(e1, b)[i] == same * e[i] + 0 * e[i]);
    }
    lemma_mle_linear(carry, p, rise, e, bound(p1, b), y);
    let (u, v) = (eq(x, y), eq_plus_one(x, y));
    assert(same * u + 0 * u == u * same) by (nonlinear_arith);
    assert(carry * v + rise * u == v * carry + u * rise) by (nonlinear_arith);
}

/// The two extensions at points without coordinates.
pub proof fn lemma_extensions_empty(x: Seq<int>, y: Seq<int>)
    requires
        x.len() == 0,
        y.len() == 0,
    ensures
        eq(x, y) == 1,
        eq_plus_one(x, y) == 0,
{
    lemma2_to64();
    lemma_mle_single(eq_table(x), y);
    lemma_mle_single(eq_plus_one_table(x), y);
}

pub open spec fn product_term(s: Seq<int>, t: Seq<int>) -> spec_fn(int) -> int {
    |i: int| s[i] * t[i]
}

/// Summing a table against `eq_plus_one_at` reads it one index later.
pub proof fn lemma_shifted_sum(table: Seq<int>, x: Seq<int>)
    requires
        table.len() == pow2(x.len()),
    ensures
        sum(product_term(table, eq_plus_one_table(x)), table.len() as int) == mle(next(table), x),
{
    let n = table.len() as int;
    lemma_pow2_pos(x.len());
    let f = product_term(table, eq_plus_one_table(x));
    let g = mle_term(next(table), x);
    assert forall|i: int| 0 <= i < n - 1 implies #[trigger] g(i) == f(i + 1) by {
        assert(f(i + 1) == table[i + 1] * eq_at(x, i));
    }
    lemma_sum_first(f, g, n);
    assert(f(0) == table[0] * 0);
    assert(g(n - 1) == 0 * eq_at(x, n - 1));
    assert(sum(g, n) == sum(g, n - 1) + g(n - 1));
}

/// The bits of `i`, the most significant first.
pub open spec fn bits(n: nat, i: int) -> Seq<int>
    decreases n,
{
    if n == 0 {
        Seq::empty()
    } else {
        bits((n - 1) as nat, i / 2).push(i % 2)
    }
}

pub proof fn lemma_bits_len(n: nat, i: int)
    ensures
        bits(n, i).len() == n,
    decreases n,
{
    if n > 0 {
        lemma_bits_len((n - 1) as nat, i / 2);
    }
}

/// On the bits of an index the extension is the table.
pub proof fn theorem_extension_agrees_on_indices(table: Seq<int>, n: nat, i: int)
    requires
        table.len() == pow2(n),
        0 <= i < table.len(),
    ensures
        mle(table, bits(n, i)) == table[i],
    decreases n,
{
    lemma_bits_len(n, i);
    if n == 0 {
        lemma2_to64();
        lemma_mle_single(table, bits(n, i));
    } else {
        let x = bits(n, i);
        let low = i % 2;
        lemma_pow2_unfold(n);
        lemma_mle_bound(table, x);
        assert(x.drop_last() =~= bits((n - 1) as nat, i / 2));
        theorem_extension_agrees_on_indices(bound(table, low), (n - 1) as nat, i / 2);
        let h = i / 2;
        let (a, b) = (table[2 * h], table[2 * h + 1]);
        assert(line(table, h, low) == a + low * (b - a));
        if low == 0 {
            assert(0 * (b - a) == 0);
        } else {
            assert(1 * (b - a) == b - a);
        }
    }
}

pub proof fn lemma_eq_at_bits(n: nat, i: int, k: int)
    requires
        0 <= i < pow2(n),
        0 <= k < pow2(n),
    ensures
        eq_at(bits(n, i), k) == (if k == i {
            1int
        } else {
            0
        }),
    decreases n,
{
    lemma_bits_len(n, i);
    if n == 0 {
        lemma2_to64();
    } else {
        lemma_pow2_unfold(n);
        lemma_eq_at_bits((n - 1) as nat, i / 2, k / 2);
        let x = bits(n, i);
        assert(x.drop_last() =~= bits((n - 1) as nat, i / 2));
        let e = eq_at(x.drop_last(), k / 2);
        assert(e * 0 == 0 && e * 1 == e);
    }
}

/// On the bits of two cycles "the cycle after" is 1 where `j` comes after `i`, and 0
/// elsewhere; nothing comes after the last cycle.
pub proof fn theorem_eq_plus_one_on_cycles(n: nat, i: int, j: int)
    requires
        0 <= i < pow2(n),
        0 <= j < pow2(n),
    ensures
        eq_plus_one(bits(n, i), bits(n, j)) == (if j == i + 1 {
            1int
        } else {
            0
        }),
{
    lemma_bits_len(n, i);
    theorem_extension_agrees_on_indices(eq_plus_one_table(bits(n, i)), n, j);
    if j > 0 {
        lemma_eq_at_bits(n, i, j - 1);
    }
}

} // verus!
