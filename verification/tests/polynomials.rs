use spartan_shift::eq_plus_one::EqPlusOnePolynomial;
use spartan_shift::field::JoltField;
use spartan_shift::mersenne61::{Mersenne61, MODULUS};
use spartan_shift::opening::{OpeningPoint, BIG_ENDIAN, LITTLE_ENDIAN};
use spartan_shift::polynomial::MultilinearPolynomial;

fn elements(v: &[i64]) -> Vec<Mersenne61> {
    v.iter().map(|&x| element(x)).collect()
}

fn element(x: i64) -> Mersenne61 {
    if x >= 0 {
        Mersenne61::from_u64(x as u64)
    } else {
        Mersenne61::from_u64(MODULUS - x.unsigned_abs())
    }
}

fn bits(n: u32, i: u32) -> Vec<u32> {
    (0..n).rev().map(|k| (i >> k) & 1).collect()
}

#[test]
fn sumcheck_evals_are_at_zero_and_two() {
    let poly = MultilinearPolynomial::new(elements(&[5, 7, 10, 4]));
    assert_eq!(poly.sumcheck_evals(0), [element(5), element(9)]);
    assert_eq!(poly.sumcheck_evals(1), [element(10), element(-2)]);
}

#[test]
fn bind_sets_the_lowest_variable() {
    let mut poly = MultilinearPolynomial::new(elements(&[5, 7, 10, 4]));
    poly.bind(3);
    assert_eq!(poly.len(), 2);
    // 5 + 3 (7 - 5) and 10 + 3 (4 - 10).
    assert_eq!(poly.sumcheck_evals(0), [element(11), element(-27)]);
    poly.bind(2);
    assert_eq!(poly.len(), 1);
    assert_eq!(poly.final_sumcheck_claim(), element(-27));
}

#[test]
fn tables_at_a_point() {
    let (eq, plus_one) = EqPlusOnePolynomial::<Mersenne61>::evals(&[2, 3]);
    assert_eq!(eq, elements(&[2, -3, -4, 6]));
    assert_eq!(plus_one, elements(&[0, 2, -3, -4]));
}

#[test]
fn tables_at_the_empty_point() {
    let (eq, plus_one) = EqPlusOnePolynomial::<Mersenne61>::evals(&[]);
    assert_eq!(eq, elements(&[1]));
    assert_eq!(plus_one, elements(&[0]));
}

#[test]
fn eq_plus_one_on_cycles() {
    let n = 3;
    for i in 0..8 {
        let poly = EqPlusOnePolynomial::<Mersenne61>::new(bits(n, i));
        let (_, table) = EqPlusOnePolynomial::<Mersenne61>::evals(&bits(n, i));
        for j in 0..8 {
            let expected = element((j == i + 1) as i64);
            assert_eq!(poly.evaluate(&bits(n, j)), expected);
            assert_eq!(table[j as usize], expected);
        }
    }
}

#[test]
fn evaluate_extends_the_table() {
    let x = [11, 5, 4000000000];
    let y = [7, 123456789, 2];
    let (eq_y, _) = EqPlusOnePolynomial::<Mersenne61>::evals(&y);
    let (_, table) = EqPlusOnePolynomial::<Mersenne61>::evals(&x);
    let mut expected = Mersenne61::zero();
    for (a, b) in table.iter().zip(&eq_y) {
        expected = expected.plus(a.times(*b));
    }
    let poly = EqPlusOnePolynomial::<Mersenne61>::new(x.to_vec());
    assert_eq!(poly.evaluate(&y), expected);
    assert_ne!(expected, Mersenne61::zero());
}

#[test]
fn bound_table_is_the_extension() {
    let table: Vec<i64> = vec![3, 1, 4, 1, 5, 9, 2, 6];
    let challenges = [10, 20, 30];
    let mut poly = MultilinearPolynomial::new(elements(&table));
    for c in challenges {
        poly.bind(c);
    }
    let (weights, _) = EqPlusOnePolynomial::<Mersenne61>::evals(&[30, 20, 10]);
    let mut expected = Mersenne61::zero();
    for (a, b) in elements(&table).iter().zip(&weights) {
        expected = expected.plus(a.times(*b));
    }
    assert_eq!(poly.final_sumcheck_claim(), expected);
}

#[test]
fn points_change_their_order() {
    let little = OpeningPoint::<LITTLE_ENDIAN, Mersenne61>::new(vec![1, 2, 3]);
    let big: OpeningPoint<BIG_ENDIAN, Mersenne61> = little.match_endianness();
    assert_eq!(big.r, vec![3, 2, 1]);
    let same: OpeningPoint<LITTLE_ENDIAN, Mersenne61> = little.match_endianness();
    assert_eq!(same.r, vec![1, 2, 3]);
}

#[test]
fn points_are_split() {
    let point = OpeningPoint::<BIG_ENDIAN, Mersenne61>::new(vec![1, 2, 3]);
    let (front, back) = point.split_at(2);
    assert_eq!(front.r, vec![1, 2]);
    assert_eq!(back.r, vec![3]);
    assert_eq!(point.clone().r, point.r);
}
