use spartan_shift::field::{from_bool, one_minus, JoltField};
use spartan_shift::mersenne61::{Mersenne61, MODULUS};

#[test]
fn arithmetic_wraps_at_the_modulus() {
    let top = Mersenne61::from_u64(MODULUS - 1);
    assert_eq!(top.plus(Mersenne61::one()).to_u64(), 0);
    assert_eq!(Mersenne61::zero().minus(Mersenne61::one()).to_u64(), MODULUS - 1);
    assert_eq!(top.times(top).to_u64(), 1);
    assert_eq!(Mersenne61::from_u64(u64::MAX).to_u64(), 7);
}

#[test]
fn challenges_are_lifted() {
    assert_eq!(Mersenne61::from_challenge(17).to_u64(), 17);
    assert_eq!(Mersenne61::from_challenge(u32::MAX).to_u64(), 4294967295);
}

#[test]
fn flags_become_zero_and_one() {
    assert_eq!(from_bool::<Mersenne61>(true).to_u64(), 1);
    assert_eq!(from_bool::<Mersenne61>(false).to_u64(), 0);
    assert_eq!(one_minus(Mersenne61::from_u64(3)).to_u64(), MODULUS - 2);
}
