use ebi_arithmetic::fraction_raw::{FractionRaw, FractionRawGetter, IsZero, SetOne, SetZero};
use ebi_arithmetic::gcd::gcd_u64;
use ebi_arithmetic::loose_fraction::{checked_add_assign_mul, LooseFraction, Sign, Type};
use ebi_arithmetic::number::{Infinite, One, Recip, Signed, Zero};
use num_bigint::BigUint;

#[test]
fn type_sign_and_plusminus() {
    assert_eq!(Type::Plus.sign(), Sign::Plus);
    assert_eq!(Type::Minus.sign(), Sign::Minus);
    assert_eq!(Type::NegInfinite.sign(), Sign::Minus);
    assert_eq!(Type::NaN.sign(), Sign::Plus);
    assert!(Type::Plus.is_plusminus());
    assert!(Type::Minus.is_plusminus());
    assert!(!Type::Infinite.is_plusminus());
    assert_eq!(Type::Minus.times(Type::Minus), Type::Plus);
    assert_eq!(Type::Minus.times(Type::Infinite), Type::NegInfinite);
    assert_eq!(Type::Plus.plus(Type::Minus), None);
    assert_eq!(Type::Infinite.plus(Type::NegInfinite), Some(Type::NaN));
    assert_eq!(Type::Infinite.negate(), Type::NegInfinite);
}

#[test]
fn checked_add_assign_mul_exact() {
    // 1/2 + (2/3) * (3/4) = 4/8 + 12/24 ... computed as (1*12 + 2*6) / (2*12)
    let (mut t, mut n, mut d) = (Type::Plus, 1u64, 2u64);
    assert!(checked_add_assign_mul(&mut t, &mut n, &mut d, Type::Plus, &2, &3, Type::Plus, &3, &4));
    assert_eq!((t, n, d), (Type::Plus, 24, 24));

    // 1/2 + (-1/1) * (3/1) = -5/2
    let (mut t, mut n, mut d) = (Type::Plus, 1u64, 2u64);
    assert!(checked_add_assign_mul(&mut t, &mut n, &mut d, Type::Minus, &1, &1, Type::Plus, &3, &1));
    assert_eq!((t, n, d), (Type::Minus, 5, 2));

    // -1/2 + (1/1) * (3/1) = 5/2
    let (mut t, mut n, mut d) = (Type::Minus, 1u64, 2u64);
    assert!(checked_add_assign_mul(&mut t, &mut n, &mut d, Type::Plus, &1, &1, Type::Plus, &3, &1));
    assert_eq!((t, n, d), (Type::Plus, 5, 2));
}

#[test]
fn checked_add_assign_mul_overflow_leaves_a() {
    let (mut t, mut n, mut d) = (Type::Plus, 7u64, 3u64);
    assert!(!checked_add_assign_mul(&mut t, &mut n, &mut d, Type::Plus, &u64::MAX, &1, Type::Plus, &2, &1));
    assert_eq!((t, n, d), (Type::Plus, 7, 3));
}

#[test]
fn checked_add_assign_mul_special() {
    let (mut t, mut n, mut d) = (Type::Plus, 7u64, 3u64);
    assert!(checked_add_assign_mul(&mut t, &mut n, &mut d, Type::Infinite, &0, &0, Type::Minus, &u64::MAX, &u64::MAX));
    assert_eq!(t, Type::NegInfinite);
}

#[test]
fn add_assign_mul_wide() {
    let mut t = Type::Minus;
    let mut n = BigUint::from(1u64);
    let mut d = BigUint::from(2u64);
    let max = BigUint::from(u64::MAX);
    let one = BigUint::from(1u64);
    BigUint::add_assign_mul(&mut t, &mut n, &mut d, Type::Plus, &max, &one, Type::Plus, &max, &one);
    assert_eq!(t, Type::Plus);
    let expected: BigUint = "680564733841876926852962238568698216449".parse().unwrap();
    assert_eq!(n, expected);
    assert_eq!(d, BigUint::from(2u64));
}

#[test]
fn gcd_of_words() {
    assert_eq!(gcd_u64(12, 18), 6);
    assert_eq!(gcd_u64(0, 5), 5);
    assert_eq!(gcd_u64(7, 0), 7);
}

fn big(t: Type, n: u64, d: u64) -> FractionRaw<BigUint> {
    FractionRaw(t, BigUint::from(n), BigUint::from(d))
}

fn parts(f: &FractionRaw<BigUint>) -> (Type, BigUint, BigUint) {
    (f.0, f.1.clone(), f.2.clone())
}

#[test]
fn wide_fraction_arithmetic() {
    let mut a = big(Type::Plus, 1, 2);
    a.sub_assign(&big(Type::Plus, 3, 4));
    assert_eq!(parts(&a), (Type::Minus, BigUint::from(2u64), BigUint::from(8u64)));

    let mut a = big(Type::Minus, 1, 2);
    a.sub_assign(&big(Type::Minus, 3, 4));
    assert_eq!(parts(&a), (Type::Plus, BigUint::from(2u64), BigUint::from(8u64)));

    let mut a = big(Type::Minus, 2, 2);
    a.mul_assign(&big(Type::Minus, 3, 4));
    assert_eq!(parts(&a), (Type::Plus, BigUint::from(6u64), BigUint::from(8u64)));

    let mut a = big(Type::Minus, 2, 2);
    a.div_assign(&big(Type::Minus, 3, 4));
    assert_eq!(parts(&a), (Type::Plus, BigUint::from(8u64), BigUint::from(6u64)));

    let mut a = big(Type::Plus, 1, 2);
    a.sub_assign(&big(Type::Infinite, 0, 0));
    assert_eq!(a.0, Type::NegInfinite);
}

#[test]
fn fraction_raw_recip() {
    let mut a = big(Type::Minus, 2, 3);
    a.recip();
    assert_eq!(parts(&a), (Type::Minus, BigUint::from(3u64), BigUint::from(2u64)));
    let mut z = big(Type::Plus, 0, 3);
    z.recip();
    assert_eq!(z.0, Type::NaN);
    let mut i = big(Type::Infinite, 0, 0);
    i.recip();
    assert_eq!(i.0, Type::NaN);
}

#[test]
fn numeric_traits() {
    assert!(FractionRaw::<BigUint>::zero().is_zero());
    assert!(FractionRaw::<BigUint>::one().is_one());
    assert!(big(Type::Minus, 0, 5).is_zero());
    assert!(!big(Type::NaN, 0, 5).is_zero());
    assert!(big(Type::Plus, 3, 3).is_one());
    assert!(!big(Type::Minus, 3, 3).is_one());
    assert!(big(Type::Plus, 1, 2).is_positive());
    assert!(!big(Type::Plus, 0, 2).is_positive());
    assert!(big(Type::NegInfinite, 0, 0).is_negative());
    assert!(big(Type::Plus, 0, 2).is_not_negative());
    assert!(big(Type::Minus, 1, 2).is_not_positive());
    assert_eq!(parts(&big(Type::Minus, 1, 2).abs()), (Type::Plus, BigUint::from(1u64), BigUint::from(2u64)));
    assert!(big(Type::Infinite, 0, 0).is_infinite());
    assert!(big(Type::NaN, 0, 0).is_finite());

    let mut s = big(Type::Minus, 5, 7);
    s.set_one();
    assert_eq!(parts(&s), (Type::Plus, BigUint::from(1u64), BigUint::from(1u64)));
    s.set_zero();
    assert_eq!(parts(&s), (Type::Plus, BigUint::from(0u64), BigUint::from(1u64)));

    let mut w = FractionRaw(Type::Minus, 5u64, 7);
    assert!(!w.is_zero());
    w.set_zero();
    assert!(w.is_zero());
    w.set_one();
    assert_eq!((w.0, w.1, w.2), (Type::Plus, 1, 1));
}

#[test]
fn getter_reads_cells() {
    let types = [Type::Plus, Type::Minus];
    let numerators = [BigUint::from(3u64), BigUint::from(4u64)];
    let denominators = [BigUint::from(5u64), BigUint::from(6u64)];
    let f = BigUint::get_clone(1, &types, &numerators, &denominators);
    assert_eq!(parts(&f), (Type::Minus, BigUint::from(4u64), BigUint::from(6u64)));
    let g = u64::get_clone(0, &types, &[3, 4], &[5, 6]);
    assert_eq!((g.0, g.1, g.2), (Type::Plus, 3, 5));
}
