use ebi_arithmetic::fraction_raw::FractionRaw;
use ebi_arithmetic::loose_fraction::Type;

#[test]
fn div() {
    let mut a = FractionRaw(Type::Minus, 2u64, 2);
    let b = FractionRaw(Type::Minus, 3u64, 4);

    a.div_assign(b);

    let FractionRaw(type1, num1, den1) = a;

    assert_eq!(type1, Type::Plus);
    assert_eq!(num1, 8);
    assert_eq!(den1, 6);
}

#[test]
fn mul() {
    let mut a = FractionRaw(Type::Minus, 2u64, 2);
    let b = FractionRaw(Type::Minus, 3u64, 4);

    a.mul_assign(b);

    let FractionRaw(type1, num1, den1) = a;

    assert_eq!(type1, Type::Plus);
    assert_eq!(num1, 6);
    assert_eq!(den1, 8);
}
