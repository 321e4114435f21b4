use ebi_arithmetic::fraction_raw::{FractionOrdering, FractionRaw};
use ebi_arithmetic::loose_fraction::Type;
use ebi_arithmetic::parsing::{parse_fraction, FractionNotParsedYet, ParseError};
use num_bigint::BigUint;

fn value(t: Type, n: u64, d: u64) -> FractionRaw<BigUint> {
    FractionRaw(t, BigUint::from(n), BigUint::from(d))
}

fn parsed(s: &str) -> FractionRaw<BigUint> {
    parse_fraction(s).unwrap()
}

#[test]
fn fraction_parse() {
    assert!(parsed("0.2").same_value(&value(Type::Plus, 1, 5)));
    assert!(parsed("1").same_value(&value(Type::Plus, 1, 1)));
    assert!(parsed("-1").same_value(&value(Type::Minus, 1, 1)));
    assert!(parsed("1.00").same_value(&value(Type::Plus, 1, 1)));
    assert!(parsed("-1.00").same_value(&value(Type::Minus, 1, 1)));
    assert!(parsed("1/5").same_value(&value(Type::Plus, 1, 5)));
    assert!(parsed("-1/5").same_value(&value(Type::Minus, 1, 5)));
    assert!(parsed(".2").same_value(&value(Type::Plus, 1, 5)));
    assert!(parsed("-.2").same_value(&value(Type::Minus, 1, 5)));
}

#[test]
fn parse_keeps_the_written_numbers() {
    let f = parsed("12.50");
    assert_eq!((f.0, f.1, f.2), (Type::Plus, BigUint::from(1250u64), BigUint::from(100u64)));
    let g = parsed("-6/4");
    assert_eq!((g.0, g.1, g.2), (Type::Minus, BigUint::from(6u64), BigUint::from(4u64)));
    let h = parsed("3.");
    assert_eq!((h.0, h.1, h.2), (Type::Plus, BigUint::from(3u64), BigUint::from(1u64)));
    let big = parsed("123456789012345678901234567890");
    assert_eq!(big.1, "123456789012345678901234567890".parse::<BigUint>().unwrap());
}

#[test]
fn parse_rejects_malformed_text() {
    for s in ["", "-", ".", "-.", "1/", "/2", "1.2.3", "1/2/3", "a", "1/-2", "+1", "1 ", "--1", "1.-2"] {
        assert_eq!(parse_fraction(s).err(), Some(ParseError::Malformed), "{}", s);
    }
}

#[test]
fn not_parsed_yet() {
    let later = FractionNotParsedYet { s: "3/7".to_string() };
    assert!(later.parse().unwrap().same_value(&value(Type::Plus, 3, 7)));
    let bad = FractionNotParsedYet { s: "x".to_string() };
    assert_eq!(bad.parse().err(), Some(ParseError::Malformed));
}

#[test]
fn same_value_compares_rationals() {
    assert!(value(Type::Plus, 2, 4).same_value(&value(Type::Plus, 1, 2)));
    assert!(!value(Type::Plus, 2, 4).same_value(&value(Type::Minus, 1, 2)));
    assert!(value(Type::Minus, 0, 4).same_value(&value(Type::Plus, 0, 1)));
    assert!(value(Type::NaN, 0, 0).same_value(&value(Type::NaN, 1, 1)));
    assert!(!value(Type::Infinite, 0, 0).same_value(&value(Type::Plus, 1, 1)));
}

#[test]
fn compare_orders_values() {
    assert_eq!(value(Type::Plus, 1, 3).compare(&value(Type::Plus, 1, 2)), Some(FractionOrdering::Less));
    assert_eq!(value(Type::Plus, 2, 4).compare(&value(Type::Plus, 1, 2)), Some(FractionOrdering::Equal));
    assert_eq!(value(Type::Minus, 1, 3).compare(&value(Type::Minus, 1, 2)), Some(FractionOrdering::Greater));
    assert_eq!(value(Type::Minus, 1, 3).compare(&value(Type::Plus, 0, 2)), Some(FractionOrdering::Less));
    assert_eq!(value(Type::Minus, 0, 3).compare(&value(Type::Plus, 0, 2)), Some(FractionOrdering::Equal));
    assert_eq!(value(Type::NegInfinite, 0, 0).compare(&value(Type::Minus, 9, 1)), Some(FractionOrdering::Less));
    assert_eq!(value(Type::Infinite, 0, 0).compare(&value(Type::Plus, 9, 1)), Some(FractionOrdering::Greater));
    assert_eq!(value(Type::NaN, 0, 0).compare(&value(Type::Plus, 9, 1)), None);
}
