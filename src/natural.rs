//! Arbitrary-precision naturals, provided by `num_bigint::BigUint`.
use vstd::prelude::*;
use num_bigint::BigUint;
use num_bigint::RandBigInt;
use num_integer::Integer;

verus! {

#[verifier::external_type_specification]
#[verifier::external_body]
pub struct ExBigUint(num_bigint::BigUint);

/// The number that a `BigUint` stands for.
pub uninterp spec fn natural_value(x: BigUint) -> nat;

/// Greatest common divisor, with `gcd(0, b) == b` and `gcd(a, 0) == a`.
pub open spec fn spec_gcd(a: nat, b: nat) -> nat
    decreases b,
{
    if b == 0 {
        a
    } else {
        spec_gcd(b, a % b)
    }
}

pub open spec fn is_digit(b: u8) -> bool {
    48 <= b <= 57
}

pub open spec fn all_digits(s: Seq<u8>) -> bool {
    forall|i: int| 0 <= i < s.len() ==> is_digit(#[trigger] s[i])
}

/// The number that a string of ASCII decimal digits writes.
pub open spec fn digits_value(s: Seq<u8>) -> nat
    decreases s.len(),
{
    if s.len() == 0 {
        0
    } else {
        digits_value(s.drop_last()) * 10 + (s.last() - 48) as nat
    }
}

/// Relies on `BigUint::parse_bytes` in radix ten: on a nonempty string of
/// ASCII digits it returns the number they write.
#[verifier::external_body]
pub fn big_parse_decimal(digits: &Vec<u8>) -> (r: Option<BigUint>)
    requires
        digits@.len() > 0,
        all_digits(digits@),
    ensures
        r.is_some() && natural_value(r.unwrap()) == digits_value(digits@),
{
    BigUint::parse_bytes(digits, 10)
}

/// Relies on `BigUint::from(u64)`: the natural equal to the machine word.
#[verifier::external_body]
pub fn big_from_u64(x: u64) -> (r: BigUint)
    ensures
        natural_value(r) == x as nat,
{
    BigUint::from(x)
}

/// Relies on `u64::try_from(&BigUint)`: `Some` exactly when the value fits.
#[verifier::external_body]
pub fn big_to_u64(x: &BigUint) -> (r: Option<u64>)
    ensures
        natural_value(*x) <= u64::MAX ==> r == Some(natural_value(*x) as u64),
        natural_value(*x) > u64::MAX ==> r.is_none(),
{
    u64::try_from(x).ok()
}

/// Relies on `BigUint::clone`: the copy holds the same value.
#[verifier::external_body]
pub fn big_clone(x: &BigUint) -> (r: BigUint)
    ensures
        natural_value(r) == natural_value(*x),
{
    x.clone()
}

/// Relies on `&BigUint * &BigUint`: the exact product.
#[verifier::external_body]
pub fn big_mul(a: &BigUint, b: &BigUint) -> (r: BigUint)
    ensures
        natural_value(r) == natural_value(*a) * natural_value(*b),
{
    a * b
}

/// Relies on `&BigUint + &BigUint`: the exact sum.
#[verifier::external_body]
pub fn big_add(a: &BigUint, b: &BigUint) -> (r: BigUint)
    ensures
        natural_value(r) == natural_value(*a) + natural_value(*b),
{
    a + b
}

/// Relies on `&BigUint - &BigUint`, which panics when `b > a`.
#[verifier::external_body]
pub fn big_sub(a: &BigUint, b: &BigUint) -> (r: BigUint)
    requires
        natural_value(*b) <= natural_value(*a),
    ensures
        natural_value(r) == natural_value(*a) - natural_value(*b),
{
    a - b
}

/// Relies on `&BigUint / &BigUint`: truncating division, which panics on a zero divisor.
#[verifier::external_body]
pub fn big_div(a: &BigUint, b: &BigUint) -> (r: BigUint)
    requires
        natural_value(*b) > 0,
    ensures
        natural_value(r) == natural_value(*a) / natural_value(*b),
{
    a / b
}

/// Relies on `BigUint`'s `PartialOrd`: the order of the values.
#[verifier::external_body]
pub fn big_le(a: &BigUint, b: &BigUint) -> (r: bool)
    ensures
        r == (natural_value(*a) <= natural_value(*b)),
{
    a <= b
}

/// Relies on `BigUint`'s `PartialEq`: equality of the values.
#[verifier::external_body]
pub fn big_eq(a: &BigUint, b: &BigUint) -> (r: bool)
    ensures
        r == (natural_value(*a) == natural_value(*b)),
{
    a == b
}

/// Relies on `num_integer::Integer::gcd` for `BigUint`: the greatest common divisor.
#[verifier::external_body]
pub fn big_gcd(a: &BigUint, b: &BigUint) -> (r: BigUint)
    ensures
        natural_value(r) == spec_gcd(natural_value(*a), natural_value(*b)),
{
    a.gcd(b)
}

/// Relies on `RandBigInt::gen_biguint_below` over the thread's generator: a
/// value below the bound, which must not be zero.
#[verifier::external_body]
pub fn big_random_below(bound: &BigUint) -> (r: BigUint)
    requires
        natural_value(*bound) > 0,
    ensures
        natural_value(r) < natural_value(*bound),
{
    rand::thread_rng().gen_biguint_below(bound)
}

} // verus!
