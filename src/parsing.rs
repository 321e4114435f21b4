//! Reading a fraction from text: `<int>`, `<int>.<digits>` or `<int>/<int>`,
//! with an optional leading `-`.
use vstd::prelude::*;
use vstd::string::{StrSliceExecFns, StringSliceAdditionalSpecFns};
use num_bigint::BigUint;
use crate::loose_fraction::Type;
use crate::fraction_raw::FractionRaw;
use crate::natural::{natural_value, is_digit, all_digits, digits_value, big_parse_decimal, big_from_u64, big_mul, big_add};

verus! {

/// Why a text is not a fraction.
#[derive(Clone, Copy, Debug, PartialEq, Eq, Structural)]
pub enum ParseError {
    /// The text is not of the form `<int>`, `<int>.<digits>` or `<int>/<int>`.
    Malformed,
}

pub open spec fn pow10(k: nat) -> nat
    decreases k,
{
    if k == 0 {
        1
    } else {
        10 * pow10((k - 1) as nat)
    }
}

pub open spec fn is_separator(b: u8) -> bool {
    b == 47 || b == 46
}

/// The value of `body` split at a separator at position `p`: `a/c` for a
/// slash, `a.b` for a point; `None` when the parts do not fit the grammar.
pub open spec fn split_value(body: Seq<u8>, p: int) -> Option<(nat, nat)> {
    let left = body.subrange(0, p);
    let right = body.subrange(p + 1, body.len() as int);
    if !(0 <= p < body.len() && is_separator(body[p]) && all_digits(left) && all_digits(right)) {
        None
    } else if body[p] == 47 {
        if left.len() > 0 && right.len() > 0 {
            Some((digits_value(left), digits_value(right)))
        } else {
            None
        }
    } else if left.len() > 0 || right.len() > 0 {
        Some((digits_value(left) * pow10(right.len()) + digits_value(right), pow10(right.len())))
    } else {
        None
    }
}

/// The text without its leading minus sign.
pub open spec fn unsigned_part(s: Seq<u8>) -> Seq<u8> {
    if s.len() > 0 && s[0] == 45 {
        s.subrange(1, s.len() as int)
    } else {
        s
    }
}

pub open spec fn sign_of_text(s: Seq<u8>) -> Type {
    if s.len() > 0 && s[0] == 45 {
        Type::Minus
    } else {
        Type::Plus
    }
}

/// The text is a fraction in one of the three forms.
pub open spec fn well_formed_text(s: Seq<u8>) -> bool {
    let body = unsigned_part(s);
    (body.len() > 0 && all_digits(body)) || exists|p: int| #[trigger] split_value(body, p).is_some()
}

/// The fraction that a well-formed text writes: `(n, d)` with its sign.
pub open spec fn text_value(s: Seq<u8>, v: (nat, nat)) -> bool {
    let body = unsigned_part(s);
    (body.len() > 0 && all_digits(body) && v == (digits_value(body), 1nat)) || exists|p: int| #[trigger] split_value(body, p) == Some(v)
}

fn copy_range(bytes: &Vec<u8>, from: usize, to: usize) -> (r: Vec<u8>)
    requires
        from <= to <= bytes@.len(),
    ensures
        r@ == bytes@.subrange(from as int, to as int),
{
    let mut r: Vec<u8> = Vec::new();
    let mut i = from;
    while i < to
        invariant
            from <= i <= to <= bytes@.len(),
            r@ == bytes@.subrange(from as int, i as int),
        decreases to - i,
    {
        r.push(bytes[i]);
        i = i + 1;
    }
    r
}

fn parse_digits(digits: &Vec<u8>) -> (r: BigUint)
    requires
        all_digits(digits@),
    ensures
        natural_value(r) == digits_value(digits@),
{
    if digits.len() == 0 {
        return big_from_u64(0);
    }
    match big_parse_decimal(digits) {
        Some(v) => v,
        None => big_from_u64(0),
    }
}

fn power_of_ten(k: usize) -> (r: BigUint)
    ensures
        natural_value(r) == pow10(k as nat),
{
    let mut r = big_from_u64(1);
    let ten = big_from_u64(10);
    let mut i: usize = 0;
    while i < k
        invariant
            i <= k,
            natural_value(ten) == 10,
            natural_value(r) == pow10(i as nat),
        decreases k - i,
    {
        r = big_mul(&ten, &r);
        i = i + 1;
    }
    r
}

/// Reads a fraction from bytes: an optional `-`, then digits, or digits, a
/// point and digits (one of the two runs may be empty), or digits, a slash and
/// digits. The result is not reduced.
pub fn parse_fraction_bytes(bytes: &Vec<u8>) -> (r: Result<FractionRaw<BigUint>, ParseError>)
    ensures
        r.is_ok() <==> well_formed_text(bytes@),
        r.is_err() ==> r == Err::<FractionRaw<BigUint>, ParseError>(ParseError::Malformed),
        r.is_ok() ==> r.unwrap().0 == sign_of_text(bytes@) && text_value(bytes@, (r.unwrap().model().1, r.unwrap().model().2)),
{
    let len = bytes.len();
    let negative = len > 0 && bytes[0] == 45u8;
    let start: usize = if negative { 1 } else { 0 };
    let sign = if negative { Type::Minus } else { Type::Plus };
    let body = copy_range(bytes, start, len);
    let ghost b = body@;
    assert(b == unsigned_part(bytes@));
    let n = body.len();
    // the first byte that is not a digit
    let mut p: usize = 0;
    while p < n && 48u8 <= body[p] && body[p] <= 57u8
        invariant
            p <= n == b.len(),
            b == body@,
            b == unsigned_part(bytes@),
            forall|j: int| 0 <= j < p ==> is_digit(#[trigger] b[j]),
        decreases n - p,
    {
        p = p + 1;
    }
    assert(all_digits(b.subrange(0, p as int)));
    if p == n {
        assert(b.subrange(0, p as int) == b);
        if n == 0 {
            assert forall|q: int| !(#[trigger] split_value(b, q).is_some()) by {}
            return Err(ParseError::Malformed);
        }
        let value = parse_digits(&body);
        return Ok(FractionRaw(sign, value, big_from_u64(1)));
    }
    let separator = body[p];
    if separator != 47u8 && separator != 46u8 {
        proof {
            assert forall|q: int| !(#[trigger] split_value(b, q).is_some()) by {
                if 0 <= q < b.len() && q > p {
                    assert(b.subrange(0, q)[p as int] == b[p as int]);
                }
            }
        }
        return Err(ParseError::Malformed);
    }
    // the rest must be digits
    let mut k: usize = p + 1;
    while k < n && 48u8 <= body[k] && body[k] <= 57u8
        invariant
            p < k <= n == b.len(),
            b == body@,
            b == unsigned_part(bytes@),
            forall|j: int| p < j < k ==> is_digit(#[trigger] b[j]),
        decreases n - k,
    {
        k = k + 1;
    }
    if k < n {
        proof {
            assert forall|q: int| !(#[trigger] split_value(b, q).is_some()) by {
                if 0 <= q < b.len() {
                    if q > p {
                        assert(b.subrange(0, q)[p as int] == b[p as int]);
                    } else if q == p {
                        assert(b.subrange(q + 1, b.len() as int)[k - q - 1] == b[k as int]);
                    }
                }
            }
        }
        return Err(ParseError::Malformed);
    }
    let left = copy_range(&body, 0, p);
    let right = copy_range(&body, p + 1, n);
    assert(all_digits(right@));
    proof {
        assert forall|q: int| q != p implies !(#[trigger] split_value(b, q).is_some()) by {
            if 0 <= q < b.len() && q > p {
                assert(b.subrange(0, q)[p as int] == b[p as int]);
            }
        }
    }
    if separator == 47u8 {
        if p == 0 || p + 1 == n {
            return Err(ParseError::Malformed);
        }
        let numerator = parse_digits(&left);
        let denominator = parse_digits(&right);
        assert(split_value(b, p as int) == Some((natural_value(numerator), natural_value(denominator))));
        assert(split_value(b, p as int).is_some());
        return Ok(FractionRaw(sign, numerator, denominator));
    }
    if p == 0 && p + 1 == n {
        return Err(ParseError::Malformed);
    }
    let whole = parse_digits(&left);
    let fraction = parse_digits(&right);
    let scale = power_of_ten(n - p - 1);
    let numerator = big_add(&big_mul(&whole, &scale), &fraction);
    assert(split_value(b, p as int) == Some((natural_value(numerator), natural_value(scale))));
    Ok(FractionRaw(sign, numerator, scale))
}

/// Reads a fraction from text (see `parse_fraction_bytes`).
pub fn parse_fraction(text: &str) -> (r: Result<FractionRaw<BigUint>, ParseError>)
    ensures
        r.is_ok() <==> well_formed_text(text.spec_bytes()),
        r.is_err() ==> r == Err::<FractionRaw<BigUint>, ParseError>(ParseError::Malformed),
        r.is_ok() ==> r.unwrap().0 == sign_of_text(text.spec_bytes()) && text_value(
            text.spec_bytes(),
            (r.unwrap().model().1, r.unwrap().model().2),
        ),
{
    let bytes = text.as_bytes_vec();
    parse_fraction_bytes(&bytes)
}

/// Text that is read as a fraction only when it is needed.
pub struct FractionNotParsedYet {
    pub s: String,
}

impl FractionNotParsedYet {
    /// Reads the held text as a fraction (see `parse_fraction`).
    pub fn parse(&self) -> (r: Result<FractionRaw<BigUint>, ParseError>)
        ensures
            r.is_ok() <==> well_formed_text(vstd::utf8::encode_utf8(self.s@)),
            r.is_err() ==> r == Err::<FractionRaw<BigUint>, ParseError>(ParseError::Malformed),
            r.is_ok() ==> r.unwrap().0 == sign_of_text(vstd::utf8::encode_utf8(self.s@)) && text_value(
                vstd::utf8::encode_utf8(self.s@),
                (r.unwrap().model().1, r.unwrap().model().2),
            ),
    {
        parse_fraction(self.s.as_str())
    }
}

} // verus!
