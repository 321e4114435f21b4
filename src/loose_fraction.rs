//! Loose fractions: a sign tag, a numerator and a denominator, not necessarily
//! reduced, and the fused step `a += b * c` on them.
use vstd::prelude::*;
use num_bigint::BigUint;
use crate::natural::{natural_value, big_mul, big_add, big_sub, big_le};

verus! {

/// The sign of a fraction, or the special value it stands for.
#[derive(Clone, Copy, Debug, PartialEq, Eq, Structural)]
pub enum Type {
    Plus,
    Minus,
    NaN,
    Infinite,
    NegInfinite,
}

/// A plain sign.
#[derive(Clone, Copy, Debug, PartialEq, Eq, Structural)]
pub enum Sign {
    Plus,
    Minus,
}

/// A cell as the contracts see it: its tag, numerator and denominator.
pub type CellModel = (Type, nat, nat);

impl Type {
    pub open spec fn spec_is_plusminus(self) -> bool {
        self == Type::Plus || self == Type::Minus
    }

    pub open spec fn spec_sign(self) -> Sign {
        match self {
            Type::Minus | Type::NegInfinite => Sign::Minus,
            _ => Sign::Plus,
        }
    }

    /// The tag of a product.
    pub open spec fn spec_times(self, rhs: Type) -> Type {
        match (self, rhs) {
            (Type::NaN, _) | (_, Type::NaN) => Type::NaN,
            (Type::Plus, Type::Plus) | (Type::Minus, Type::Minus) => Type::Plus,
            (Type::Plus, Type::Minus) | (Type::Minus, Type::Plus) => Type::Minus,
            (Type::Plus, Type::Infinite) | (Type::Minus, Type::NegInfinite) => Type::Infinite,
            (Type::Infinite, Type::Plus) | (Type::NegInfinite, Type::Minus) => Type::Infinite,
            (Type::Infinite, Type::Infinite) | (Type::NegInfinite, Type::NegInfinite) => Type::Infinite,
            _ => Type::NegInfinite,
        }
    }

    /// The tag of a sum, or `None` when the two finite signs differ and the
    /// magnitudes decide.
    pub open spec fn spec_plus(self, rhs: Type) -> Option<Type> {
        match (self, rhs) {
            (Type::NaN, _) | (_, Type::NaN) => Some(Type::NaN),
            (Type::Plus, Type::Minus) | (Type::Minus, Type::Plus) => None,
            (Type::Plus, Type::Plus) => Some(Type::Plus),
            (Type::Minus, Type::Minus) => Some(Type::Minus),
            (Type::Infinite, Type::NegInfinite) | (Type::NegInfinite, Type::Infinite) => Some(Type::NaN),
            (Type::Infinite, _) | (_, Type::Infinite) => Some(Type::Infinite),
            _ => Some(Type::NegInfinite),
        }
    }

    pub open spec fn spec_negate(self) -> Type {
        match self {
            Type::Plus => Type::Minus,
            Type::Minus => Type::Plus,
            Type::NaN => Type::NaN,
            Type::Infinite => Type::NegInfinite,
            Type::NegInfinite => Type::Infinite,
        }
    }

    pub fn sign(&self) -> (r: Sign)
        ensures
            r == self.spec_sign(),
    {
        match self {
            Type::Plus => Sign::Plus,
            Type::Minus => Sign::Minus,
            Type::NaN => Sign::Plus,
            Type::Infinite => Sign::Plus,
            Type::NegInfinite => Sign::Minus,
        }
    }

    pub fn is_plusminus(&self) -> (r: bool)
        ensures
            r == self.spec_is_plusminus(),
    {
        match self {
            Type::Plus => true,
            Type::Minus => true,
            Type::NaN => false,
            Type::Infinite => false,
            Type::NegInfinite => false,
        }
    }

    pub fn times(self, rhs: Type) -> (r: Type)
        ensures
            r == self.spec_times(rhs),
    {
        match (self, rhs) {
            (Type::NaN, _) | (_, Type::NaN) => Type::NaN,
            (Type::Plus, Type::Plus) | (Type::Minus, Type::Minus) => Type::Plus,
            (Type::Plus, Type::Minus) | (Type::Minus, Type::Plus) => Type::Minus,
            (Type::Plus, Type::Infinite) | (Type::Minus, Type::NegInfinite) => Type::Infinite,
            (Type::Infinite, Type::Plus) | (Type::NegInfinite, Type::Minus) => Type::Infinite,
            (Type::Infinite, Type::Infinite) | (Type::NegInfinite, Type::NegInfinite) => Type::Infinite,
            _ => Type::NegInfinite,
        }
    }

    pub fn plus(self, rhs: Type) -> (r: Option<Type>)
        ensures
            r == self.spec_plus(rhs),
    {
        match (self, rhs) {
            (Type::NaN, _) | (_, Type::NaN) => Some(Type::NaN),
            (Type::Plus, Type::Minus) | (Type::Minus, Type::Plus) => None,
            (Type::Plus, Type::Plus) => Some(Type::Plus),
            (Type::Minus, Type::Minus) => Some(Type::Minus),
            (Type::Infinite, Type::NegInfinite) | (Type::NegInfinite, Type::Infinite) => Some(Type::NaN),
            (Type::Infinite, _) | (_, Type::Infinite) => Some(Type::Infinite),
            _ => Some(Type::NegInfinite),
        }
    }

    pub fn negate(self) -> (r: Type)
        ensures
            r == self.spec_negate(),
    {
        match self {
            Type::Plus => Type::Minus,
            Type::Minus => Type::Plus,
            Type::NaN => Type::NaN,
            Type::Infinite => Type::NegInfinite,
            Type::NegInfinite => Type::Infinite,
        }
    }
}

/// `a + b * c` on cells. The numerator and denominator are brought to the
/// common denominator `den_a * den_b * den_c` without reducing; a special
/// result keeps the numbers of `a`.
pub open spec fn add_mul_model(a: CellModel, b: CellModel, c: CellModel) -> CellModel {
    let tp = b.0.spec_times(c.0);
    let np = b.1 * c.1;
    let dp = b.2 * c.2;
    let x = a.1 * dp;
    let y = a.2 * np;
    match a.0.spec_plus(tp) {
        Some(t) => if t.spec_is_plusminus() {
            (t, x + y, a.2 * dp)
        } else {
            (t, a.1, a.2)
        },
        None => if x >= y {
            (a.0, (x - y) as nat, a.2 * dp)
        } else {
            (tp, (y - x) as nat, a.2 * dp)
        },
    }
}

/// Whether every intermediate number of `add_mul_model` fits in a `u64`.
pub open spec fn add_mul_fits(a: CellModel, b: CellModel, c: CellModel) -> bool {
    let tp = b.0.spec_times(c.0);
    let np = b.1 * c.1;
    let dp = b.2 * c.2;
    let common = np <= u64::MAX && dp <= u64::MAX && a.1 * dp <= u64::MAX && a.2 * np
        <= u64::MAX && a.2 * dp <= u64::MAX;
    match a.0.spec_plus(tp) {
        Some(t) => !t.spec_is_plusminus() || (common && a.1 * dp + a.2 * np <= u64::MAX),
        None => common,
    }
}

/// Given three numbers a, b and c, performs `a += b * c` in `u64`.
///
/// Returns false if a number along the way does not fit in a `u64`; `a` is then
/// left as it was.
pub fn checked_add_assign_mul(
    type_a: &mut Type,
    num_a: &mut u64,
    den_a: &mut u64,
    type_b: Type,
    num_b: &u64,
    den_b: &u64,
    type_c: Type,
    num_c: &u64,
    den_c: &u64,
) -> (r: bool)
    ensures
        r == add_mul_fits(
            (*old(type_a), *old(num_a) as nat, *old(den_a) as nat),
            (type_b, *num_b as nat, *den_b as nat),
            (type_c, *num_c as nat, *den_c as nat),
        ),
        r ==> (*final(type_a), *final(num_a) as nat, *final(den_a) as nat) == add_mul_model(
            (*old(type_a), *old(num_a) as nat, *old(den_a) as nat),
            (type_b, *num_b as nat, *den_b as nat),
            (type_c, *num_c as nat, *den_c as nat),
        ),
        !r ==> *final(type_a) == *old(type_a) && *final(num_a) == *old(num_a) && *final(den_a)
            == *old(den_a),
{
    let type_prod = type_b.times(type_c);
    let sum_type = type_a.plus(type_prod);
    if let Some(new_type) = sum_type {
        if !new_type.is_plusminus() {
            // the tag alone decides a special value
            *type_a = new_type;
            return true;
        }
    }
    let num_prod = match num_b.checked_mul(*num_c) {
        Some(v) => v,
        None => return false,
    };
    let den_prod = match den_b.checked_mul(*den_c) {
        Some(v) => v,
        None => return false,
    };
    let x = match num_a.checked_mul(den_prod) {
        Some(v) => v,
        None => return false,
    };
    let y = match den_a.checked_mul(num_prod) {
        Some(v) => v,
        None => return false,
    };
    let den = match den_a.checked_mul(den_prod) {
        Some(v) => v,
        None => return false,
    };
    match sum_type {
        Some(new_type) => {
            // both have the sign of the result: add the magnitudes
            let num = match x.checked_add(y) {
                Some(v) => v,
                None => return false,
            };
            *type_a = new_type;
            *num_a = num;
            *den_a = den;
        },
        None => {
            // opposite signs: the larger magnitude gives the sign
            if x >= y {
                *num_a = x - y;
            } else {
                *type_a = type_prod;
                *num_a = y - x;
            }
            *den_a = den;
        },
    }
    true
}

/// Fractions whose numerator and denominator are of this type support `a += b * c`.
pub trait LooseFraction: Sized {
    spec fn magnitude(&self) -> nat;

    /// Given three numbers a, b and c, performs `a += b * c`.
    fn add_assign_mul(
        type_a: &mut Type,
        num_a: &mut Self,
        den_a: &mut Self,
        type_b: Type,
        num_b: &Self,
        den_b: &Self,
        type_c: Type,
        num_c: &Self,
        den_c: &Self,
    )
        ensures
            (*final(type_a), final(num_a).magnitude(), final(den_a).magnitude()) == add_mul_model(
                (*old(type_a), old(num_a).magnitude(), old(den_a).magnitude()),
                (type_b, num_b.magnitude(), den_b.magnitude()),
                (type_c, num_c.magnitude(), den_c.magnitude()),
            ),
    ;
}

impl LooseFraction for BigUint {
    open spec fn magnitude(&self) -> nat {
        natural_value(*self)
    }

    fn add_assign_mul(
        type_a: &mut Type,
        num_a: &mut BigUint,
        den_a: &mut BigUint,
        type_b: Type,
        num_b: &BigUint,
        den_b: &BigUint,
        type_c: Type,
        num_c: &BigUint,
        den_c: &BigUint,
    ) {
        let type_prod = type_b.times(type_c);
        let sum_type = type_a.plus(type_prod);
        if let Some(new_type) = sum_type {
            if !new_type.is_plusminus() {
                *type_a = new_type;
                return ;
            }
        }
        let num_prod = big_mul(num_b, num_c);
        let den_prod = big_mul(den_b, den_c);
        let x = big_mul(num_a, &den_prod);
        let y = big_mul(den_a, &num_prod);
        let den = big_mul(den_a, &den_prod);
        match sum_type {
            Some(new_type) => {
                *type_a = new_type;
                *num_a = big_add(&x, &y);
            },
            None => {
                if big_le(&y, &x) {
                    *num_a = big_sub(&x, &y);
                } else {
                    *type_a = type_prod;
                    *num_a = big_sub(&y, &x);
                }
            },
        }
        *den_a = den;
    }
}

} // verus!
