//! A single loose fraction: a sign tag with a numerator and a denominator.
use vstd::prelude::*;
use num_bigint::BigUint;
use crate::loose_fraction::{Type, CellModel};
use crate::natural::{natural_value, big_from_u64, big_clone, big_mul, big_add, big_sub, big_le, big_eq};

verus! {

/// A fraction as a tag, a numerator and a denominator, not necessarily reduced.
/// The numbers only count for the tags `Plus` and `Minus`.
#[derive(Clone, Debug)]
pub struct FractionRaw<T>(pub Type, pub T, pub T);

impl FractionRaw<u64> {
    pub open spec fn model(&self) -> CellModel {
        (self.0, self.1 as nat, self.2 as nat)
    }

    /// `self *= rhs`; the numbers must fit in a `u64`.
    pub fn mul_assign(&mut self, rhs: FractionRaw<u64>)
        requires
            old(self).1 * rhs.1 <= u64::MAX,
            old(self).2 * rhs.2 <= u64::MAX,
        ensures
            final(self).model() == mul_model(old(self).model(), rhs.model()),
    {
        self.0 = self.0.times(rhs.0);
        if self.0.is_plusminus() {
            self.1 = self.1 * rhs.1;
            self.2 = self.2 * rhs.2;
        }
    }

    /// `self /= rhs`; the numbers must fit in a `u64`.
    pub fn div_assign(&mut self, rhs: FractionRaw<u64>)
        requires
            old(self).1 * rhs.2 <= u64::MAX,
            old(self).2 * rhs.1 <= u64::MAX,
        ensures
            final(self).model() == div_model(old(self).model(), rhs.model()),
    {
        self.0 = self.0.times(rhs.0);
        if self.0.is_plusminus() {
            self.1 = self.1 * rhs.2;
            self.2 = self.2 * rhs.1;
        }
    }
}

/// The product of two cells, unreduced.
pub open spec fn mul_model(a: CellModel, b: CellModel) -> CellModel {
    let t = a.0.spec_times(b.0);
    if t.spec_is_plusminus() {
        (t, a.1 * b.1, a.2 * b.2)
    } else {
        (t, a.1, a.2)
    }
}

/// The quotient of two cells, unreduced.
pub open spec fn div_model(a: CellModel, b: CellModel) -> CellModel {
    let t = a.0.spec_times(b.0);
    if t.spec_is_plusminus() {
        (t, a.1 * b.2, a.2 * b.1)
    } else {
        (t, a.1, a.2)
    }
}

/// The difference of two cells, brought to the common denominator without
/// reducing; a special result keeps the numbers of `a`.
pub open spec fn sub_model(a: CellModel, b: CellModel) -> CellModel {
    if a.0.spec_is_plusminus() && b.0.spec_is_plusminus() {
        let x = a.1 * b.2;
        let y = b.1 * a.2;
        let d = a.2 * b.2;
        match (a.0, b.0) {
            (Type::Plus, Type::Plus) => if x >= y {
                (Type::Plus, (x - y) as nat, d)
            } else {
                (Type::Minus, (y - x) as nat, d)
            },
            (Type::Minus, Type::Minus) => if y >= x {
                (Type::Plus, (y - x) as nat, d)
            } else {
                (Type::Minus, (x - y) as nat, d)
            },
            _ => (a.0, x + y, d),
        }
    } else {
        (a.0.spec_plus(b.0.spec_negate()).unwrap(), a.1, a.2)
    }
}

/// Two cells stand for the same value: two finite fractions equal as rationals
/// (a zero equals a zero whatever its sign), or two special values with the
/// same tag.
pub open spec fn same_value_model(a: CellModel, b: CellModel) -> bool {
    if a.0.spec_is_plusminus() && b.0.spec_is_plusminus() {
        (a.1 == 0 && b.1 == 0) || (a.0 == b.0 && a.1 * b.2 == b.1 * a.2)
    } else {
        a.0 == b.0
    }
}

/// The order of two values.
#[derive(Clone, Copy, Debug, PartialEq, Eq, Structural)]
pub enum FractionOrdering {
    Less,
    Equal,
    Greater,
}

/// Where a value stands among the special values: negative infinity, the
/// finite fractions, positive infinity.
pub open spec fn rank(t: Type) -> int {
    match t {
        Type::NegInfinite => 0,
        Type::Infinite => 2,
        _ => 1,
    }
}

pub open spec fn order_of(x: int, y: int) -> FractionOrdering {
    if x < y {
        FractionOrdering::Less
    } else if x == y {
        FractionOrdering::Equal
    } else {
        FractionOrdering::Greater
    }
}

/// The order of two cells: none when one is NaN; two finite fractions by
/// their cross-multiplied signed numerators (the order of the rationals when
/// the denominators are positive); otherwise by rank.
pub open spec fn compare_model(a: CellModel, b: CellModel) -> Option<FractionOrdering> {
    if a.0 == Type::NaN || b.0 == Type::NaN {
        None
    } else if a.0.spec_is_plusminus() && b.0.spec_is_plusminus() {
        let x = a.1 * b.2;
        let y = b.1 * a.2;
        let sx: int = if a.0 == Type::Minus { -(x as int) } else { x as int };
        let sy: int = if b.0 == Type::Minus { -(y as int) } else { y as int };
        Some(order_of(sx, sy))
    } else {
        Some(order_of(rank(a.0), rank(b.0)))
    }
}

/// A finite zero: the tag `Plus` or `Minus` with numerator zero.
pub open spec fn is_zero_model(c: CellModel) -> bool {
    c.0.spec_is_plusminus() && c.1 == 0
}

/// The reciprocal of a cell: a finite zero and an infinity become NaN.
pub open spec fn recip_model(c: CellModel) -> CellModel {
    if c.0.spec_is_plusminus() {
        if c.1 == 0 {
            (Type::NaN, c.1, c.2)
        } else {
            (c.0, c.2, c.1)
        }
    } else {
        (Type::NaN, c.1, c.2)
    }
}

impl FractionRaw<BigUint> {
    pub open spec fn model(&self) -> CellModel {
        (self.0, natural_value(self.1), natural_value(self.2))
    }

    /// A copy with the same tag and numbers.
    pub fn duplicate(&self) -> (r: Self)
        ensures
            r.model() == self.model(),
    {
        FractionRaw(self.0, big_clone(&self.1), big_clone(&self.2))
    }

    /// Whether both stand for the same value (see `same_value_model`).
    pub fn same_value(&self, rhs: &FractionRaw<BigUint>) -> (r: bool)
        ensures
            r == same_value_model(self.model(), rhs.model()),
    {
        if self.0.is_plusminus() && rhs.0.is_plusminus() {
            let zero = big_from_u64(0);
            if big_eq(&self.1, &zero) && big_eq(&rhs.1, &zero) {
                return true;
            }
            self.0 == rhs.0 && big_eq(&big_mul(&self.1, &rhs.2), &big_mul(&rhs.1, &self.2))
        } else {
            self.0 == rhs.0
        }
    }

    /// The order of the two values (see `compare_model`).
    pub fn compare(&self, rhs: &FractionRaw<BigUint>) -> (r: Option<FractionOrdering>)
        ensures
            r == compare_model(self.model(), rhs.model()),
    {
        if self.0 == Type::NaN || rhs.0 == Type::NaN {
            return None;
        }
        if !(self.0.is_plusminus() && rhs.0.is_plusminus()) {
            let a: u8 = match self.0 {
                Type::NegInfinite => 0,
                Type::Infinite => 2,
                _ => 1,
            };
            let b: u8 = match rhs.0 {
                Type::NegInfinite => 0,
                Type::Infinite => 2,
                _ => 1,
            };
            return Some(if a < b {
                FractionOrdering::Less
            } else if a == b {
                FractionOrdering::Equal
            } else {
                FractionOrdering::Greater
            });
        }
        let x = big_mul(&self.1, &rhs.2);
        let y = big_mul(&rhs.1, &self.2);
        let zero = big_from_u64(0);
        let a_negative = self.0 == Type::Minus;
        let b_negative = rhs.0 == Type::Minus;
        if a_negative != b_negative {
            if big_eq(&x, &zero) && big_eq(&y, &zero) {
                Some(FractionOrdering::Equal)
            } else if a_negative {
                Some(FractionOrdering::Less)
            } else {
                Some(FractionOrdering::Greater)
            }
        } else {
            // the same sign: compare the magnitudes, reversed when negative
            let (small, large) = if a_negative { (&y, &x) } else { (&x, &y) };
            if big_eq(small, large) {
                Some(FractionOrdering::Equal)
            } else if big_le(small, large) {
                Some(FractionOrdering::Less)
            } else {
                Some(FractionOrdering::Greater)
            }
        }
    }

    /// `self *= rhs`.
    pub fn mul_assign(&mut self, rhs: &FractionRaw<BigUint>)
        ensures
            final(self).model() == mul_model(old(self).model(), rhs.model()),
    {
        self.0 = self.0.times(rhs.0);
        if self.0.is_plusminus() {
            self.1 = big_mul(&self.1, &rhs.1);
            self.2 = big_mul(&self.2, &rhs.2);
        }
    }

    /// `self /= rhs`.
    pub fn div_assign(&mut self, rhs: &FractionRaw<BigUint>)
        ensures
            final(self).model() == div_model(old(self).model(), rhs.model()),
    {
        self.0 = self.0.times(rhs.0);
        if self.0.is_plusminus() {
            self.1 = big_mul(&self.1, &rhs.2);
            self.2 = big_mul(&self.2, &rhs.1);
        }
    }

    /// `self -= rhs`.
    pub fn sub_assign(&mut self, rhs: &FractionRaw<BigUint>)
        ensures
            final(self).model() == sub_model(old(self).model(), rhs.model()),
    {
        if self.0.is_plusminus() && rhs.0.is_plusminus() {
            let x = big_mul(&self.1, &rhs.2);
            let y = big_mul(&rhs.1, &self.2);
            self.2 = big_mul(&self.2, &rhs.2);
            match (self.0, rhs.0) {
                (Type::Plus, Type::Plus) => {
                    if big_le(&y, &x) {
                        self.1 = big_sub(&x, &y);
                    } else {
                        self.1 = big_sub(&y, &x);
                        self.0 = Type::Minus;
                    }
                },
                (Type::Minus, Type::Minus) => {
                    if big_le(&x, &y) {
                        self.1 = big_sub(&y, &x);
                        self.0 = Type::Plus;
                    } else {
                        self.1 = big_sub(&x, &y);
                    }
                },
                _ => {
                    self.1 = big_add(&x, &y);
                },
            }
        } else {
            self.0 = match self.0.plus(rhs.0.negate()) {
                Some(t) => t,
                None => Type::NaN,
            };
        }
    }
}

/// Setting a fraction to one.
pub trait SetOne: Sized {
    /// The value is exactly one over one.
    spec fn is_set_one(&self) -> bool;

    fn set_one(&mut self)
        ensures
            final(self).is_set_one(),
    ;
}

/// Setting a fraction to zero.
pub trait SetZero: Sized {
    /// The value is exactly zero over one.
    spec fn is_set_zero(&self) -> bool;

    fn set_zero(&mut self)
        ensures
            final(self).is_set_zero(),
    ;
}

/// Testing a fraction for zero.
pub trait IsZero: Sized {
    spec fn spec_is_zero(&self) -> bool;

    fn is_zero(&self) -> (r: bool)
        ensures
            r == self.spec_is_zero(),
    ;
}

impl SetOne for FractionRaw<BigUint> {
    open spec fn is_set_one(&self) -> bool {
        self.model() == (Type::Plus, 1nat, 1nat)
    }

    fn set_one(&mut self) {
        self.0 = Type::Plus;
        self.1 = big_from_u64(1);
        self.2 = big_from_u64(1);
    }
}

impl SetZero for FractionRaw<BigUint> {
    open spec fn is_set_zero(&self) -> bool {
        self.model() == (Type::Plus, 0nat, 1nat)
    }

    fn set_zero(&mut self) {
        self.0 = Type::Plus;
        self.1 = big_from_u64(0);
        self.2 = big_from_u64(1);
    }
}

impl SetOne for FractionRaw<u64> {
    open spec fn is_set_one(&self) -> bool {
        self.model() == (Type::Plus, 1nat, 1nat)
    }

    fn set_one(&mut self) {
        self.0 = Type::Plus;
        self.1 = 1;
        self.2 = 1;
    }
}

impl SetZero for FractionRaw<u64> {
    open spec fn is_set_zero(&self) -> bool {
        self.model() == (Type::Plus, 0nat, 1nat)
    }

    fn set_zero(&mut self) {
        self.0 = Type::Plus;
        self.1 = 0;
        self.2 = 1;
    }
}

impl IsZero for FractionRaw<u64> {
    open spec fn spec_is_zero(&self) -> bool {
        is_zero_model(self.model())
    }

    fn is_zero(&self) -> (r: bool) {
        self.0.is_plusminus() && self.1 == 0
    }
}

/// Reads one cell out of the three parallel arrays of a matrix.
pub trait FractionRawGetter<T>: Sized {
    /// `r` is the cell at `index`.
    spec fn is_cell(r: FractionRaw<T>, index: int, types: Seq<Type>, numerators: Seq<T>, denominators: Seq<T>) -> bool;

    fn get_clone(index: usize, types: &[Type], numerators: &[T], denominators: &[T]) -> (r: FractionRaw<T>)
        requires
            index < types@.len(),
            index < numerators@.len(),
            index < denominators@.len(),
        ensures
            Self::is_cell(r, index as int, types@, numerators@, denominators@),
    ;
}

impl FractionRawGetter<BigUint> for BigUint {
    open spec fn is_cell(r: FractionRaw<BigUint>, index: int, types: Seq<Type>, numerators: Seq<BigUint>, denominators: Seq<BigUint>) -> bool {
        r.model() == (types[index], natural_value(numerators[index]), natural_value(denominators[index]))
    }

    fn get_clone(index: usize, types: &[Type], numerators: &[BigUint], denominators: &[BigUint]) -> (r: FractionRaw<BigUint>) {
        FractionRaw(types[index], big_clone(&numerators[index]), big_clone(&denominators[index]))
    }
}

impl FractionRawGetter<u64> for u64 {
    open spec fn is_cell(r: FractionRaw<u64>, index: int, types: Seq<Type>, numerators: Seq<u64>, denominators: Seq<u64>) -> bool {
        r.model() == (types[index], numerators[index] as nat, denominators[index] as nat)
    }

    fn get_clone(index: usize, types: &[Type], numerators: &[u64], denominators: &[u64]) -> (r: FractionRaw<u64>) {
        FractionRaw(types[index], numerators[index], denominators[index])
    }
}

} // verus!
