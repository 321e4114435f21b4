//! The numeric capabilities of an exact fraction.
use vstd::prelude::*;
use num_bigint::BigUint;
use crate::loose_fraction::{Type, CellModel};
use crate::fraction_raw::{FractionRaw, is_zero_model, recip_model};
use crate::natural::{natural_value, big_from_u64, big_eq};

verus! {

pub trait Zero: Sized {
    spec fn spec_is_zero(&self) -> bool;

    /// Zero over one.
    fn zero() -> (r: Self)
        ensures
            r.spec_is_zero(),
    ;

    fn is_zero(&self) -> (r: bool)
        ensures
            r == self.spec_is_zero(),
    ;
}

pub trait One: Sized {
    spec fn spec_is_one(&self) -> bool;

    /// One over one.
    fn one() -> (r: Self)
        ensures
            r.spec_is_one(),
    ;

    fn is_one(&self) -> (r: bool)
        ensures
            r == self.spec_is_one(),
    ;
}

pub trait Signed: Sized {
    spec fn spec_is_positive(&self) -> bool;

    spec fn spec_is_negative(&self) -> bool;

    /// `self` is the absolute value of `before`.
    spec fn is_abs_of(&self, before: Self) -> bool;

    fn abs(self) -> (r: Self)
        ensures
            r.is_abs_of(self),
    ;

    /// Returns true if the number is positive and false if the number is zero or negative.
    fn is_positive(&self) -> (r: bool)
        ensures
            r == self.spec_is_positive(),
    ;

    /// Returns true if the number is negative and false if the number is zero or positive.
    fn is_negative(&self) -> (r: bool)
        ensures
            r == self.spec_is_negative(),
    ;

    fn is_not_negative(&self) -> (r: bool)
        ensures
            r == !self.spec_is_negative(),
    ;

    fn is_not_positive(&self) -> (r: bool)
        ensures
            r == !self.spec_is_positive(),
    ;
}

pub trait Infinite: Signed {
    spec fn spec_is_infinite(&self) -> bool;

    /// Returns true if this value is positive infinity or negative infinity.
    fn is_infinite(&self) -> (r: bool)
        ensures
            r == self.spec_is_infinite(),
    ;

    fn is_finite(&self) -> (r: bool)
        ensures
            r == !self.spec_is_infinite(),
    ;
}

pub trait Recip: Sized {
    /// `self` is the reciprocal of `before`.
    spec fn is_recip_of(&self, before: Self) -> bool;

    fn recip(&mut self)
        ensures
            final(self).is_recip_of(*old(self)),
    ;
}

/// Strictly above zero: a finite positive fraction or positive infinity.
pub open spec fn positive_model(c: CellModel) -> bool {
    (c.0 == Type::Plus && c.1 > 0) || c.0 == Type::Infinite
}

/// Strictly below zero: a finite negative fraction or negative infinity.
pub open spec fn negative_model(c: CellModel) -> bool {
    (c.0 == Type::Minus && c.1 > 0) || c.0 == Type::NegInfinite
}

pub open spec fn abs_model(c: CellModel) -> CellModel {
    match c.0 {
        Type::Minus => (Type::Plus, c.1, c.2),
        Type::NegInfinite => (Type::Infinite, c.1, c.2),
        _ => c,
    }
}

impl Zero for FractionRaw<BigUint> {
    open spec fn spec_is_zero(&self) -> bool {
        is_zero_model(self.model())
    }

    fn zero() -> (r: Self) {
        FractionRaw(Type::Plus, big_from_u64(0), big_from_u64(1))
    }

    fn is_zero(&self) -> (r: bool) {
        self.0.is_plusminus() && big_eq(&self.1, &big_from_u64(0))
    }
}

impl One for FractionRaw<BigUint> {
    /// One: positive, with equal numerator and denominator, which are not zero.
    open spec fn spec_is_one(&self) -> bool {
        self.0 == Type::Plus && natural_value(self.1) == natural_value(self.2) && natural_value(self.2) > 0
    }

    fn one() -> (r: Self) {
        FractionRaw(Type::Plus, big_from_u64(1), big_from_u64(1))
    }

    fn is_one(&self) -> (r: bool) {
        self.0 == Type::Plus && big_eq(&self.1, &self.2) && !big_eq(&self.2, &big_from_u64(0))
    }
}

impl Signed for FractionRaw<BigUint> {
    open spec fn spec_is_positive(&self) -> bool {
        positive_model(self.model())
    }

    open spec fn spec_is_negative(&self) -> bool {
        negative_model(self.model())
    }

    open spec fn is_abs_of(&self, before: Self) -> bool {
        self.model() == abs_model(before.model())
    }

    fn abs(self) -> (r: Self) {
        let FractionRaw(t, n, d) = self;
        let t = match t {
            Type::Minus => Type::Plus,
            Type::NegInfinite => Type::Infinite,
            other => other,
        };
        FractionRaw(t, n, d)
    }

    fn is_positive(&self) -> (r: bool) {
        match self.0 {
            Type::Plus => !big_eq(&self.1, &big_from_u64(0)),
            Type::Infinite => true,
            _ => false,
        }
    }

    fn is_negative(&self) -> (r: bool) {
        match self.0 {
            Type::Minus => !big_eq(&self.1, &big_from_u64(0)),
            Type::NegInfinite => true,
            _ => false,
        }
    }

    fn is_not_negative(&self) -> (r: bool) {
        !self.is_negative()
    }

    fn is_not_positive(&self) -> (r: bool) {
        !self.is_positive()
    }
}

impl Infinite for FractionRaw<BigUint> {
    open spec fn spec_is_infinite(&self) -> bool {
        self.0 == Type::Infinite || self.0 == Type::NegInfinite
    }

    fn is_infinite(&self) -> (r: bool) {
        self.0 == Type::Infinite || self.0 == Type::NegInfinite
    }

    fn is_finite(&self) -> (r: bool) {
        !self.is_infinite()
    }
}

impl Recip for FractionRaw<BigUint> {
    open spec fn is_recip_of(&self, before: Self) -> bool {
        self.model() == recip_model(before.model())
    }

    fn recip(&mut self) {
        match self.0 {
            Type::Plus | Type::Minus => {
                if big_eq(&self.1, &big_from_u64(0)) {
                    self.0 = Type::NaN;
                } else {
                    std::mem::swap(&mut self.1, &mut self.2);
                }
            },
            _ => {
                self.0 = Type::NaN;
            },
        }
    }
}

} // verus!
