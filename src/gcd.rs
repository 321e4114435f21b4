//! Facts about the greatest common divisor, and its computation on `u64`.
use vstd::prelude::*;
use vstd::arithmetic::div_mod::{lemma_fundamental_div_mod, lemma_fundamental_div_mod_converse};
use crate::natural::spec_gcd;

verus! {

/// Euclid's algorithm on machine words.
pub fn gcd_u64(a: u64, b: u64) -> (r: u64)
    ensures
        r as nat == spec_gcd(a as nat, b as nat),
{
    let mut x = a;
    let mut y = b;
    while y != 0
        invariant
            spec_gcd(x as nat, y as nat) == spec_gcd(a as nat, b as nat),
        decreases y,
    {
        let t = x % y;
        x = y;
        y = t;
    }
    x
}

/// The greatest common divisor divides both numbers, and is positive unless both are zero.
pub proof fn lemma_gcd_divides(a: nat, b: nat)
    ensures
        (a > 0 || b > 0) ==> spec_gcd(a, b) > 0,
        spec_gcd(a, b) > 0 ==> a == spec_gcd(a, b) * (a / spec_gcd(a, b)) && b == spec_gcd(a, b) * (b / spec_gcd(a, b)),
    decreases b,
{
    let g = spec_gcd(a, b);
    if b == 0 {
        if a > 0 {
            lemma_fundamental_div_mod_converse(a as int, a as int, 1, 0);
            lemma_fundamental_div_mod_converse(0, a as int, 0, 0);
            assert(g == a);
            assert(a / g == 1);
            assert(b / g == 0);
        }
    } else {
        let r = a % b;
        lemma_gcd_divides(b, r);
        lemma_fundamental_div_mod(a as int, b as int);
        assert(g == spec_gcd(b, r));
        assert(g > 0);
        let s = b / g;
        let t = r / g;
        let q = a / b;
        assert(a == g * (s * q + t)) by (nonlinear_arith)
            requires
                a == b * q + r,
                b == g * s,
                r == g * t,
        ;
        assert(s * q + t >= 0) by (nonlinear_arith)
            requires
                s >= 0,
                q >= 0,
                t >= 0,
        ;
        assert(a == (s * q + t) * g + 0) by (nonlinear_arith)
            requires
                a == g * (s * q + t),
        ;
        lemma_fundamental_div_mod_converse(a as int, g as int, (s * q + t) as int, 0);
        assert(a / g == s * q + t);
        assert(b == g * (b / g));
    }
}

/// Scaling both numbers scales their greatest common divisor.
pub proof fn lemma_gcd_scale(k: nat, x: nat, y: nat)
    requires
        k > 0,
    ensures
        spec_gcd(k * x, k * y) == k * spec_gcd(x, y),
    decreases y,
{
    if y == 0 {
        assert(k * y == 0) by (nonlinear_arith)
            requires
                y == 0,
        ;
    } else {
        let q = x / y;
        let r = x % y;
        lemma_fundamental_div_mod(x as int, y as int);
        assert(k * x == q * (k * y) + k * r) by (nonlinear_arith)
            requires
                x == y * q + r,
        ;
        assert(0 <= k * r < k * y) by (nonlinear_arith)
            requires
                0 <= r < y,
                k > 0,
        ;
        assert(k * y > 0) by (nonlinear_arith)
            requires
                k > 0,
                y > 0,
        ;
        lemma_fundamental_div_mod_converse((k * x) as int, (k * y) as int, q as int, (k * r) as int);
        lemma_gcd_scale(k, y, r);
    }
}

/// Dividing two numbers, not both zero, by their greatest common divisor leaves
/// numbers whose greatest common divisor is one.
pub proof fn lemma_gcd_coprime(a: nat, b: nat)
    requires
        a > 0 || b > 0,
    ensures
        spec_gcd(a, b) > 0,
        spec_gcd(a / spec_gcd(a, b), b / spec_gcd(a, b)) == 1,
{
    let g = spec_gcd(a, b);
    lemma_gcd_divides(a, b);
    let x = a / g;
    let y = b / g;
    lemma_gcd_scale(g, x, y);
    assert(g * spec_gcd(x, y) == g * 1);
    assert(spec_gcd(x, y) == 1) by (nonlinear_arith)
        requires
            g * spec_gcd(x, y) == g * 1,
            g > 0,
    ;
}

} // verus!
