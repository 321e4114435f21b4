//! Exact fraction arithmetic on sign-tagged numerator/denominator pairs, an
//! overflow-safe fraction matrix that keeps its cells in `u64` while they fit
//! and in arbitrary-precision naturals otherwise, Gauss-Jordan elimination and
//! inversion on it, and an exact weighted random sampler.
pub mod natural;
pub mod gcd;
pub mod loose_fraction;
pub mod fraction_raw;
pub mod number;
pub mod matrix;
pub mod gauss_jordan;
pub mod inversion;
pub mod singular;
pub mod identity_minus;
pub mod choose_randomly;
pub mod parsing;
