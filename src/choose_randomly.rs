//! Drawing an index at random with probability proportional to exact weights.
use vstd::prelude::*;
use num_bigint::BigUint;
use crate::loose_fraction::{Type, CellModel};
use crate::fraction_raw::FractionRaw;
use crate::natural::{natural_value, spec_gcd, big_from_u64, big_clone, big_mul, big_add, big_sub, big_div, big_le, big_eq, big_gcd, big_random_below};
use crate::gcd::lemma_gcd_divides;

verus! {

/// Why no index can be drawn.
#[derive(Clone, Copy, Debug, PartialEq, Eq, Structural)]
pub enum ChooseError {
    /// The list of weights is empty.
    Empty,
    /// A weight is not finite, or has denominator zero.
    InvalidWeight,
    /// The weights sum to zero.
    ZeroSum,
}

/// A weight: a finite fraction with a positive denominator.
pub open spec fn is_weight(c: CellModel) -> bool {
    c.0.spec_is_plusminus() && c.2 > 0
}

/// A magnitude with a sign.
pub open spec fn signed_of(negative: bool, magnitude: nat) -> int {
    if negative {
        -(magnitude as int)
    } else {
        magnitude as int
    }
}

pub open spec fn abs(x: int) -> nat {
    if x < 0 {
        (-x) as nat
    } else {
        x as nat
    }
}

/// `a + b` on fractions given as a signed numerator and a denominator.
pub open spec fn add_pair(a: (int, nat), b: (int, nat)) -> (int, nat) {
    (a.0 * b.1 + b.0 * a.1, a.1 * b.1)
}

/// The sum of the first `k` weights.
pub open spec fn weight_sum(ws: Seq<CellModel>, k: nat) -> (int, nat)
    decreases k,
{
    if k == 0 {
        (0, 1)
    } else {
        let w = ws[k - 1];
        add_pair(weight_sum(ws, (k - 1) as nat), (signed_of(w.0 == Type::Minus, w.1), w.2))
    }
}

/// A weight divided by the (nonzero) sum, in lowest terms.
pub open spec fn normalised_weight(w: CellModel, sum: (int, nat)) -> (int, nat) {
    let negative = (w.0 == Type::Minus) != (sum.0 < 0);
    let n = w.1 * sum.1;
    let d = w.2 * abs(sum.0);
    (signed_of(negative, n / spec_gcd(n, d)), d / spec_gcd(n, d))
}

/// The largest denominator among the first `k` normalised weights.
pub open spec fn highest_denominator(ws: Seq<CellModel>, sum: (int, nat), k: nat) -> nat
    decreases k,
{
    if k == 0 {
        0
    } else {
        let h = highest_denominator(ws, sum, (k - 1) as nat);
        let d = normalised_weight(ws[k - 1], sum).1;
        if d > h {
            d
        } else {
            h
        }
    }
}

/// The sum of the first `k` normalised weights.
pub open spec fn cumulative(ws: Seq<CellModel>, sum: (int, nat), k: nat) -> (int, nat)
    decreases k,
{
    if k == 0 {
        (0, 1)
    } else {
        add_pair(cumulative(ws, sum, (k - 1) as nat), normalised_weight(ws[k - 1], sum))
    }
}

/// `a <= b` on fractions with non-negative denominators, by cross-multiplying.
pub open spec fn pair_le(a: (int, nat), b: (int, nat)) -> bool {
    a.0 * b.1 <= b.0 * a.1
}

/// Every denominator is positive.
pub open spec fn positive_denominators(cum: Seq<(int, nat)>) -> bool {
    forall|i: int| 0 <= i < cum.len() ==> (#[trigger] cum[i]).1 > 0
}

/// The values never decrease.
pub open spec fn sorted_fractions(cum: Seq<(int, nat)>) -> bool {
    forall|i: int, j: int| 0 <= i < j < cum.len() ==> pair_le(#[trigger] cum[i], #[trigger] cum[j])
}

proof fn lemma_pair_le_transitive(a: (int, nat), b: (int, nat), c: (int, nat))
    requires
        b.1 > 0,
        pair_le(a, b),
        pair_le(b, c),
    ensures
        pair_le(a, c),
{
    let (a0, a1, b0, b1, c0, c1) = (a.0, a.1 as int, b.0, b.1 as int, c.0, c.1 as int);
    assert(a0 * c1 <= c0 * a1) by (nonlinear_arith)
        requires
            a0 * b1 <= b0 * a1,
            b0 * c1 <= c0 * b1,
            b1 > 0,
            a1 >= 0,
            c1 >= 0,
    ;
}

proof fn lemma_add_pair_grows(c: (int, nat), w: (int, nat))
    requires
        c.1 > 0,
        w.1 > 0,
        w.0 >= 0,
    ensures
        pair_le(c, add_pair(c, w)),
{
    let (c0, c1, w0, w1) = (c.0, c.1 as int, w.0, w.1 as int);
    assert(c0 * (c1 * w1) <= (c0 * w1 + w0 * c1) * c1) by (nonlinear_arith)
        requires
            w0 >= 0,
    ;
}

proof fn lemma_positive_product(x: nat, y: nat)
    requires
        x > 0,
        y > 0,
    ensures
        x * y > 0,
{
    assert(x * y > 0) by (nonlinear_arith)
        requires
            x > 0,
            y > 0,
    ;
}

proof fn lemma_signed_scale(negative: bool, x: nat, y: nat)
    ensures
        signed_of(negative, x * y) == signed_of(negative, x) * (y as int),
{
    assert((-(x as int)) * (y as int) == -((x * y) as int)) by (nonlinear_arith);
}

/// The index a draw selects: the first whose cumulative value is at least the
/// draw, or the last one.
pub open spec fn selects(cum: Seq<(int, nat)>, draw: (int, nat), i: nat) -> bool {
    &&& i < cum.len()
    &&& forall|j: int| 0 <= j < i ==> !pair_le(draw, #[trigger] cum[j])
    &&& (i + 1 < cum.len() ==> pair_le(draw, cum[i as int]))
}

/// The cumulative normalised weights, each a sign, a magnitude and a
/// denominator; the largest denominator among the normalised weights, which
/// sets the precision of a draw; and whether the cumulative values never
/// decrease, which holds when no normalised weight is negative.
pub struct FractionRandomCache {
    pub cumulative_negative: Vec<bool>,
    pub cumulative_numerators: Vec<BigUint>,
    pub cumulative_denominators: Vec<BigUint>,
    pub highest_denominator: BigUint,
    pub sorted: bool,
}

impl FractionRandomCache {
    pub open spec fn cumulative_model(&self) -> Seq<(int, nat)> {
        Seq::new(
            self.cumulative_numerators@.len(),
            |i: int| (
                signed_of(self.cumulative_negative@[i], natural_value(self.cumulative_numerators@[i])),
                natural_value(self.cumulative_denominators@[i]),
            ),
        )
    }

    /// At least one entry; positive denominators; a positive highest
    /// denominator; values that never decrease when `sorted` says so.
    pub open spec fn wf(&self) -> bool {
        &&& self.cumulative_numerators@.len() > 0
        &&& self.cumulative_denominators@.len() == self.cumulative_numerators@.len()
        &&& self.cumulative_negative@.len() == self.cumulative_numerators@.len()
        &&& natural_value(self.highest_denominator) > 0
        &&& positive_denominators(self.cumulative_model())
        &&& self.sorted ==> sorted_fractions(self.cumulative_model())
    }

    /// The cache holds what `choose_randomly_create_cache` computes from `ws`.
    pub open spec fn built_from(&self, ws: Seq<CellModel>) -> bool {
        let sum = weight_sum(ws, ws.len());
        &&& self.cumulative_numerators@.len() == ws.len()
        &&& self.cumulative_model() == cumulative_list(ws)
        &&& natural_value(self.highest_denominator) == highest_denominator(ws, sum, ws.len())
    }
}

/// The cumulative normalised weights of a list.
pub open spec fn cumulative_list(ws: Seq<CellModel>) -> Seq<(int, nat)> {
    Seq::new(ws.len(), |i: int| cumulative(ws, weight_sum(ws, ws.len()), (i + 1) as nat))
}

/// Some draw `k / D` with `0 < k <= D` selects `i`, for the cumulative values
/// `cum` and the highest denominator `D`.
pub open spec fn drawn_with(cum: Seq<(int, nat)>, highest: nat, i: nat) -> bool {
    exists|draw: nat| 0 < draw <= highest && #[trigger] selects(cum, (draw as int, highest), i)
}

/// The models of a list of weights.
pub open spec fn weight_models(v: Seq<FractionRaw<BigUint>>) -> Seq<CellModel> {
    v.map_values(|f: FractionRaw<BigUint>| f.model())
}

/// Whether the weights admit a draw: at least one, all valid, with a nonzero sum.
pub open spec fn drawable(ws: Seq<CellModel>) -> bool {
    ws.len() > 0 && (forall|i: int| 0 <= i < ws.len() ==> is_weight(#[trigger] ws[i])) && weight_sum(ws, ws.len()).0 != 0
}

proof fn lemma_sum_denominator_positive(ws: Seq<CellModel>, k: nat)
    requires
        k <= ws.len(),
        forall|i: int| 0 <= i < ws.len() ==> is_weight(#[trigger] ws[i]),
    ensures
        weight_sum(ws, k).1 > 0,
    decreases k,
{
    if k > 0 {
        lemma_sum_denominator_positive(ws, (k - 1) as nat);
        assert(is_weight(ws[k - 1]));
        lemma_positive_product(weight_sum(ws, (k - 1) as nat).1, ws[k - 1].2);
    }
}

/// `a + b` on signed magnitudes.
fn signed_add(a_negative: bool, a: &BigUint, b_negative: bool, b: &BigUint) -> (r: (bool, BigUint))
    ensures
        signed_of(r.0, natural_value(r.1)) == signed_of(a_negative, natural_value(*a)) + signed_of(b_negative, natural_value(*b)),
{
    if a_negative == b_negative {
        (a_negative, big_add(a, b))
    } else if big_le(b, a) {
        (a_negative, big_sub(a, b))
    } else {
        (b_negative, big_sub(b, a))
    }
}

/// The error for weights that admit no draw.
pub open spec fn choose_failure(ws: Seq<CellModel>) -> ChooseError {
    if ws.len() == 0 {
        ChooseError::Empty
    } else if exists|i: int| 0 <= i < ws.len() && !is_weight(#[trigger] ws[i]) {
        ChooseError::InvalidWeight
    } else {
        ChooseError::ZeroSum
    }
}

/// Drawing an index with probability proportional to a list of weights.
pub trait ChooseRandomly: Sized {
    type Cache;

    /// The weights admit a draw.
    spec fn drawable_list(fractions: Seq<Self>) -> bool;

    /// The error for weights that admit no draw.
    spec fn failure(fractions: Seq<Self>) -> ChooseError;

    /// Some admissible draw selects index `i` by the cumulative normalised
    /// weights of `fractions`.
    spec fn drawn_from(fractions: Seq<Self>, i: nat) -> bool;

    spec fn cache_ready(cache: &Self::Cache) -> bool;

    spec fn cache_size(cache: &Self::Cache) -> nat;

    /// The cache holds the cumulative normalised weights of `fractions`.
    spec fn cache_of(cache: &Self::Cache, fractions: Seq<Self>) -> bool;

    /// Some admissible draw selects index `i` from the cache.
    spec fn drawn(cache: &Self::Cache, i: nat) -> bool;

    /// Returns a random index from 0 (inclusive) to the length of the list
    /// (exclusive), each with a likelihood proportional to its weight.
    fn choose_randomly(fractions: &Vec<Self>) -> (r: Result<usize, ChooseError>)
        ensures
            r.is_ok() <==> Self::drawable_list(fractions@),
            r.is_err() ==> r == Err::<usize, ChooseError>(Self::failure(fractions@)),
            r.is_ok() ==> r.unwrap() < fractions@.len() && Self::drawn_from(fractions@, r.unwrap() as nat),
    ;

    /// Precomputes what repeated draws from the same weights share.
    fn choose_randomly_create_cache(fractions: &Vec<Self>) -> (r: Result<Self::Cache, ChooseError>)
        ensures
            r.is_ok() <==> Self::drawable_list(fractions@),
            r.is_err() ==> r == Err::<Self::Cache, ChooseError>(Self::failure(fractions@)),
            r.is_ok() ==> Self::cache_ready(&r.unwrap()) && Self::cache_of(&r.unwrap(), fractions@),
    ;

    /// Draws an index with the weights that the cache was made from.
    fn choose_randomly_cached(cache: &Self::Cache) -> (r: usize)
        requires
            Self::cache_ready(cache),
        ensures
            r < Self::cache_size(cache),
            Self::drawn(cache, r as nat),
    ;
}

impl ChooseRandomly for FractionRaw<BigUint> {
    type Cache = FractionRandomCache;

    open spec fn drawable_list(fractions: Seq<Self>) -> bool {
        drawable(weight_models(fractions))
    }

    open spec fn failure(fractions: Seq<Self>) -> ChooseError {
        choose_failure(weight_models(fractions))
    }

    /// A draw `k / D` with `0 < k <= D`, for the highest denominator `D` of the
    /// normalised weights, selects `i`.
    open spec fn drawn_from(fractions: Seq<Self>, i: nat) -> bool {
        let ws = weight_models(fractions);
        drawn_with(cumulative_list(ws), highest_denominator(ws, weight_sum(ws, ws.len()), ws.len()), i)
    }

    open spec fn cache_ready(cache: &FractionRandomCache) -> bool {
        cache.wf()
    }

    open spec fn cache_size(cache: &FractionRandomCache) -> nat {
        cache.cumulative_numerators@.len()
    }

    open spec fn cache_of(cache: &FractionRandomCache, fractions: Seq<Self>) -> bool {
        cache.built_from(weight_models(fractions))
    }

    /// A draw `k / D` with `0 < k <= D`, for the highest denominator `D`, selects `i`.
    open spec fn drawn(cache: &FractionRandomCache, i: nat) -> bool {
        drawn_with(cache.cumulative_model(), natural_value(cache.highest_denominator), i)
    }

    fn choose_randomly(weights: &Vec<Self>) -> (r: Result<usize, ChooseError>) {
        let cache = Self::choose_randomly_create_cache(weights)?;
        Ok(choose_from_cache(&cache))
    }

    fn choose_randomly_create_cache(weights: &Vec<Self>) -> (r: Result<FractionRandomCache, ChooseError>) {
        create_cache(weights)
    }

    fn choose_randomly_cached(cache: &FractionRandomCache) -> (r: usize) {
        choose_from_cache(cache)
    }
}

/// Validates the weights, normalises them by their sum and precomputes their
/// cumulative sums, for repeated draws.
fn create_cache(weights: &Vec<FractionRaw<BigUint>>) -> (r: Result<FractionRandomCache, ChooseError>)
    ensures
        r.is_ok() <==> drawable(weight_models(weights@)),
        r.is_err() ==> r == Err::<FractionRandomCache, ChooseError>(choose_failure(weight_models(weights@))),
        r.is_ok() ==> r.unwrap().wf() && r.unwrap().built_from(weight_models(weights@)),
{
    let ghost ws = weight_models(weights@);
    let len = weights.len();
    if len == 0 {
        return Err(ChooseError::Empty);
    }
    let zero = big_from_u64(0);
    let mut sum_negative = false;
    let mut sum_n = big_from_u64(0);
    let mut sum_d = big_from_u64(1);
    let mut i: usize = 0;
    while i < len
        invariant
            len == weights@.len() == ws.len(),
            ws == weight_models(weights@),
            natural_value(zero) == 0,
            i <= len,
            forall|j: int| 0 <= j < i ==> is_weight(#[trigger] ws[j]),
            (signed_of(sum_negative, natural_value(sum_n)), natural_value(sum_d)) == weight_sum(ws, i as nat),
        decreases len - i,
    {
        let w = &weights[i];
        assert(ws[i as int] == w.model());
        if !w.0.is_plusminus() || big_eq(&w.2, &zero) {
            return Err(ChooseError::InvalidWeight);
        }
        let a = big_mul(&sum_n, &w.2);
        let b = big_mul(&w.1, &sum_d);
        proof {
            lemma_signed_scale(sum_negative, natural_value(sum_n), natural_value(w.2));
            lemma_signed_scale(w.0 == Type::Minus, natural_value(w.1), natural_value(sum_d));
        }
        let (negative, total) = signed_add(sum_negative, &a, w.0 == Type::Minus, &b);
        sum_negative = negative;
        sum_n = total;
        sum_d = big_mul(&sum_d, &w.2);
        i = i + 1;
    }
    let ghost sum = weight_sum(ws, len as nat);
    if big_eq(&sum_n, &zero) {
        return Err(ChooseError::ZeroSum);
    }
    proof {
        lemma_sum_denominator_positive(ws, len as nat);
    }
    assert(abs(sum.0) == natural_value(sum_n));
    assert((sum.0 < 0) == sum_negative);
    let mut cumulative_negative: Vec<bool> = Vec::new();
    let mut cumulative_numerators: Vec<BigUint> = Vec::new();
    let mut cumulative_denominators: Vec<BigUint> = Vec::new();
    let mut highest = big_from_u64(0);
    let mut cum_negative = false;
    let mut cum_n = big_from_u64(0);
    let mut cum_d = big_from_u64(1);
    let mut sorted = true;
    let mut k: usize = 0;
    while k < len
        invariant
            len == weights@.len() == ws.len(),
            len > 0,
            ws == weight_models(weights@),
            forall|j: int| 0 <= j < len ==> is_weight(#[trigger] ws[j]),
            sum == weight_sum(ws, len as nat),
            abs(sum.0) == natural_value(sum_n),
            (sum.0 < 0) == sum_negative,
            natural_value(sum_d) == sum.1,
            natural_value(sum_n) > 0,
            natural_value(zero) == 0,
            sum.1 > 0,
            k <= len,
            cumulative_negative@.len() == k,
            cumulative_numerators@.len() == k,
            cumulative_denominators@.len() == k,
            forall|j: int| 0 <= j < k ==> (signed_of(#[trigger] cumulative_negative@[j], natural_value(cumulative_numerators@[j])), natural_value(cumulative_denominators@[j])) == cumulative(ws, sum, (j + 1) as nat),
            (signed_of(cum_negative, natural_value(cum_n)), natural_value(cum_d)) == cumulative(ws, sum, k as nat),
            natural_value(highest) == highest_denominator(ws, sum, k as nat),
            k > 0 ==> natural_value(highest) > 0,
            natural_value(cum_d) > 0,
            positive_denominators(Seq::new(k as nat, |j: int| (signed_of(cumulative_negative@[j], natural_value(cumulative_numerators@[j])), natural_value(cumulative_denominators@[j])))),
            sorted ==> sorted_fractions(Seq::new(k as nat, |j: int| (signed_of(cumulative_negative@[j], natural_value(cumulative_numerators@[j])), natural_value(cumulative_denominators@[j])))),
        decreases len - k,
    {
        let w = &weights[k];
        assert(ws[k as int] == w.model());
        let negative = (w.0 == Type::Minus) != sum_negative;
        let n = big_mul(&w.1, &sum_d);
        let d = big_mul(&w.2, &sum_n);
        let g = big_gcd(&n, &d);
        proof {
            lemma_positive_product(ws[k as int].2, natural_value(sum_n));
            lemma_gcd_divides(natural_value(n), natural_value(d));
            let gg = natural_value(g);
            let dd = natural_value(d);
            assert(dd / gg > 0) by (nonlinear_arith)
                requires
                    dd == gg * (dd / gg),
                    dd > 0,
                    gg > 0,
            ;
        }
        let p = big_div(&n, &g);
        let q = big_div(&d, &g);
        let ghost wn = (signed_of(negative, natural_value(p)), natural_value(q));
        assert(wn == normalised_weight(ws[k as int], sum));
        if !big_le(&q, &highest) {
            highest = big_clone(&q);
        }
        let ghost prev = (signed_of(cum_negative, natural_value(cum_n)), natural_value(cum_d));
        let ghost old_seq = Seq::new(k as nat, |j: int| (signed_of(cumulative_negative@[j], natural_value(cumulative_numerators@[j])), natural_value(cumulative_denominators@[j])));
        let ghost was_sorted = sorted;
        if negative && !big_eq(&p, &zero) {
            sorted = false;
        }
        proof {
            if sorted {
                lemma_add_pair_grows(prev, wn);
            }
            lemma_signed_scale(cum_negative, natural_value(cum_n), natural_value(q));
            lemma_signed_scale(negative, natural_value(p), natural_value(cum_d));
            lemma_positive_product(natural_value(cum_d), natural_value(q));
        }
        let a = big_mul(&cum_n, &q);
        let b = big_mul(&p, &cum_d);
        let (cn, cm) = signed_add(cum_negative, &a, negative, &b);
        cum_negative = cn;
        cum_n = cm;
        cum_d = big_mul(&cum_d, &q);
        cumulative_negative.push(cum_negative);
        cumulative_numerators.push(big_clone(&cum_n));
        cumulative_denominators.push(big_clone(&cum_d));
        proof {
            let new_seq = Seq::new((k + 1) as nat, |j: int| (signed_of(cumulative_negative@[j], natural_value(cumulative_numerators@[j])), natural_value(cumulative_denominators@[j])));
            let cur = (signed_of(cum_negative, natural_value(cum_n)), natural_value(cum_d));
            assert(new_seq[k as int] == cur);
            assert forall|j: int| 0 <= j < k implies #[trigger] new_seq[j] == old_seq[j] by {}
            if k > 0 {
                assert(old_seq[k - 1] == prev);
            }
            if sorted {
                assert forall|i: int, j: int| 0 <= i < j < k + 1 implies pair_le(#[trigger] new_seq[i], #[trigger] new_seq[j]) by {
                    if j == k {
                        if i < k - 1 {
                            assert(pair_le(old_seq[i], old_seq[k - 1]));
                            lemma_pair_le_transitive(old_seq[i], prev, cur);
                        } else {
                            assert(new_seq[i] == prev);
                        }
                    } else {
                        assert(new_seq[i] == old_seq[i] && new_seq[j] == old_seq[j]);
                    }
                }
            }
            assert forall|i: int| 0 <= i < k + 1 implies (#[trigger] new_seq[i]).1 > 0 by {
                if i < k {
                    assert(new_seq[i] == old_seq[i]);
                }
            }
        }
        k = k + 1;
    }
    let cache = FractionRandomCache {
        cumulative_negative,
        cumulative_numerators,
        cumulative_denominators,
        highest_denominator: highest,
        sorted,
    };
    proof {
        assert(cache.cumulative_model() =~= Seq::new(len as nat, |j: int| (signed_of(cache.cumulative_negative@[j], natural_value(cache.cumulative_numerators@[j])), natural_value(cache.cumulative_denominators@[j]))));
        assert forall|j: int| 0 <= j < len implies #[trigger] cache.cumulative_model()[j] == cumulative_list(ws)[j] by {
            assert((signed_of(cache.cumulative_negative@[j], natural_value(cache.cumulative_numerators@[j])), natural_value(cache.cumulative_denominators@[j])) == cumulative(ws, sum, (j + 1) as nat));
        }
        assert(cache.cumulative_model() =~= cumulative_list(ws));
    }
    Ok(cache)
}

/// Whether the draw is at most the cumulative value at `j`.
fn draw_at_most(cache: &FractionRandomCache, j: usize, draw_numerator: &BigUint, draw_denominator: &BigUint) -> (r: bool)
    requires
        cache.wf(),
        j < cache.cumulative_numerators@.len(),
    ensures
        r == pair_le((natural_value(*draw_numerator) as int, natural_value(*draw_denominator)), cache.cumulative_model()[j as int]),
{
    let ghost c = cache.cumulative_model()[j as int];
    let a = big_mul(draw_numerator, &cache.cumulative_denominators[j]);
    let b = big_mul(&cache.cumulative_numerators[j], draw_denominator);
    if cache.cumulative_negative[j] {
        let zero = big_from_u64(0);
        proof {
            lemma_signed_scale(true, natural_value(cache.cumulative_numerators@[j as int]), natural_value(*draw_denominator));
        }
        big_eq(&a, &zero) && big_eq(&b, &zero)
    } else {
        big_le(&a, &b)
    }
}

/// The index that a draw of `draw_numerator / draw_denominator` selects: the
/// first whose cumulative value is at least the draw, or the last one; by
/// binary search when the cumulative values never decrease, by a scan
/// otherwise.
pub fn select_index(cache: &FractionRandomCache, draw_numerator: &BigUint, draw_denominator: &BigUint) -> (r: usize)
    requires
        cache.wf(),
    ensures
        selects(cache.cumulative_model(), (natural_value(*draw_numerator) as int, natural_value(*draw_denominator)), r as nat),
{
    let ghost cum = cache.cumulative_model();
    let ghost draw = (natural_value(*draw_numerator) as int, natural_value(*draw_denominator));
    let len = cache.cumulative_numerators.len();
    if !cache.sorted {
        let mut i: usize = 0;
        while i + 1 < len
            invariant
                cache.wf(),
                cum == cache.cumulative_model(),
                draw == (natural_value(*draw_numerator) as int, natural_value(*draw_denominator)),
                len == cum.len(),
                i < len,
                forall|j: int| 0 <= j < i ==> !pair_le(draw, #[trigger] cum[j]),
            decreases len - i,
        {
            if draw_at_most(cache, i, draw_numerator, draw_denominator) {
                return i;
            }
            i = i + 1;
        }
        return i;
    }
    let mut low: usize = 0;
    let mut high: usize = len - 1;
    while low < high
        invariant
            cache.wf(),
            cache.sorted,
            cum == cache.cumulative_model(),
            draw == (natural_value(*draw_numerator) as int, natural_value(*draw_denominator)),
            len == cum.len(),
            low <= high < len,
            forall|j: int| 0 <= j < low ==> !pair_le(draw, #[trigger] cum[j]),
            high + 1 < len ==> pair_le(draw, cum[high as int]),
        decreases high - low,
    {
        let mid = low + (high - low) / 2;
        if draw_at_most(cache, mid, draw_numerator, draw_denominator) {
            high = mid;
        } else {
            proof {
                assert forall|j: int| 0 <= j < mid + 1 implies !pair_le(draw, #[trigger] cum[j]) by {
                    if j < mid && pair_le(draw, cum[j]) {
                        assert(pair_le(cum[j], cum[mid as int]));
                        lemma_pair_le_transitive(draw, cum[j], cum[mid as int]);
                    }
                }
            }
            low = mid + 1;
        }
    }
    low
}

/// Draws an index from the cache. With `D` the highest denominator, a value
/// `r` uniform in `[0, D)` gives the draw `(r + 1) / D`, uniform over the
/// multiples of `1 / D` in `(0, 1]`, which selects an index by `select_index`.
pub fn choose_from_cache(cache: &FractionRandomCache) -> (r: usize)
    requires
        cache.wf(),
    ensures
        r < cache.cumulative_numerators@.len(),
        drawn_with(cache.cumulative_model(), natural_value(cache.highest_denominator), r as nat),
{
    let below = big_random_below(&cache.highest_denominator);
    let draw = big_add(&below, &big_from_u64(1));
    let r = select_index(cache, &draw, &cache.highest_denominator);
    assert(selects(cache.cumulative_model(), (natural_value(draw) as int, natural_value(cache.highest_denominator)), r as nat));
    r
}

} // verus!
