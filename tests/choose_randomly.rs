use ebi_arithmetic::choose_randomly::{select_index, ChooseError, ChooseRandomly, FractionRandomCache};
use ebi_arithmetic::fraction_raw::FractionRaw;
use ebi_arithmetic::loose_fraction::Type;
use num_bigint::BigUint;

fn frac(n: u64, d: u64) -> FractionRaw<BigUint> {
    FractionRaw(Type::Plus, BigUint::from(n), BigUint::from(d))
}

fn same_value(n1: &BigUint, d1: &BigUint, n2: u64, d2: u64) -> bool {
    n1 * BigUint::from(d2) == BigUint::from(n2) * d1
}

fn cache_of(weights: &Vec<FractionRaw<BigUint>>) -> FractionRandomCache {
    FractionRaw::<BigUint>::choose_randomly_create_cache(weights).unwrap()
}

#[test]
fn cumulative_quarters() {
    let weights = vec![frac(1, 4), frac(1, 4), frac(1, 2)];
    let cache = cache_of(&weights);
    let expected = [(1, 4), (1, 2), (1, 1)];
    assert_eq!(cache.cumulative_numerators.len(), 3);
    for (i, (n, d)) in expected.iter().enumerate() {
        assert!(same_value(&cache.cumulative_numerators[i], &cache.cumulative_denominators[i], *n, *d));
    }
    assert_eq!(cache.highest_denominator, BigUint::from(4u64));
}

#[test]
fn draw_of_a_third_selects_the_middle() {
    let weights = vec![frac(1, 4), frac(1, 4), frac(1, 2)];
    let cache = cache_of(&weights);
    assert_eq!(select_index(&cache, &BigUint::from(1u64), &BigUint::from(3u64)), 1);
    // exact matches go to the index whose cumulative value they equal
    assert_eq!(select_index(&cache, &BigUint::from(1u64), &BigUint::from(4u64)), 0);
    assert_eq!(select_index(&cache, &BigUint::from(1u64), &BigUint::from(2u64)), 1);
    assert_eq!(select_index(&cache, &BigUint::from(0u64), &BigUint::from(1u64)), 0);
    assert_eq!(select_index(&cache, &BigUint::from(3u64), &BigUint::from(4u64)), 2);
}

#[test]
fn weights_are_normalised() {
    // 2 : 6 normalises to 1/4 and 3/4
    let weights = vec![frac(2, 1), frac(6, 1)];
    let cache = cache_of(&weights);
    assert!(same_value(&cache.cumulative_numerators[0], &cache.cumulative_denominators[0], 1, 4));
    assert!(same_value(&cache.cumulative_numerators[1], &cache.cumulative_denominators[1], 1, 1));
    assert_eq!(cache.highest_denominator, BigUint::from(4u64));
}

#[test]
fn draws_stay_in_range_and_follow_weights() {
    let weights = vec![frac(1, 4), frac(0, 1), frac(3, 4)];
    let mut counts = [0usize; 3];
    for _ in 0..4000 {
        let i = FractionRaw::<BigUint>::choose_randomly(&weights).unwrap();
        assert!(i < 3);
        counts[i] += 1;
    }
    assert_eq!(counts[1], 0);
    assert!(counts[0] > 700 && counts[0] < 1300, "{:?}", counts);
    assert!(counts[2] > 2700 && counts[2] < 3300, "{:?}", counts);
}

#[test]
fn cached_draws_stay_in_range() {
    let weights = vec![frac(1, 3), frac(1, 3), frac(1, 3)];
    let cache = cache_of(&weights);
    for _ in 0..200 {
        assert!(FractionRaw::<BigUint>::choose_randomly_cached(&cache) < 3);
    }
}

#[test]
fn single_weight_always_selected() {
    let weights = vec![frac(5, 7)];
    for _ in 0..20 {
        assert_eq!(FractionRaw::<BigUint>::choose_randomly(&weights), Ok(0));
    }
}

#[test]
fn choose_errors() {
    let empty: Vec<FractionRaw<BigUint>> = vec![];
    assert_eq!(FractionRaw::<BigUint>::choose_randomly(&empty), Err(ChooseError::Empty));
    let zeros = vec![frac(0, 1), frac(0, 3)];
    assert_eq!(FractionRaw::<BigUint>::choose_randomly(&zeros), Err(ChooseError::ZeroSum));
    let cancelling = vec![frac(1, 2), FractionRaw(Type::Minus, BigUint::from(1u64), BigUint::from(2u64))];
    assert_eq!(FractionRaw::<BigUint>::choose_randomly(&cancelling), Err(ChooseError::ZeroSum));
    let infinite = vec![FractionRaw(Type::Infinite, BigUint::from(0u64), BigUint::from(0u64))];
    assert_eq!(FractionRaw::<BigUint>::choose_randomly(&infinite), Err(ChooseError::InvalidWeight));
    let zero_denominator = vec![frac(1, 0)];
    assert_eq!(FractionRaw::<BigUint>::choose_randomly(&zero_denominator), Err(ChooseError::InvalidWeight));
}

fn minus(n: u64, d: u64) -> FractionRaw<BigUint> {
    FractionRaw(Type::Minus, BigUint::from(n), BigUint::from(d))
}

#[test]
fn negative_weight_is_accepted() {
    // [1, -1/2] sums to 1/2 and normalises to [2, -1]: cumulative [2, 1]
    let weights = vec![frac(1, 1), minus(1, 2)];
    let cache = cache_of(&weights);
    assert!(!cache.sorted);
    assert_eq!(cache.cumulative_negative, vec![false, false]);
    assert!(same_value(&cache.cumulative_numerators[0], &cache.cumulative_denominators[0], 2, 1));
    assert!(same_value(&cache.cumulative_numerators[1], &cache.cumulative_denominators[1], 1, 1));
    for _ in 0..20 {
        assert_eq!(FractionRaw::<BigUint>::choose_randomly(&weights), Ok(0));
    }
}

#[test]
fn negative_cumulative_values_are_skipped() {
    // [-1, 3] sums to 2 and normalises to [-1/2, 3/2]: cumulative [-1/2, 1]
    let weights = vec![minus(1, 1), frac(3, 1)];
    let cache = cache_of(&weights);
    assert_eq!(cache.cumulative_negative[0], true);
    assert_eq!(select_index(&cache, &BigUint::from(1u64), &BigUint::from(2u64)), 1);
    for _ in 0..20 {
        assert_eq!(FractionRaw::<BigUint>::choose_randomly(&weights), Ok(1));
    }
}

#[test]
fn all_negative_weights_normalise_to_positive() {
    let weights = vec![minus(1, 1), minus(1, 1)];
    let cache = cache_of(&weights);
    assert!(cache.sorted);
    assert!(same_value(&cache.cumulative_numerators[0], &cache.cumulative_denominators[0], 1, 2));
    assert_eq!(cache.highest_denominator, BigUint::from(2u64));
    assert_eq!(select_index(&cache, &BigUint::from(1u64), &BigUint::from(2u64)), 0);
    assert_eq!(select_index(&cache, &BigUint::from(2u64), &BigUint::from(2u64)), 1);
}
