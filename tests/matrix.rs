use ebi_arithmetic::fraction_raw::FractionRaw;
use ebi_arithmetic::gauss_jordan::{solve, GaussJordan};
use ebi_arithmetic::identity_minus::IdentityMinus;
use ebi_arithmetic::inversion::Inversion;
use ebi_arithmetic::loose_fraction::Type;
use ebi_arithmetic::matrix::{EbiMatrix, FractionMatrixExact, MatrixError};
use num_bigint::BigUint;

fn frac(n: i64, d: u64) -> FractionRaw<BigUint> {
    let t = if n < 0 { Type::Minus } else { Type::Plus };
    FractionRaw(t, BigUint::from(n.unsigned_abs()), BigUint::from(d))
}

fn whole(n: i64) -> FractionRaw<BigUint> {
    frac(n, 1)
}

fn big(sign: Type, digits: &str) -> FractionRaw<BigUint> {
    FractionRaw(sign, digits.parse().unwrap(), BigUint::from(1u64))
}

fn special(t: Type) -> FractionRaw<BigUint> {
    FractionRaw(t, BigUint::from(0u64), BigUint::from(0u64))
}

fn matrix(rows: Vec<Vec<FractionRaw<BigUint>>>) -> FractionMatrixExact {
    FractionMatrixExact::try_from(rows).unwrap()
}

/// The cells in canonical form, as (tag, numerator, denominator), with the sign
/// of a zero dropped.
fn canonical(m: FractionMatrixExact) -> Vec<Vec<(Type, BigUint, BigUint)>> {
    m.reduce()
        .to_vec()
        .into_iter()
        .map(|row| {
            row.into_iter()
                .map(|FractionRaw(t, n, d)| {
                    let t = if t == Type::Minus && n == BigUint::from(0u64) { Type::Plus } else { t };
                    (t, n, d)
                })
                .collect()
        })
        .collect()
}

fn models(m: FractionMatrixExact) -> Vec<Vec<(Type, BigUint, BigUint)>> {
    m.to_vec().into_iter().map(|row| row.into_iter().map(|FractionRaw(t, n, d)| (t, n, d)).collect()).collect()
}

fn expected(rows: Vec<Vec<FractionRaw<BigUint>>>) -> Vec<Vec<(Type, BigUint, BigUint)>> {
    canonical(matrix(rows))
}

#[test]
fn fraction_matrix_mul() {
    let m1 = matrix(vec![vec![whole(1), whole(2), whole(3)], vec![whole(4), whole(5), whole(6)]]);
    assert_eq!(m1.mul(&m1).err(), Some(MatrixError::DimensionMismatch));

    let m2 = matrix(vec![vec![whole(7), whole(8)], vec![whole(9), whole(10)], vec![whole(11), whole(12)]]);
    assert_eq!(m2.mul(&m2).err(), Some(MatrixError::DimensionMismatch));

    let prod = m1.mul(&m2).unwrap();
    assert_eq!(prod.number_of_columns(), 2);
    assert_eq!(prod.number_of_rows(), 2);
    assert_eq!(canonical(prod), expected(vec![vec![whole(58), whole(64)], vec![whole(139), whole(154)]]));
}

#[test]
fn fraction_matrix_mul_narrow() {
    let m1 = matrix(vec![vec![whole(1), whole(2), whole(3)], vec![whole(4), whole(5), whole(6)]]).reduce();
    let m2 = matrix(vec![vec![whole(7), whole(8)], vec![whole(9), whole(10)], vec![whole(11), whole(12)]]).reduce();
    assert!(m1.is_narrow_storage() && m2.is_narrow_storage());
    let prod = m1.mul(&m2).unwrap();
    assert!(prod.is_narrow_storage());
    assert_eq!(canonical(prod), expected(vec![vec![whole(58), whole(64)], vec![whole(139), whole(154)]]));
}

fn overflow_operands(first_negative: bool, second_max: bool) -> (FractionMatrixExact, FractionMatrixExact) {
    let sign = if first_negative { Type::Minus } else { Type::Plus };
    let max = FractionRaw(sign, BigUint::from(u64::MAX), BigUint::from(1u64));
    let m1 = matrix(vec![vec![max, whole(2), whole(3)], vec![whole(4), whole(5), whole(6)]]).reduce();
    let corner = if second_max { big(Type::Plus, &u64::MAX.to_string()) } else { whole(1) };
    let m2 = matrix(vec![vec![corner, whole(8)], vec![whole(9), whole(10)], vec![whole(11), whole(12)]]).reduce();
    assert!(m1.is_narrow_storage() && m2.is_narrow_storage());
    (m1, m2)
}

#[test]
fn fraction_matrix_mul_overflow_1() {
    let (m1, m2) = overflow_operands(false, true);
    let prod = m1.mul(&m2).unwrap();
    assert!(!prod.is_narrow_storage());
    assert_eq!(
        canonical(prod),
        expected(vec![
            vec![
                big(Type::Plus, "340282366920938463426481119284349108276"),
                big(Type::Plus, "147573952589676412976"),
            ],
            vec![big(Type::Plus, "73786976294838206571"), whole(154)],
        ])
    );
}

#[test]
fn fraction_matrix_mul_overflow_2() {
    let (m1, m2) = overflow_operands(false, false);
    let prod = m1.mul(&m2).unwrap();
    assert_eq!(
        canonical(prod),
        expected(vec![
            vec![big(Type::Plus, "18446744073709551666"), big(Type::Plus, "147573952589676412976")],
            vec![whole(115), whole(154)],
        ])
    );
}

#[test]
fn fraction_matrix_mul_overflow_3() {
    let (m1, m2) = overflow_operands(true, false);
    let prod = m1.mul(&m2).unwrap();
    assert_eq!(
        canonical(prod),
        expected(vec![
            vec![big(Type::Minus, "18446744073709551564"), big(Type::Minus, "147573952589676412864")],
            vec![whole(115), whole(154)],
        ])
    );
}

#[test]
fn fraction_matrix_mul_overflow_4() {
    let (m1, m2) = overflow_operands(true, true);
    let prod = m1.mul(&m2).unwrap();
    assert_eq!(
        canonical(prod),
        expected(vec![
            vec![
                big(Type::Minus, "340282366920938463426481119284349108174"),
                big(Type::Minus, "147573952589676412864"),
            ],
            vec![big(Type::Plus, "73786976294838206571"), whole(154)],
        ])
    );
}

#[test]
fn mul_overflow_matches_wide_product() {
    let (m1, m2) = overflow_operands(true, true);
    let narrow = m1.mul(&m2).unwrap();
    let (m1, m2) = overflow_operands(true, true);
    let wide = m1.promote().mul(&m2.promote()).unwrap();
    assert_eq!(models(narrow), models(wide));
}

#[test]
fn fraction_matrix_abnormal() {
    let m = matrix(vec![vec![special(Type::Infinite), special(Type::NegInfinite), frac(8, 3)]]);
    let r = canonical(m);
    assert_eq!(r[0][0].0, Type::Infinite);
    assert_eq!(r[0][1].0, Type::NegInfinite);
    assert_eq!(r[0][2], (Type::Plus, BigUint::from(8u64), BigUint::from(3u64)));
}

#[test]
fn fraction_matrix_empty() {
    let m = matrix(vec![vec![]]);
    assert_eq!(m.number_of_rows(), 1);
    assert_eq!(m.number_of_columns(), 0);
    let m = m.reduce();
    assert_eq!(m.to_vec().len(), 1);
}

#[test]
fn fraction_matrix_get() {
    let m = matrix(vec![vec![frac(1, 4), frac(2, 5), frac(8, 3)]]);
    assert!(m.get(10, 10).is_none());
    let FractionRaw(t, n, d) = m.get(0, 0).unwrap();
    assert_eq!((t, n, d), (Type::Plus, BigUint::from(1u64), BigUint::from(4u64)));
}

#[test]
fn fraction_matrix_incomplete() {
    let r = FractionMatrixExact::try_from(vec![vec![frac(1, 4), frac(2, 5)], vec![frac(8, 3)]]);
    assert_eq!(r.err(), Some(MatrixError::InconsistentRows));
}

#[test]
fn fraction_matrix_pop_front() {
    let mut m1 = matrix(vec![vec![frac(1, 4), frac(2, 5), frac(8, 3)]]);
    m1.pop_front_columns(1);
    assert_eq!(canonical(m1), expected(vec![vec![frac(2, 5), frac(8, 3)]]));
}

#[test]
fn fraction_matrix_push_columns() {
    let mut m1 = matrix(vec![vec![frac(1, 4), frac(2, 5), frac(8, 3)]]);
    m1.push_columns(1);
    assert_eq!(canonical(m1), expected(vec![vec![frac(1, 4), frac(2, 5), frac(8, 3), whole(0)]]));
}

#[test]
fn identity_minus_fraction_matrix_abnormal() {
    let mut m1 = matrix(vec![vec![frac(8, 3), frac(3, 8)]]);
    m1.identity_minus();
    assert_eq!(canonical(m1), expected(vec![vec![frac(-5, 3), frac(-3, 8)]]));
}

#[test]
fn identity_minus_square() {
    let mut m1 = matrix(vec![vec![frac(1, 2), whole(2)], vec![whole(-3), whole(-1)]]);
    m1.identity_minus();
    assert_eq!(canonical(m1), expected(vec![vec![frac(1, 2), whole(-2)], vec![whole(3), whole(2)]]));
}

#[test]
fn inverse_biguint() {
    let m = matrix(vec![
        vec![whole(1), whole(0), whole(0), whole(0)],
        vec![whole(0), whole(1), whole(0), frac(-3, 5)],
        vec![whole(0), frac(-3, 4), whole(1), whole(0)],
        vec![whole(0), whole(0), whole(0), whole(1)],
    ]);
    let i = m.invert().unwrap();
    assert_eq!(
        canonical(i),
        expected(vec![
            vec![whole(1), whole(0), whole(0), whole(0)],
            vec![whole(0), whole(1), whole(0), frac(3, 5)],
            vec![whole(0), frac(3, 4), whole(1), frac(9, 20)],
            vec![whole(0), whole(0), whole(0), whole(1)],
        ])
    );
}

#[test]
fn invert_twice_gives_back_the_matrix() {
    let rows = vec![
        vec![whole(2), whole(1), whole(0)],
        vec![whole(1), whole(3), whole(1)],
        vec![whole(0), whole(1), whole(4)],
    ];
    let twice = matrix(rows.clone()).invert().unwrap().invert().unwrap();
    assert_eq!(canonical(twice), expected(rows));
}

#[test]
fn invert_small_sizes() {
    let empty = matrix(vec![]);
    assert_eq!(empty.invert().unwrap().number_of_rows(), 0);

    let one = matrix(vec![vec![frac(-2, 3)]]).invert().unwrap();
    assert_eq!(canonical(one), expected(vec![vec![frac(-3, 2)]]));

    let two = matrix(vec![vec![whole(1), whole(2)], vec![whole(3), whole(4)]]).invert().unwrap();
    assert_eq!(canonical(two), expected(vec![vec![whole(-2), whole(1)], vec![frac(3, 2), frac(-1, 2)]]));
}

#[test]
fn invert_errors() {
    let not_square = matrix(vec![vec![whole(1), whole(2)]]);
    assert_eq!(not_square.invert().err(), Some(MatrixError::NotSquare));
    let singular_one = matrix(vec![vec![whole(0)]]);
    assert_eq!(singular_one.invert().err(), Some(MatrixError::Singular));
    let singular_two = matrix(vec![vec![whole(1), whole(2)], vec![whole(2), whole(4)]]);
    assert_eq!(singular_two.invert().err(), Some(MatrixError::Singular));
    let singular_three = matrix(vec![
        vec![whole(1), whole(2), whole(3)],
        vec![whole(4), whole(5), whole(6)],
        vec![whole(7), whole(8), whole(9)],
    ]);
    assert_eq!(singular_three.invert().err(), Some(MatrixError::Singular));
}

#[test]
fn gauss_jordan_reduced_zero_row_fails() {
    let m = matrix(vec![vec![whole(1), whole(2), whole(3)], vec![whole(0), whole(0), whole(0)], vec![whole(4), whole(5), whole(7)]]);
    assert_eq!(m.gauss_jordan_reduced().err(), Some(MatrixError::Singular));
}

#[test]
fn gauss_jordan_reduced_identical_rows_fails() {
    let m = matrix(vec![vec![whole(1), whole(2), whole(3)], vec![whole(1), whole(2), whole(3)], vec![whole(4), whole(5), whole(7)]]);
    assert_eq!(m.gauss_jordan_reduced().err(), Some(MatrixError::Singular));
}

#[test]
fn gauss_jordan_reduced_augmented() {
    let m = matrix(vec![vec![whole(2), whole(0), whole(4)], vec![whole(0), whole(4), whole(8)]]);
    let r = m.gauss_jordan_reduced().unwrap();
    assert_eq!(canonical(r), expected(vec![vec![whole(1), whole(0), whole(2)], vec![whole(0), whole(1), whole(2)]]));
}

#[test]
fn gauss_jordan_echelon() {
    let mut m = matrix(vec![vec![whole(2), whole(1)], vec![whole(4), whole(3)]]);
    m.gauss_jordan();
    assert_eq!(canonical(m), expected(vec![vec![whole(2), whole(0)], vec![whole(0), whole(1)]]));
}

#[test]
fn solve_rows() {
    let mut columns: usize = 3;
    let mut rows = vec![vec![whole(2), whole(0), whole(4)], vec![whole(0), whole(4), whole(8)]];
    solve(&mut columns, &mut rows).unwrap();
    assert_eq!(columns, 3);
    assert_eq!(canonical(matrix(rows)), expected(vec![vec![whole(1), whole(0), whole(2)], vec![whole(0), whole(1), whole(2)]]));

    let mut columns: usize = 2;
    let mut rows = vec![vec![whole(1), whole(1)], vec![whole(1), whole(1)]];
    assert_eq!(solve(&mut columns, &mut rows).err(), Some(MatrixError::Singular));
}

#[test]
fn reduce_is_idempotent() {
    let m = matrix(vec![vec![frac(6, 4), frac(0, 7), frac(5, 5)], vec![frac(-12, 18), special(Type::NaN), frac(1, 0)]]);
    let once = m.reduce();
    let once_cells = models(once);
    let m = matrix(vec![vec![frac(6, 4), frac(0, 7), frac(5, 5)], vec![frac(-12, 18), special(Type::NaN), frac(1, 0)]]);
    let twice = m.reduce().reduce();
    assert_eq!(once_cells, models(twice));
    assert_eq!(once_cells[0][0], (Type::Plus, BigUint::from(3u64), BigUint::from(2u64)));
    assert_eq!(once_cells[0][1], (Type::Plus, BigUint::from(0u64), BigUint::from(1u64)));
    assert_eq!(once_cells[0][2], (Type::Plus, BigUint::from(1u64), BigUint::from(1u64)));
    assert_eq!(once_cells[1][0], (Type::Minus, BigUint::from(2u64), BigUint::from(3u64)));
    assert_eq!(once_cells[1][2].0, Type::NaN);
}

#[test]
fn reduce_demotes_and_keeps_wide() {
    let small = matrix(vec![vec![frac(6, 4)]]);
    assert!(!small.is_narrow_storage());
    assert!(small.reduce().is_narrow_storage());
    let huge = matrix(vec![vec![big(Type::Plus, "36893488147419103232")]]);
    assert!(!huge.reduce().is_narrow_storage());
}

#[test]
fn to_vec_round_trip_with_special_cells() {
    let rows = || {
        vec![
            vec![special(Type::NaN), special(Type::Infinite), frac(3, 9)],
            vec![special(Type::NegInfinite), frac(-1, 2), big(Type::Plus, "123456789012345678901234567890")],
        ]
    };
    let m = matrix(rows());
    let back = m.to_vec();
    let again = models(matrix(back));
    let first = models(matrix(rows()));
    assert_eq!(again, first);
    assert_eq!(first[1][1], (Type::Minus, BigUint::from(1u64), BigUint::from(2u64)));
    assert_eq!(first[0][2], (Type::Plus, BigUint::from(3u64), BigUint::from(9u64)));
}

#[test]
fn matrix_edits() {
    let mut m = FractionMatrixExact::new(2, 2);
    assert!(m.is_narrow_storage());
    m.set(0, 1, frac(3, 4));
    m.set_one(1, 1);
    m.increase(0, 1, &frac(1, 4));
    m.decrease(1, 1, &frac(1, 2));
    m.set_zero(0, 0);
    assert!(m.is_narrow_storage());
    assert_eq!(canonical(m.clone()), expected(vec![vec![whole(0), whole(1)], vec![whole(0), frac(1, 2)]]));
    m.set(1, 0, big(Type::Minus, "36893488147419103232"));
    assert!(!m.is_narrow_storage());
    m.set_row_zero(1);
    assert_eq!(canonical(m), expected(vec![vec![whole(0), whole(1)], vec![whole(0), whole(0)]]));
}

#[test]
fn invert_twice_two_and_four() {
    let two = vec![vec![frac(1, 2), whole(3)], vec![frac(-2, 5), whole(7)]];
    let back = matrix(two.clone()).invert().unwrap().invert().unwrap();
    assert_eq!(canonical(back), expected(two));

    let four = vec![
        vec![whole(1), whole(0), whole(0), whole(0)],
        vec![whole(0), whole(1), whole(0), frac(-3, 5)],
        vec![whole(0), frac(-3, 4), whole(1), whole(0)],
        vec![whole(0), whole(0), whole(0), whole(1)],
    ];
    let back = matrix(four.clone()).invert().unwrap().invert().unwrap();
    assert_eq!(canonical(back), expected(four));
}
