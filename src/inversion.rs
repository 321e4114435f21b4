//! Matrix inversion: closed forms up to size two, Gauss-Jordan elimination on
//! the matrix augmented with the identity beyond.
use vstd::prelude::*;
use num_bigint::BigUint;
use crate::loose_fraction::{Type, CellModel};
use crate::fraction_raw::{FractionRaw, mul_model, sub_model, is_zero_model, recip_model};
use crate::number::{Zero, Recip};
use crate::gauss_jordan::{models, gauss_jordan_cells, has_reduced_form, normalise, gauss_jordan_flat, normalise_flat, lemma_index_parts};
use crate::matrix::{EbiMatrix, FractionMatrixExact, MatrixError, lemma_cell_index};
use crate::natural::big_from_u64;

verus! {

pub open spec fn neg_model(c: CellModel) -> CellModel {
    (c.0.spec_negate(), c.1, c.2)
}

/// The determinant `ad - bc` of a 2x2 matrix.
pub open spec fn det2(s: Seq<CellModel>) -> CellModel {
    sub_model(mul_model(s[0], s[3]), mul_model(s[1], s[2]))
}

/// The inverse of a 2x2 matrix by its determinant.
pub open spec fn invert2(s: Seq<CellModel>) -> Seq<CellModel> {
    let r = recip_model(det2(s));
    seq![mul_model(s[3], r), mul_model(s[1], neg_model(r)), mul_model(s[2], neg_model(r)), mul_model(s[0], r)]
}

/// The `n x n` matrix followed, on each row, by the same row of the identity.
pub open spec fn augment(s: Seq<CellModel>, n: nat) -> Seq<CellModel> {
    Seq::new(
        n * (2 * n),
        |x: int| {
            let r = x / (2 * n as int);
            let c = x % (2 * n as int);
            if c < n {
                s[r * n + c]
            } else if c - n == r {
                (Type::Plus, 1nat, 1nat)
            } else {
                (Type::Plus, 0nat, 1nat)
            }
        },
    )
}

/// The right half of an `n x 2n` matrix.
pub open spec fn drop_left(g: Seq<CellModel>, n: nat) -> Seq<CellModel> {
    Seq::new(n * n, |x: int| g[(x / (n as int)) * (2 * n) + n + x % (n as int)])
}

/// Whether the `n x n` matrix has an inverse by the route `invert` takes.
pub open spec fn invertible(s: Seq<CellModel>, n: nat) -> bool {
    if n == 0 {
        true
    } else if n == 1 {
        !is_zero_model(s[0])
    } else if n == 2 {
        !is_zero_model(det2(s))
    } else {
        has_reduced_form(gauss_jordan_cells(augment(s, n), n, 2 * n), n, 2 * n)
    }
}

/// The inverse of an invertible `n x n` matrix.
pub open spec fn inverse_cells(s: Seq<CellModel>, n: nat) -> Seq<CellModel> {
    if n == 0 {
        s
    } else if n == 1 {
        seq![recip_model(s[0])]
    } else if n == 2 {
        invert2(s)
    } else {
        drop_left(normalise(gauss_jordan_cells(augment(s, n), n, 2 * n), n, 2 * n), n)
    }
}

/// Inverting a matrix of size zero or one twice gives it back, when its cell
/// is a nonzero finite fraction with a nonzero denominator.
pub proof fn lemma_invert_twice_small(s: Seq<CellModel>, n: nat)
    requires
        n <= 1,
        s.len() == n * n,
        n == 1 ==> s[0].0.spec_is_plusminus() && s[0].1 > 0 && s[0].2 > 0,
    ensures
        invertible(s, n),
        invertible(inverse_cells(s, n), n),
        inverse_cells(inverse_cells(s, n), n) == s,
{
    if n == 1 {
        let once = inverse_cells(s, n);
        assert(once[0] == recip_model(s[0]));
        assert(inverse_cells(once, n) =~= s);
    }
}

fn augment_flat(values: &Vec<FractionRaw<BigUint>>, n: usize) -> (r: Vec<FractionRaw<BigUint>>)
    requires
        values@.len() == n * n,
        n * (2 * n) <= usize::MAX,
    ensures
        r@.len() == n * (2 * n),
        models(r@) == augment(models(values@), n as nat),
{
    proof {
        assert(2 * n <= n * (2 * n) || n == 0) by (nonlinear_arith);
        assert(n * n <= n * (2 * n)) by (nonlinear_arith);
    }
    let ghost s = models(values@);
    let ghost target = augment(s, n as nat);
    let w = 2 * n;
    let mut r: Vec<FractionRaw<BigUint>> = Vec::new();
    let mut row: usize = 0;
    while row < n
        invariant
            values@.len() == n * n,
            n * n <= n * w,
            s == models(values@),
            w == 2 * n,
            n * w <= usize::MAX,
            target == augment(s, n as nat),
            row <= n,
            r@.len() == row * w,
            forall|x: int| 0 <= x < r@.len() ==> #[trigger] models(r@)[x] == target[x],
        decreases n - row,
    {
        let mut col: usize = 0;
        while col < w
            invariant
                n * n <= n * w,
                values@.len() == n * n,
                s == models(values@),
                w == 2 * n,
                n * w <= usize::MAX,
                target == augment(s, n as nat),
                row < n,
                col <= w,
                r@.len() == row * w + col,
                forall|x: int| 0 <= x < r@.len() ==> #[trigger] models(r@)[x] == target[x],
            decreases w - col,
        {
            proof {
                lemma_cell_index(row as int, col as int, n as nat, w as nat);
                lemma_index_parts(row as int, col as int, w as int);
            }
            let cell = if col < n {
                proof {
                    lemma_cell_index(row as int, col as int, n as nat, n as nat);
                }
                values[row * n + col].duplicate()
            } else if col - n == row {
                FractionRaw(Type::Plus, big_from_u64(1), big_from_u64(1))
            } else {
                FractionRaw(Type::Plus, big_from_u64(0), big_from_u64(1))
            };
            let ghost before = r@;
            r.push(cell);
            proof {
                assert forall|x: int| 0 <= x < r@.len() implies #[trigger] models(r@)[x] == target[x] by {
                    if x < before.len() {
                        assert(r@[x] == before[x]);
                        assert(models(before)[x] == target[x]);
                    }
                }
            }
            col = col + 1;
        }
        assert((row + 1) * w == row * w + w) by (nonlinear_arith);
        row = row + 1;
    }
    assert(models(r@) =~= target);
    r
}

fn drop_left_flat(g: &Vec<FractionRaw<BigUint>>, n: usize) -> (r: Vec<FractionRaw<BigUint>>)
    requires
        g@.len() == n * (2 * n),
        n * (2 * n) <= usize::MAX,
    ensures
        models(r@) == drop_left(models(g@), n as nat),
{
    let ghost s = models(g@);
    let ghost target = drop_left(s, n as nat);
    proof {
        assert(2 * n <= n * (2 * n) || n == 0) by (nonlinear_arith);
    }
    let w = 2 * n;
    let mut r: Vec<FractionRaw<BigUint>> = Vec::new();
    let mut row: usize = 0;
    proof {
        assert(n * n <= n * (2 * n)) by (nonlinear_arith);
    }
    while row < n
        invariant
            g@.len() == n * w,
            s == models(g@),
            w == 2 * n,
            n * w <= usize::MAX,
            n * n <= n * w,
            target == drop_left(s, n as nat),
            row <= n,
            r@.len() == row * n,
            forall|x: int| 0 <= x < r@.len() ==> #[trigger] models(r@)[x] == target[x],
        decreases n - row,
    {
        let mut col: usize = 0;
        while col < n
            invariant
                g@.len() == n * w,
                s == models(g@),
                w == 2 * n,
                n * w <= usize::MAX,
                n * n <= n * w,
                target == drop_left(s, n as nat),
                row < n,
                col <= n,
                r@.len() == row * n + col,
                forall|x: int| 0 <= x < r@.len() ==> #[trigger] models(r@)[x] == target[x],
            decreases n - col,
        {
            proof {
                lemma_cell_index(row as int, col as int, n as nat, n as nat);
                lemma_index_parts(row as int, col as int, n as int);
                lemma_cell_index(row as int, (n + col) as int, n as nat, w as nat);
            }
            let cell = g[row * w + n + col].duplicate();
            let ghost before = r@;
            r.push(cell);
            proof {
                assert forall|x: int| 0 <= x < r@.len() implies #[trigger] models(r@)[x] == target[x] by {
                    if x < before.len() {
                        assert(r@[x] == before[x]);
                        assert(models(before)[x] == target[x]);
                    }
                }
            }
            col = col + 1;
        }
        assert((row + 1) * n == row * n + n) by (nonlinear_arith);
        row = row + 1;
    }
    assert(models(r@) =~= target);
    r
}

/// Matrix inversion.
pub trait Inversion: EbiMatrix {
    /// `self` is the inverse of `before`, computed as `inverse_cells` says.
    spec fn inverse_of(&self, before: Self) -> bool;

    /// The square matrix has an inverse by the route `invert` takes.
    spec fn invertible_matrix(&self) -> bool;

    /// The inverse of a square matrix: fails on a matrix that is not square,
    /// and on a singular one.
    fn invert(self) -> (r: Result<Self, MatrixError>)
        requires
            self.well_formed(),
            self.row_count() * (2 * self.row_count()) <= usize::MAX,
        ensures
            self.row_count() != self.column_count() ==> r == Err::<Self, MatrixError>(MatrixError::NotSquare),
            self.row_count() == self.column_count() ==> (r.is_ok() <==> self.invertible_matrix()),
            self.row_count() == self.column_count() && !self.invertible_matrix() ==> r == Err::<Self, MatrixError>(MatrixError::Singular),
            r.is_ok() ==> r.unwrap().well_formed() && r.unwrap().inverse_of(self),
    ;
}

impl Inversion for FractionMatrixExact {
    open spec fn inverse_of(&self, before: Self) -> bool {
        &&& self.rows() == before.rows()
        &&& self.cols() == before.cols()
        &&& self.cells() == inverse_cells(before.cells(), before.rows())
    }

    open spec fn invertible_matrix(&self) -> bool {
        invertible(self.cells(), self.rows())
    }

    fn invert(self) -> (r: Result<Self, MatrixError>) {
        let n = self.number_of_rows();
        if n != self.number_of_columns() {
            return Err(MatrixError::NotSquare);
        }
        let values = self.to_flat();
        match invert_flat(values, n) {
            Some(v) => {
                proof {
                    assert(inverse_cells(self.cells(), n as nat).len() == n * n) by {
                        if n == 1 {
                            assert(n * n == 1);
                        } else if n == 2 {
                            assert(n * n == 4);
                        }
                    }
                }
                Ok(FractionMatrixExact::from_flat(n, n, v))
            },
            None => Err(MatrixError::Singular),
        }
    }
}

/// Inverts an `n x n` matrix given row-major; `None` when it is singular.
pub fn invert_flat(values: Vec<FractionRaw<BigUint>>, n: usize) -> (r: Option<Vec<FractionRaw<BigUint>>>)
    requires
        values@.len() == n * n,
        n * (2 * n) <= usize::MAX,
    ensures
        r.is_some() <==> invertible(models(values@), n as nat),
        r.is_some() ==> models(r.unwrap()@) == inverse_cells(models(values@), n as nat),
{
    let ghost s = models(values@);
    if n == 0 {
        return Some(values);
    }
    if n == 1 {
        if values[0].is_zero() {
            return None;
        }
        let mut v = values;
        v[0].recip();
        assert(models(v@) =~= seq![recip_model(s[0])]);
        return Some(v);
    }
    if n == 2 {
        let mut det = values[0].duplicate();
        det.mul_assign(&values[3]);
        let mut det2 = values[1].duplicate();
        det2.mul_assign(&values[2]);
        det.sub_assign(&det2);
        if det.is_zero() {
            return None;
        }
        det.recip();
        let mut minus = det.duplicate();
        minus.0 = minus.0.negate();
        let mut a = values[3].duplicate();
        a.mul_assign(&det);
        let mut b = values[1].duplicate();
        b.mul_assign(&minus);
        let mut c = values[2].duplicate();
        c.mul_assign(&minus);
        let mut d = values[0].duplicate();
        d.mul_assign(&det);
        let mut v: Vec<FractionRaw<BigUint>> = Vec::new();
        v.push(a);
        v.push(b);
        v.push(c);
        v.push(d);
        assert(models(v@) =~= invert2(s));
        return Some(v);
    }
    proof {
        assert(2 * n <= n * (2 * n)) by (nonlinear_arith)
            requires
                n >= 3,
        ;
    }
    let w = 2 * n;
    let mut augmented = augment_flat(&values, n);
    gauss_jordan_flat(&mut augmented, n, w);
    if !normalise_flat(&mut augmented, n, w) {
        return None;
    }
    Some(drop_left_flat(&augmented, n))
}

} // verus!
