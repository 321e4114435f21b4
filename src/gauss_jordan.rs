//! Gauss-Jordan elimination on a row-major list of loose fractions.
use vstd::prelude::*;
use vstd::arithmetic::div_mod::{lemma_fundamental_div_mod, lemma_fundamental_div_mod_converse};
use num_bigint::BigUint;
use crate::loose_fraction::{Type, CellModel};
use crate::fraction_raw::{FractionRaw, SetOne, mul_model, div_model, sub_model, is_zero_model};
use crate::number::Zero;
use crate::matrix::{EbiMatrix, FractionMatrixExact, MatrixError, lemma_cell_index, lemma_split_index, rows_model, rectangular, flatten, unflatten};

verus! {

/// Gaussian elimination on a matrix.
pub trait GaussJordan: EbiMatrix {
    /// `self` is `before` in row-echelon form.
    spec fn eliminated_from(&self, before: Self) -> bool;

    /// Elimination leaves a nonzero diagonal cell in every row.
    spec fn reducible(&self) -> bool;

    /// `self` is `before` in reduced row-echelon form.
    spec fn reduced_from(&self, before: Self) -> bool;

    /// Applies Gaussian elimination to obtain a matrix in row echelon form.
    fn gauss_jordan(&mut self)
        requires
            old(self).well_formed(),
        ensures
            final(self).well_formed(),
            final(self).eliminated_from(*old(self)),
    ;

    /// Applies Gaussian elimination to obtain a matrix in reduced row echelon
    /// form; fails when a diagonal cell is missing or zero.
    fn gauss_jordan_reduced(self) -> (r: Result<Self, MatrixError>)
        requires
            self.well_formed(),
        ensures
            r.is_ok() <==> self.reducible(),
            r.is_err() ==> r == Err::<Self, MatrixError>(MatrixError::Singular),
            r.is_ok() ==> r.unwrap().well_formed() && r.unwrap().reduced_from(self),
    ;
}

impl GaussJordan for FractionMatrixExact {
    open spec fn eliminated_from(&self, before: Self) -> bool {
        &&& self.rows() == before.rows()
        &&& self.cols() == before.cols()
        &&& self.cells() == gauss_jordan_cells(before.cells(), before.rows(), before.cols())
    }

    open spec fn reducible(&self) -> bool {
        has_reduced_form(gauss_jordan_cells(self.cells(), self.rows(), self.cols()), self.rows(), self.cols())
    }

    open spec fn reduced_from(&self, before: Self) -> bool {
        &&& self.rows() == before.rows()
        &&& self.cols() == before.cols()
        &&& self.cells() == normalise(
            gauss_jordan_cells(before.cells(), before.rows(), before.cols()),
            before.rows(),
            before.cols(),
        )
    }

    fn gauss_jordan(&mut self) {
        let rows = self.number_of_rows();
        let cols = self.number_of_columns();
        let mut values = self.to_flat();
        gauss_jordan_flat(&mut values, rows, cols);
        *self = FractionMatrixExact::from_flat(rows, cols, values);
    }

    fn gauss_jordan_reduced(self) -> (r: Result<Self, MatrixError>) {
        let rows = self.number_of_rows();
        let cols = self.number_of_columns();
        let mut values = self.to_flat();
        gauss_jordan_flat(&mut values, rows, cols);
        if !normalise_flat(&mut values, rows, cols) {
            return Err(MatrixError::Singular);
        }
        Ok(FractionMatrixExact::from_flat(rows, cols, values))
    }
}

/// Brings a list of rows, each `number_of_columns` long, to reduced row-echelon
/// form in place; fails when a diagonal cell is missing or zero, and then
/// leaves the rows in an unspecified state.
pub fn solve(number_of_columns: &mut usize, values: &mut Vec<Vec<FractionRaw<BigUint>>>) -> (r: Result<(), MatrixError>)
    requires
        rectangular(rows_model(old(values)@), *old(number_of_columns) as nat),
        old(values)@.len() * *old(number_of_columns) <= usize::MAX,
    ensures
        *final(number_of_columns) == *old(number_of_columns),
        ({
            let rows = old(values)@.len();
            let cols = *old(number_of_columns) as nat;
            let g = gauss_jordan_cells(flatten(rows_model(old(values)@), cols), rows, cols);
            &&& r.is_ok() <==> has_reduced_form(g, rows, cols)
            &&& r.is_err() ==> r == Err::<(), MatrixError>(MatrixError::Singular)
            &&& r.is_ok() ==> rows_model(final(values)@) == unflatten(normalise(g, rows, cols), rows, cols)
        }),
{
    let rows = values.len();
    let cols = *number_of_columns;
    if rows == 0 {
        proof {
            assert(unflatten(normalise(gauss_jordan_cells(flatten(rows_model(values@), cols as nat), 0, cols as nat), 0, cols as nat), 0, cols as nat) =~= rows_model(values@));
        }
        return Ok(());
    }
    let mut taken: Vec<Vec<FractionRaw<BigUint>>> = Vec::new();
    std::mem::swap(values, &mut taken);
    assert(rows_model(taken@)[0].len() == taken@[0]@.len());
    let m = match FractionMatrixExact::try_from(taken) {
        Ok(m) => m,
        Err(e) => return Err(e),
    };
    match m.gauss_jordan_reduced() {
        Ok(reduced) => {
            *values = reduced.to_vec();
            Ok(())
        },
        Err(e) => Err(e),
    }
}

/// The models of a list of fractions.
pub open spec fn models(v: Seq<FractionRaw<BigUint>>) -> Seq<CellModel> {
    v.map_values(|f: FractionRaw<BigUint>| f.model())
}

/// Row `t` with columns `c .. end` reduced by `factor` times row `p`.
pub open spec fn elim_upto(s: Seq<CellModel>, cols: nat, t: nat, p: nat, c: nat, end: nat, factor: CellModel) -> Seq<CellModel> {
    Seq::new(
        s.len(),
        |x: int|
            if x / (cols as int) == t && c <= x % (cols as int) < end {
                sub_model(s[x], mul_model(s[p * cols + x % (cols as int)], factor))
            } else {
                s[x]
            },
    )
}

/// Subtracts from row `t`, from column `c` on, the multiple of row `p` that
/// clears the cell at row `t`, column `c`.
pub open spec fn elim(s: Seq<CellModel>, cols: nat, t: nat, p: nat, c: nat) -> Seq<CellModel> {
    elim_upto(s, cols, t, p, c, cols, div_model(s[(t * cols + c) as int], s[(p * cols + c) as int]))
}

/// The forward pass for pivot `a`, over the rows `a + 1 ..= a + b`; a row whose
/// cell in column `a` is already zero is left alone.
pub open spec fn forward_targets(s: Seq<CellModel>, cols: nat, a: nat, b: nat) -> Seq<CellModel>
    decreases b,
{
    if b == 0 {
        s
    } else {
        let s1 = forward_targets(s, cols, a, (b - 1) as nat);
        let t = a + b;
        if is_zero_model(s1[(t * cols + a) as int]) {
            s1
        } else {
            elim(s1, cols, t, a, a)
        }
    }
}

/// The forward pass over the pivots `0 .. a`; a zero pivot is skipped.
pub open spec fn forward(s: Seq<CellModel>, rows: nat, cols: nat, a: nat) -> Seq<CellModel>
    decreases a,
{
    if a == 0 {
        s
    } else {
        let s1 = forward(s, rows, cols, (a - 1) as nat);
        let p = (a - 1) as nat;
        if is_zero_model(s1[(p * cols + p) as int]) {
            s1
        } else {
            forward_targets(s1, cols, p, (rows - 1 - p) as nat)
        }
    }
}

/// The backward pass for pivot `i`, over the rows `i - 1` down to `i - k`.
pub open spec fn backward_targets(s: Seq<CellModel>, cols: nat, i: nat, k: nat) -> Seq<CellModel>
    decreases k,
{
    if k == 0 {
        s
    } else {
        elim(backward_targets(s, cols, i, (k - 1) as nat), cols, (i - k) as nat, i, i)
    }
}

/// The backward pass over the pivots `d - 1` down to `d - c`; a zero pivot is skipped.
pub open spec fn backward(s: Seq<CellModel>, cols: nat, d: nat, c: nat) -> Seq<CellModel>
    decreases c,
{
    if c == 0 {
        s
    } else {
        let s1 = backward(s, cols, d, (c - 1) as nat);
        let i = (d - c) as nat;
        if is_zero_model(s1[(i * cols + i) as int]) {
            s1
        } else {
            backward_targets(s1, cols, i, i)
        }
    }
}

pub open spec fn diagonal_length(rows: nat, cols: nat) -> nat {
    if rows <= cols {
        rows
    } else {
        cols
    }
}

/// Row-echelon form by Gauss-Jordan elimination, diagonals not yet normalised.
pub open spec fn gauss_jordan_cells(s: Seq<CellModel>, rows: nat, cols: nat) -> Seq<CellModel> {
    let d = diagonal_length(rows, cols);
    backward(forward(s, rows, cols, d), cols, d, d)
}

/// Every row has a diagonal cell, and none of them is zero.
pub open spec fn has_reduced_form(g: Seq<CellModel>, rows: nat, cols: nat) -> bool {
    rows <= cols && forall|i: int| 0 <= i < rows ==> !is_zero_model(#[trigger] g[i * cols + i])
}

/// Each row divided by its diagonal cell: the diagonal becomes one, the columns
/// past the first `rows` are divided, and the other cells are kept.
pub open spec fn normalise(g: Seq<CellModel>, rows: nat, cols: nat) -> Seq<CellModel> {
    Seq::new(
        g.len(),
        |x: int| {
            let r = x / (cols as int);
            let c = x % (cols as int);
            if c == r {
                (Type::Plus, 1nat, 1nat)
            } else if c >= rows {
                div_model(g[x], g[r * cols + r])
            } else {
                g[x]
            }
        },
    )
}

pub proof fn lemma_index_parts(r: int, c: int, cols: int)
    requires
        0 <= r,
        0 <= c < cols,
    ensures
        (r * cols + c) / cols == r,
        (r * cols + c) % cols == c,
{
    lemma_fundamental_div_mod_converse(r * cols + c, cols, r, c);
}

/// One elimination step on the list.
fn eliminate(values: &mut Vec<FractionRaw<BigUint>>, rows: usize, cols: usize, target: usize, pivot: usize, column: usize)
    requires
        old(values)@.len() == rows * cols,
        rows * cols <= usize::MAX,
        target < rows,
        pivot < rows,
        target != pivot,
        column < cols,
    ensures
        final(values)@.len() == old(values)@.len(),
        models(final(values)@) == elim(models(old(values)@), cols as nat, target as nat, pivot as nat, column as nat),
{
    let ghost s = models(values@);
    proof {
        lemma_cell_index(target as int, column as int, rows as nat, cols as nat);
        lemma_cell_index(pivot as int, column as int, rows as nat, cols as nat);
    }
    let mut factor = values[target * cols + column].duplicate();
    factor.div_assign(&values[pivot * cols + column]);
    let ghost fm = factor.model();
    let mut col = column;
    while col < cols
        invariant
            values@.len() == rows * cols,
            s.len() == rows * cols,
            rows * cols <= usize::MAX,
            target < rows,
            pivot < rows,
            target != pivot,
            column <= col <= cols,
            fm == factor.model(),
            fm == div_model(s[target * cols + column], s[pivot * cols + column]),
            models(values@) == elim_upto(s, cols as nat, target as nat, pivot as nat, column as nat, col as nat, fm),
        decreases cols - col,
    {
        proof {
            lemma_cell_index(target as int, col as int, rows as nat, cols as nat);
            lemma_cell_index(pivot as int, col as int, rows as nat, cols as nat);
            lemma_index_parts(target as int, col as int, cols as int);
            lemma_index_parts(pivot as int, col as int, cols as int);
        }
        let ti = target * cols + col;
        let pi = pivot * cols + col;
        let ghost before = models(values@);
        assert(before[pi as int] == s[pi as int]);
        assert(before[ti as int] == s[ti as int]);
        let mut scaled = values[pi].duplicate();
        scaled.mul_assign(&factor);
        let ghost vec_before = values@;
        values[ti].sub_assign(&scaled);
        proof {
            assert(values@[ti as int].model() == sub_model(before[ti as int], mul_model(before[pi as int], fm)));
            assert(forall|x: int| 0 <= x < s.len() && x != ti ==> values@[x] == vec_before[x]);
            let next = elim_upto(s, cols as nat, target as nat, pivot as nat, column as nat, (col + 1) as nat, fm);
            assert forall|x: int| 0 <= x < s.len() implies #[trigger] models(values@)[x] == next[x] by {
                if x != ti {
                    assert(models(values@)[x] == before[x]);
                    lemma_fundamental_div_mod(x, cols as int);
                    if x / (cols as int) == target && x % (cols as int) == col {
                        assert(x == (cols as int) * target + col);
                        assert((cols as int) * target == target * cols) by (nonlinear_arith);
                    }
                }
            }
            assert(models(values@) =~= next);
        }
        col = col + 1;
    }
}

/// Applies Gaussian elimination, forward then backward, to obtain row-echelon
/// form without normalising the diagonal (see `gauss_jordan_cells`).
pub fn gauss_jordan_flat(values: &mut Vec<FractionRaw<BigUint>>, rows: usize, cols: usize)
    requires
        old(values)@.len() == rows * cols,
        rows * cols <= usize::MAX,
    ensures
        final(values)@.len() == old(values)@.len(),
        models(final(values)@) == gauss_jordan_cells(models(old(values)@), rows as nat, cols as nat),
{
    let ghost s0 = models(values@);
    let d: usize = if rows <= cols { rows } else { cols };
    let mut a: usize = 0;
    while a < d
        invariant
            values@.len() == rows * cols,
            rows * cols <= usize::MAX,
            d == diagonal_length(rows as nat, cols as nat),
            a <= d,
            models(values@) == forward(s0, rows as nat, cols as nat, a as nat),
        decreases d - a,
    {
        proof {
            lemma_cell_index(a as int, a as int, rows as nat, cols as nat);
        }
        if !values[a * cols + a].is_zero() {
            let ghost start = models(values@);
            let mut t = a + 1;
            while t < rows
                invariant
                    values@.len() == rows * cols,
                    rows * cols <= usize::MAX,
                    a < d,
                    d == diagonal_length(rows as nat, cols as nat),
                    a + 1 <= t <= rows,
                    models(values@) == forward_targets(start, cols as nat, a as nat, (t - a - 1) as nat),
                decreases rows - t,
            {
                proof {
                    lemma_cell_index(t as int, a as int, rows as nat, cols as nat);
                }
                if !values[t * cols + a].is_zero() {
                    eliminate(values, rows, cols, t, a, a);
                }
                assert((t + 1 - a - 1) as nat - 1 == (t - a - 1) as nat);
                t = t + 1;
            }
        }
        a = a + 1;
    }
    let ghost s1 = models(values@);
    let mut c: usize = 0;
    while c < d
        invariant
            values@.len() == rows * cols,
            rows * cols <= usize::MAX,
            d == diagonal_length(rows as nat, cols as nat),
            c <= d,
            s1 == forward(s0, rows as nat, cols as nat, d as nat),
            models(values@) == backward(s1, cols as nat, d as nat, c as nat),
        decreases d - c,
    {
        let i = d - 1 - c;
        proof {
            lemma_cell_index(i as int, i as int, rows as nat, cols as nat);
        }
        if !values[i * cols + i].is_zero() {
            let ghost start = models(values@);
            let mut k: usize = 0;
            while k < i
                invariant
                    values@.len() == rows * cols,
                    rows * cols <= usize::MAX,
                    i < d,
                    d == diagonal_length(rows as nat, cols as nat),
                    k <= i,
                    models(values@) == backward_targets(start, cols as nat, i as nat, k as nat),
                decreases i - k,
            {
                eliminate(values, rows, cols, i - 1 - k, i, i);
                k = k + 1;
            }
        }
        c = c + 1;
    }
}

/// Divides each row by its diagonal cell (see `normalise`); false, when a row
/// has no diagonal cell or a zero one.
pub fn normalise_flat(values: &mut Vec<FractionRaw<BigUint>>, rows: usize, cols: usize) -> (r: bool)
    requires
        old(values)@.len() == rows * cols,
        rows * cols <= usize::MAX,
    ensures
        final(values)@.len() == old(values)@.len(),
        r == has_reduced_form(models(old(values)@), rows as nat, cols as nat),
        r ==> models(final(values)@) == normalise(models(old(values)@), rows as nat, cols as nat),
{
    let ghost g = models(values@);
    let ghost target = normalise(g, rows as nat, cols as nat);
    if rows > cols {
        return false;
    }
    proof {
        assert forall|x: int| 0 <= x < g.len() implies #[trigger] models(values@)[x] == if x / (cols as int) < 0 { target[x] } else { g[x] } by {
            lemma_split_index(x, rows as nat, cols as nat);
        }
    }
    let mut i: usize = 0;
    while i < rows
        invariant
            g == models(old(values)@),
            values@.len() == rows * cols,
            g.len() == rows * cols,
            rows * cols <= usize::MAX,
            rows <= cols,
            i <= rows,
            target == normalise(g, rows as nat, cols as nat),
            forall|k: int| 0 <= k < i ==> !is_zero_model(#[trigger] g[k * cols + k]),
            forall|x: int| 0 <= x < g.len() ==> #[trigger] models(values@)[x] == if x / (cols as int) < i { target[x] } else { g[x] },
        decreases rows - i,
    {
        proof {
            lemma_cell_index(i as int, i as int, rows as nat, cols as nat);
            lemma_index_parts(i as int, i as int, cols as int);
        }
        let di = i * cols + i;
        assert(models(values@)[di as int] == g[di as int]);
        if values[di].is_zero() {
            assert(is_zero_model(g[(i as int) * (cols as int) + (i as int)]));
            return false;
        }
        let factor = values[di].duplicate();
        let mut j: usize = rows;
        while j < cols
            invariant
                values@.len() == rows * cols,
                g.len() == rows * cols,
                rows * cols <= usize::MAX,
                rows <= j <= cols,
                i < rows,
                di == i * cols + i,
                factor.model() == g[di as int],
                target == normalise(g, rows as nat, cols as nat),
                forall|x: int| 0 <= x < g.len() ==> #[trigger] models(values@)[x] == if x / (cols as int) < i {
                    target[x]
                } else if x / (cols as int) == i && rows <= x % (cols as int) < j {
                    div_model(g[x], g[di as int])
                } else {
                    g[x]
                },
            decreases cols - j,
        {
            proof {
                lemma_cell_index(i as int, j as int, rows as nat, cols as nat);
                lemma_index_parts(i as int, j as int, cols as int);
            }
            let idx = i * cols + j;
            let ghost vec_before = values@;
            assert(models(vec_before)[idx as int] == g[idx as int]);
            values[idx].div_assign(&factor);
            proof {
                assert(values@[idx as int].model() == div_model(g[idx as int], g[di as int]));
                assert(forall|x: int| 0 <= x < g.len() && x != idx ==> values@[x] == vec_before[x]);
                assert forall|x: int| 0 <= x < g.len() implies #[trigger] models(values@)[x] == if x / (cols as int) < i {
                    target[x]
                } else if x / (cols as int) == i && rows <= x % (cols as int) < j + 1 {
                    div_model(g[x], g[di as int])
                } else {
                    g[x]
                } by {
                    if x != idx {
                        assert(values@[x] == vec_before[x]);
                        assert(models(values@)[x] == models(vec_before)[x]);
                        lemma_fundamental_div_mod(x, cols as int);
                        if x / (cols as int) == i && x % (cols as int) == j {
                            assert((cols as int) * i == i * cols) by (nonlinear_arith);
                        }
                    }
                }
            }
            j = j + 1;
        }
        let ghost vec_before = values@;
        values[di].set_one();
        proof {
            assert(forall|x: int| 0 <= x < g.len() && x != di ==> values@[x] == vec_before[x]);
            assert forall|x: int| 0 <= x < g.len() implies #[trigger] models(values@)[x] == if x / (cols as int) < i + 1 {
                target[x]
            } else {
                g[x]
            } by {
                lemma_fundamental_div_mod(x, cols as int);
                if x != di {
                    assert(values@[x] == vec_before[x]);
                    assert(models(values@)[x] == models(vec_before)[x]);
                    if x / (cols as int) == i && x % (cols as int) == i {
                        assert((cols as int) * i == i * cols) by (nonlinear_arith);
                    }
                }
            }
        }
        i = i + 1;
    }
    proof {
        assert forall|x: int| 0 <= x < g.len() implies #[trigger] models(values@)[x] == target[x] by {
            lemma_split_index(x, rows as nat, cols as nat);
        }
        assert(models(values@) =~= target);
    }
    true
}

} // verus!
