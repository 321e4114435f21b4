//! The overflow-safe fraction matrix: a dense row-major matrix whose cells are
//! loose fractions, stored in `u64` (narrow) while they fit and in
//! arbitrary-precision naturals (wide) otherwise.
use vstd::prelude::*;
use vstd::arithmetic::div_mod::{lemma_fundamental_div_mod, lemma_fundamental_div_mod_converse};
use num_bigint::BigUint;
use crate::loose_fraction::{Type, CellModel, LooseFraction, add_mul_model, add_mul_fits, checked_add_assign_mul};
use crate::fraction_raw::{FractionRaw, sub_model, same_value_model};
use crate::natural::{natural_value, spec_gcd, big_from_u64, big_to_u64, big_clone, big_div, big_eq, big_gcd};
use crate::gcd::{gcd_u64, lemma_gcd_divides, lemma_gcd_coprime};

verus! {

/// What a matrix operation can fail on.
#[derive(Clone, Copy, Debug, PartialEq, Eq, Structural)]
pub enum MatrixError {
    /// The rows of the input do not all have the same length.
    InconsistentRows,
    /// The number of columns of the left operand differs from the number of rows of the right one.
    DimensionMismatch,
    /// Only a square matrix has an inverse.
    NotSquare,
    /// The matrix is singular: it has no inverse, or no reduced row-echelon form.
    Singular,
}

/// A matrix of loose fractions, stored row-major in three parallel arrays.
#[derive(Clone, Debug)]
pub enum FractionMatrixExact {
    Narrow {
        number_of_rows: usize,
        number_of_columns: usize,
        types: Vec<Type>,
        numerators: Vec<u64>,
        denominators: Vec<u64>,
    },
    Wide {
        number_of_rows: usize,
        number_of_columns: usize,
        types: Vec<Type>,
        numerators: Vec<BigUint>,
        denominators: Vec<BigUint>,
    },
}

/// The cells of a list of rows, row after row.
pub open spec fn flatten(v: Seq<Seq<CellModel>>, cols: nat) -> Seq<CellModel> {
    Seq::new(v.len() * cols, |x: int| v[x / (cols as int)][x % (cols as int)])
}

/// The rows of a row-major list of cells.
pub open spec fn unflatten(c: Seq<CellModel>, rows: nat, cols: nat) -> Seq<Seq<CellModel>> {
    Seq::new(rows, |i: int| Seq::new(cols, |j: int| c[i * cols + j]))
}

/// The models of a list of rows of fractions.
pub open spec fn rows_model(v: Seq<Vec<FractionRaw<BigUint>>>) -> Seq<Seq<CellModel>> {
    v.map_values(|row: Vec<FractionRaw<BigUint>>| row@.map_values(|f: FractionRaw<BigUint>| f.model()))
}

/// Every row has `cols` cells.
pub open spec fn rectangular(v: Seq<Seq<CellModel>>, cols: nat) -> bool {
    forall|i: int| 0 <= i < v.len() ==> #[trigger] v[i].len() == cols
}

/// Cutting a rectangular list of rows into cells and back gives the rows.
pub proof fn lemma_rows_round_trip(v: Seq<Seq<CellModel>>, cols: nat)
    requires
        rectangular(v, cols),
    ensures
        unflatten(flatten(v, cols), v.len(), cols) == v,
{
    let u = unflatten(flatten(v, cols), v.len(), cols);
    assert forall|i: int| 0 <= i < v.len() implies #[trigger] u[i] == v[i] by {
        assert forall|j: int| 0 <= j < cols implies #[trigger] u[i][j] == v[i][j] by {
            lemma_cell_index(i, j, v.len(), cols);
            lemma_fundamental_div_mod_converse(i * cols + j, cols as int, i, j);
        }
        assert(u[i] =~= v[i]);
    }
    assert(u =~= v);
}

/// The product does not depend on the storage width of the operands: operands
/// with the same cells, narrow or wide, have products with the same cells.
pub proof fn lemma_product_width_independent(
    a: FractionMatrixExact,
    b: FractionMatrixExact,
    wide_a: FractionMatrixExact,
    wide_b: FractionMatrixExact,
)
    requires
        a.wf(),
        b.wf(),
        wide_a.rows() == a.rows(),
        wide_a.cols() == a.cols(),
        wide_a.cells() == a.cells(),
        wide_b.rows() == b.rows(),
        wide_b.cols() == b.cols(),
        wide_b.cells() == b.cells(),
    ensures
        product(a.cells(), b.cells(), a.rows(), a.cols(), b.cols()) == product(
            wide_a.cells(),
            wide_b.cells(),
            wide_a.rows(),
            wide_a.cols(),
            wide_b.cols(),
        ),
{
}

/// Gathering cells into rows and back gives the cells.
pub proof fn lemma_cells_round_trip(c: Seq<CellModel>, rows: nat, cols: nat)
    requires
        c.len() == rows * cols,
    ensures
        flatten(unflatten(c, rows, cols), cols) == c,
{
    let f = flatten(unflatten(c, rows, cols), cols);
    assert forall|x: int| 0 <= x < c.len() implies #[trigger] f[x] == c[x] by {
        lemma_split_index(x, rows, cols);
    }
    assert(f =~= c);
}

pub proof fn lemma_cell_index(i: int, j: int, rows: nat, cols: nat)
    requires
        0 <= i < rows,
        0 <= j < cols,
    ensures
        0 <= i * cols + j < rows * cols,
{
    assert(i * cols + j < rows * cols) by (nonlinear_arith)
        requires
            0 <= i < rows,
            0 <= j < cols,
    ;
    assert(0 <= i * cols) by (nonlinear_arith)
        requires
            0 <= i,
    ;
}

pub proof fn lemma_split_index(x: int, rows: nat, cols: nat)
    requires
        0 <= x < rows * cols,
    ensures
        cols > 0,
        0 <= x / (cols as int) < rows,
        0 <= x % (cols as int) < cols,
        (x / (cols as int)) * cols + x % (cols as int) == x,
{
    if cols == 0 {
        assert(rows * cols == 0) by (nonlinear_arith)
            requires
                cols == 0,
        ;
    }
    lemma_fundamental_div_mod(x, cols as int);
    let q = x / (cols as int);
    assert(q >= 0) by (nonlinear_arith)
        requires
            x >= 0,
            cols > 0,
            q == x / (cols as int),
    ;
    assert(q < rows) by (nonlinear_arith)
        requires
            x < rows * cols,
            cols > 0,
            x == cols * q + x % (cols as int),
            x % (cols as int) >= 0,
    ;
    assert((x / (cols as int)) * cols == cols * (x / (cols as int))) by (nonlinear_arith);
}

/// A cell in canonical form: a finite fraction with denominator zero becomes
/// NaN, a finite fraction is divided by the greatest common divisor of its
/// numerator and denominator, and a special value stays as it is.
pub open spec fn reduce_cell(c: CellModel) -> CellModel {
    if c.0.spec_is_plusminus() {
        if c.2 == 0 {
            (Type::NaN, 0, 0)
        } else {
            (c.0, c.1 / spec_gcd(c.1, c.2), c.2 / spec_gcd(c.1, c.2))
        }
    } else {
        c
    }
}

/// Every numerator and denominator fits in a `u64`.
pub open spec fn fits_u64(cells: Seq<CellModel>) -> bool {
    forall|i: int| 0 <= i < cells.len() ==> #[trigger] cell_fits(cells[i])
}

/// The numerator and denominator of a cell fit in a `u64`.
pub open spec fn cell_fits(c: CellModel) -> bool {
    c.1 <= u64::MAX && c.2 <= u64::MAX
}

/// Reducing a reduced cell changes nothing.
pub proof fn lemma_reduce_cell_idempotent(c: CellModel)
    ensures
        reduce_cell(reduce_cell(c)) == reduce_cell(c),
{
    if c.0.spec_is_plusminus() && c.2 != 0 {
        lemma_gcd_coprime(c.1, c.2);
        let g = spec_gcd(c.1, c.2);
        lemma_gcd_divides(c.1, c.2);
        assert(c.2 / g > 0) by (nonlinear_arith)
            requires
                c.2 == g * (c.2 / g),
                c.2 > 0,
                g > 0,
        ;
        let x = c.1 / g;
        let y = c.2 / g;
        assert(x / 1 == x && y / 1 == y);
    }
}

/// Reducing a cell keeps its value, unless it is a finite fraction with
/// denominator zero, which becomes NaN.
pub proof fn lemma_reduce_cell_keeps_value(c: CellModel)
    requires
        !(c.0.spec_is_plusminus() && c.2 == 0),
    ensures
        same_value_model(reduce_cell(c), c),
{
    if c.0.spec_is_plusminus() {
        let g = spec_gcd(c.1, c.2);
        lemma_gcd_divides(c.1, c.2);
        let x = c.1 / g;
        let y = c.2 / g;
        assert(x * c.2 == c.1 * y) by (nonlinear_arith)
            requires
                c.1 == g * x,
                c.2 == g * y,
        ;
        if c.1 == 0 {
            assert(x == 0) by (nonlinear_arith)
                requires
                    c.1 == g * x,
                    c.1 == 0,
                    g > 0,
            ;
        }
    }
}

/// Reducing a matrix keeps the value of every cell but the finite ones with
/// denominator zero, which become NaN.
pub proof fn lemma_reduce_keeps_values(cells: Seq<CellModel>)
    ensures
        forall|i: int|
            0 <= i < cells.len() && !((#[trigger] cells[i]).0.spec_is_plusminus() && cells[i].2 == 0) ==> same_value_model(
                cells.map_values(|c: CellModel| reduce_cell(c))[i],
                cells[i],
            ),
{
    assert forall|i: int|
        0 <= i < cells.len() && !((#[trigger] cells[i]).0.spec_is_plusminus() && cells[i].2 == 0) implies same_value_model(
            cells.map_values(|c: CellModel| reduce_cell(c))[i],
            cells[i],
        ) by {
        lemma_reduce_cell_keeps_value(cells[i]);
    }
}

/// Reducing a whole matrix twice gives the same cells as reducing it once.
pub proof fn lemma_reduce_idempotent(cells: Seq<CellModel>)
    ensures
        cells.map_values(|c: CellModel| reduce_cell(c)).map_values(|c: CellModel| reduce_cell(c))
            == cells.map_values(|c: CellModel| reduce_cell(c)),
{
    let once = cells.map_values(|c: CellModel| reduce_cell(c));
    let twice = once.map_values(|c: CellModel| reduce_cell(c));
    assert forall|i: int| 0 <= i < cells.len() implies #[trigger] twice[i] == once[i] by {
        lemma_reduce_cell_idempotent(cells[i]);
    }
    assert(twice =~= once);
}

proof fn lemma_reduced_shortcuts(t: Type, n: nat, d: nat)
    requires
        t.spec_is_plusminus(),
        d > 0,
    ensures
        n == 0 ==> reduce_cell((t, n, d)) == (t, 0nat, 1nat),
        n == d ==> reduce_cell((t, n, d)) == (t, 1nat, 1nat),
        spec_gcd(n, d) > 0,
        n / spec_gcd(n, d) <= n,
        d / spec_gcd(n, d) <= d,
{
    let g = spec_gcd(n, d);
    lemma_gcd_divides(n, d);
    lemma_fundamental_div_mod_converse(d as int, d as int, 1, 0);
    lemma_fundamental_div_mod_converse(0, d as int, 0, 0);
    if n == 0 {
        assert(spec_gcd(0nat, d) == spec_gcd(d, 0nat % d));
        assert(g == d);
    }
    if n == d {
        assert(spec_gcd(n, n) == spec_gcd(n, n % n));
        assert(g == n);
    }
    assert(n / g <= n) by (nonlinear_arith)
        requires
            g > 0,
            n == g * (n / g),
    ;
    assert(d / g <= d) by (nonlinear_arith)
        requires
            g > 0,
            d == g * (d / g),
    ;
}

/// The canonical form of a narrow cell.
pub fn reduce_narrow_cell(t: Type, n: u64, d: u64) -> (r: (Type, u64, u64))
    ensures
        (r.0, r.1 as nat, r.2 as nat) == reduce_cell((t, n as nat, d as nat)),
{
    if !t.is_plusminus() {
        return (t, n, d);
    }
    if d == 0 {
        return (Type::NaN, 0, 0);
    }
    proof {
        lemma_reduced_shortcuts(t, n as nat, d as nat);
    }
    if n == 0 {
        return (t, 0, 1);
    }
    if n == d {
        return (t, 1, 1);
    }
    let g = gcd_u64(n, d);
    (t, n / g, d / g)
}

/// The canonical form of a wide cell.
pub fn reduce_wide_cell(t: Type, n: &BigUint, d: &BigUint) -> (r: (Type, BigUint, BigUint))
    ensures
        (r.0, natural_value(r.1), natural_value(r.2)) == reduce_cell((t, natural_value(*n), natural_value(*d))),
{
    let zero = big_from_u64(0);
    if !t.is_plusminus() {
        return (t, big_clone(n), big_clone(d));
    }
    if big_eq(d, &zero) {
        return (Type::NaN, big_from_u64(0), big_from_u64(0));
    }
    proof {
        lemma_reduced_shortcuts(t, natural_value(*n), natural_value(*d));
    }
    if big_eq(n, &zero) {
        return (t, big_from_u64(0), big_from_u64(1));
    }
    if big_eq(n, d) {
        return (t, big_from_u64(1), big_from_u64(1));
    }
    let g = big_gcd(n, d);
    (t, big_div(n, &g), big_div(d, &g))
}

/// A matrix with a shape.
pub trait EbiMatrix: Sized {
    /// The internal invariant of the representation.
    spec fn well_formed(&self) -> bool;

    spec fn row_count(&self) -> nat;

    spec fn column_count(&self) -> nat;

    fn number_of_rows(&self) -> (r: usize)
        ensures
            r == self.row_count(),
    ;

    fn number_of_columns(&self) -> (r: usize)
        ensures
            r == self.column_count(),
    ;
}

impl EbiMatrix for FractionMatrixExact {
    open spec fn well_formed(&self) -> bool {
        self.wf()
    }

    open spec fn row_count(&self) -> nat {
        self.rows()
    }

    open spec fn column_count(&self) -> nat {
        self.cols()
    }

    fn number_of_rows(&self) -> (r: usize) {
        match self {
            FractionMatrixExact::Narrow { number_of_rows, .. } => *number_of_rows,
            FractionMatrixExact::Wide { number_of_rows, .. } => *number_of_rows,
        }
    }

    fn number_of_columns(&self) -> (r: usize) {
        match self {
            FractionMatrixExact::Narrow { number_of_columns, .. } => *number_of_columns,
            FractionMatrixExact::Wide { number_of_columns, .. } => *number_of_columns,
        }
    }
}

/// The cells after adding `k` columns of zeros on the right.
pub open spec fn pushed_columns(s: Seq<CellModel>, rows: nat, cols: nat, k: nat) -> Seq<CellModel> {
    Seq::new(
        rows * (cols + k),
        |x: int| {
            let j = x % ((cols + k) as int);
            if j < cols {
                s[(x / ((cols + k) as int)) * cols + j]
            } else {
                (Type::Plus, 0nat, 1nat)
            }
        },
    )
}

/// The cells after removing the `k` leftmost columns.
pub open spec fn popped_front_columns(s: Seq<CellModel>, rows: nat, cols: nat, k: nat) -> Seq<CellModel> {
    Seq::new(
        rows * (cols - k) as nat,
        |x: int| s[(x / ((cols - k) as int)) * cols + k + x % ((cols - k) as int)],
    )
}

/// The cells held in narrow storage.
pub open spec fn narrow_cells(types: Seq<Type>, numerators: Seq<u64>, denominators: Seq<u64>) -> Seq<CellModel> {
    Seq::new(types.len(), |i: int| (types[i], numerators[i] as nat, denominators[i] as nat))
}

/// The cell at row `i` and column `j` of the product of an `n x m` matrix `a`
/// and an `m x p` matrix `b`, summed over the first `k` terms from zero.
pub open spec fn dot(a: Seq<CellModel>, b: Seq<CellModel>, m: nat, p: nat, i: int, j: int, k: nat) -> CellModel
    decreases k,
{
    if k == 0 {
        (Type::Plus, 0, 1)
    } else {
        add_mul_model(dot(a, b, m, p, i, j, (k - 1) as nat), a[i * m + k - 1], b[(k - 1) * p + j])
    }
}

/// The cells of the product of an `n x m` matrix `a` and an `m x p` matrix `b`.
pub open spec fn product(a: Seq<CellModel>, b: Seq<CellModel>, n: nat, m: nat, p: nat) -> Seq<CellModel> {
    Seq::new(n * p, |x: int| dot(a, b, m, p, x / (p as int), x % (p as int), m))
}

/// Every step of every cell of the product keeps its numbers within `u64`.
pub open spec fn product_fits(a: Seq<CellModel>, b: Seq<CellModel>, n: nat, m: nat, p: nat) -> bool {
    forall|x: int, k: int|
        0 <= x < n * p && 0 <= k < m ==> #[trigger] add_mul_fits(
            dot(a, b, m, p, x / (p as int), x % (p as int), k as nat),
            a[(x / (p as int)) * m + k],
            b[k * p + x % (p as int)],
        )
}

/// One cell of a product of narrow matrices, or `None` when a number along
/// the way does not fit in a `u64`.
fn narrow_dot(
    at: &Vec<Type>,
    an: &Vec<u64>,
    ad: &Vec<u64>,
    bt: &Vec<Type>,
    bn: &Vec<u64>,
    bd: &Vec<u64>,
    n: usize,
    m: usize,
    p: usize,
    i: usize,
    j: usize,
) -> (r: Option<(Type, u64, u64)>)
    requires
        at@.len() == an@.len() == ad@.len() == n * m,
        bt@.len() == bn@.len() == bd@.len() == m * p,
        n * m <= usize::MAX,
        m * p <= usize::MAX,
        i < n,
        j < p,
    ensures
        r.is_some() ==> {
            let c = r.unwrap();
            (c.0, c.1 as nat, c.2 as nat) == dot(narrow_cells(at@, an@, ad@), narrow_cells(bt@, bn@, bd@), m as nat, p as nat, i as int, j as int, m as nat)
        },
        r.is_none() ==> exists|k: int|
            0 <= k < m && !#[trigger] add_mul_fits(
                dot(narrow_cells(at@, an@, ad@), narrow_cells(bt@, bn@, bd@), m as nat, p as nat, i as int, j as int, k as nat),
                narrow_cells(at@, an@, ad@)[i * m + k],
                narrow_cells(bt@, bn@, bd@)[k * p + j],
            ),
{
    let ghost a = narrow_cells(at@, an@, ad@);
    let ghost b = narrow_cells(bt@, bn@, bd@);
    let mut t = Type::Plus;
    let mut num: u64 = 0;
    let mut den: u64 = 1;
    let mut k: usize = 0;
    while k < m
        invariant
            at@.len() == an@.len() == ad@.len() == n * m,
            bt@.len() == bn@.len() == bd@.len() == m * p,
            n * m <= usize::MAX,
            m * p <= usize::MAX,
            a == narrow_cells(at@, an@, ad@),
            b == narrow_cells(bt@, bn@, bd@),
            i < n,
            j < p,
            k <= m,
            (t, num as nat, den as nat) == dot(a, b, m as nat, p as nat, i as int, j as int, k as nat),
        decreases m - k,
    {
        proof {
            lemma_cell_index(i as int, k as int, n as nat, m as nat);
            lemma_cell_index(k as int, j as int, m as nat, p as nat);
        }
        let x = i * m + k;
        let y = k * p + j;
        if !checked_add_assign_mul(&mut t, &mut num, &mut den, at[x], &an[x], &ad[x], bt[y], &bn[y], &bd[y]) {
            proof {
                let kk = k as int;
                assert(narrow_cells(at@, an@, ad@)[i * m + kk] == (at@[x as int], an@[x as int] as nat, ad@[x as int] as nat));
                assert(narrow_cells(bt@, bn@, bd@)[kk * p + j] == (bt@[y as int], bn@[y as int] as nat, bd@[y as int] as nat));
                assert(0 <= kk < m && !add_mul_fits(
                    dot(narrow_cells(at@, an@, ad@), narrow_cells(bt@, bn@, bd@), m as nat, p as nat, i as int, j as int, kk as nat),
                    narrow_cells(at@, an@, ad@)[i * m + kk],
                    narrow_cells(bt@, bn@, bd@)[kk * p + j],
                ));
            }
            return None;
        }
        k = k + 1;
    }
    Some((t, num, den))
}

impl FractionMatrixExact {
    pub open spec fn rows(&self) -> nat {
        match self {
            FractionMatrixExact::Narrow { number_of_rows, .. } => *number_of_rows as nat,
            FractionMatrixExact::Wide { number_of_rows, .. } => *number_of_rows as nat,
        }
    }

    pub open spec fn cols(&self) -> nat {
        match self {
            FractionMatrixExact::Narrow { number_of_columns, .. } => *number_of_columns as nat,
            FractionMatrixExact::Wide { number_of_columns, .. } => *number_of_columns as nat,
        }
    }

    /// The cells, row-major, whatever the storage width.
    pub open spec fn cells(&self) -> Seq<CellModel> {
        match self {
            FractionMatrixExact::Narrow { types, numerators, denominators, .. } => narrow_cells(
                types@,
                numerators@,
                denominators@,
            ),
            FractionMatrixExact::Wide { types, numerators, denominators, .. } => Seq::new(
                types@.len(),
                |i: int| (types@[i], natural_value(numerators@[i]), natural_value(denominators@[i])),
            ),
        }
    }

    /// The three arrays have one entry per cell.
    pub open spec fn wf(&self) -> bool {
        match self {
            FractionMatrixExact::Narrow { number_of_rows, number_of_columns, types, numerators, denominators } => {
                &&& types@.len() == *number_of_rows as nat * *number_of_columns as nat
                &&& *number_of_rows as nat * *number_of_columns as nat <= usize::MAX
                &&& numerators@.len() == types@.len()
                &&& denominators@.len() == types@.len()
            },
            FractionMatrixExact::Wide { number_of_rows, number_of_columns, types, numerators, denominators } => {
                &&& types@.len() == *number_of_rows as nat * *number_of_columns as nat
                &&& *number_of_rows as nat * *number_of_columns as nat <= usize::MAX
                &&& numerators@.len() == types@.len()
                &&& denominators@.len() == types@.len()
            },
        }
    }

    pub open spec fn is_narrow(&self) -> bool {
        self is Narrow
    }

    /// The cell at a row and column.
    pub open spec fn cell(&self, row: int, column: int) -> CellModel {
        self.cells()[row * self.cols() + column]
    }

    /// The cell at a flat index, in wide form.
    pub fn wide_cell(&self, index: usize) -> (r: FractionRaw<BigUint>)
        requires
            self.wf(),
            index < self.cells().len(),
        ensures
            r.model() == self.cells()[index as int],
    {
        match self {
            FractionMatrixExact::Narrow { types, numerators, denominators, .. } => FractionRaw(
                types[index],
                big_from_u64(numerators[index]),
                big_from_u64(denominators[index]),
            ),
            FractionMatrixExact::Wide { types, numerators, denominators, .. } => FractionRaw(
                types[index],
                big_clone(&numerators[index]),
                big_clone(&denominators[index]),
            ),
        }
    }

    /// Obtains an element from the matrix; `None` outside of it.
    pub fn get(&self, row: usize, column: usize) -> (r: Option<FractionRaw<BigUint>>)
        requires
            self.wf(),
        ensures
            (row < self.rows() && column < self.cols()) <==> r.is_some(),
            r.is_some() ==> r.unwrap().model() == self.cell(row as int, column as int),
    {
        let rows = self.number_of_rows();
        let cols = self.number_of_columns();
        if row >= rows || column >= cols {
            return None;
        }
        proof {
            lemma_cell_index(row as int, column as int, rows as nat, cols as nat);
        }
        Some(self.wide_cell(row * cols + column))
    }

    /// Builds a wide matrix from a list of rows, which must all have the same length.
    pub fn try_from(value: Vec<Vec<FractionRaw<BigUint>>>) -> (r: Result<Self, MatrixError>)
        ensures
            r.is_ok() <==> (value.len() == 0 || rectangular(rows_model(value@), value[0]@.len())),
            r.is_err() ==> r == Err::<Self, MatrixError>(MatrixError::InconsistentRows),
            r.is_ok() ==> {
                let m = r.unwrap();
                let cols: nat = if value.len() == 0 { 0 } else { value[0]@.len() };
                &&& m.wf()
                &&& m.rows() == value.len()
                &&& m.cols() == cols
                &&& m.cells() == flatten(rows_model(value@), cols)
            },
    {
        let number_of_rows = value.len();
        let number_of_columns: usize = if number_of_rows == 0 { 0 } else { value[0].len() };
        let ghost v = rows_model(value@);
        let mut i: usize = 0;
        while i < number_of_rows
            invariant
                i <= number_of_rows == value.len(),
                v == rows_model(value@),
                number_of_columns == (if number_of_rows == 0 { 0 } else { value[0]@.len() }),
                forall|k: int| 0 <= k < i ==> #[trigger] v[k].len() == number_of_columns,
            decreases number_of_rows - i,
        {
            if value[i].len() != number_of_columns {
                assert(v[i as int].len() == value[i as int]@.len());
                return Err(MatrixError::InconsistentRows);
            }
            i = i + 1;
        }
        let ghost total = flatten(v, number_of_columns as nat);
        let mut types: Vec<Type> = Vec::new();
        let mut numerators: Vec<BigUint> = Vec::new();
        let mut denominators: Vec<BigUint> = Vec::new();
        let mut row: usize = 0;
        while row < number_of_rows
            invariant
                row <= number_of_rows == value.len(),
                v == rows_model(value@),
                rectangular(v, number_of_columns as nat),
                total == flatten(v, number_of_columns as nat),
                types@.len() == row * number_of_columns,
                numerators@.len() == types@.len(),
                denominators@.len() == types@.len(),
                forall|x: int| 0 <= x < types@.len() ==> (#[trigger] types@[x], natural_value(numerators@[x]), natural_value(denominators@[x])) == total[x],
            decreases number_of_rows - row,
        {
            let mut column: usize = 0;
            while column < number_of_columns
                invariant
                    row < number_of_rows == value.len(),
                    column <= number_of_columns,
                    v == rows_model(value@),
                    rectangular(v, number_of_columns as nat),
                    total == flatten(v, number_of_columns as nat),
                    types@.len() == row * number_of_columns + column,
                    numerators@.len() == types@.len(),
                    denominators@.len() == types@.len(),
                    forall|x: int| 0 <= x < types@.len() ==> (#[trigger] types@[x], natural_value(numerators@[x]), natural_value(denominators@[x])) == total[x],
                decreases number_of_columns - column,
            {
                assert(v[row as int].len() == number_of_columns);
                let f = &value[row][column];
                proof {
                    let x = row * number_of_columns + column;
                    lemma_cell_index(row as int, column as int, number_of_rows as nat, number_of_columns as nat);
                    lemma_fundamental_div_mod_converse(x, number_of_columns as int, row as int, column as int);
                    assert(v[row as int][column as int] == f.model());
                }
                types.push(f.0);
                numerators.push(big_clone(&f.1));
                denominators.push(big_clone(&f.2));
                column = column + 1;
            }
            proof {
                assert((row + 1) * number_of_columns == row * number_of_columns + number_of_columns) by (nonlinear_arith);
            }
            row = row + 1;
        }
        let cell_count = types.len();
        assert(cell_count == number_of_rows as nat * number_of_columns as nat);
        let m = FractionMatrixExact::Wide { number_of_rows, number_of_columns, types, numerators, denominators };
        assert(m.cells() =~= total);
        Ok(m)
    }

    /// One cell of the product `self * rhs`, computed in wide storage.
    fn wide_dot(&self, rhs: &Self, i: usize, j: usize) -> (r: FractionRaw<BigUint>)
        requires
            self.wf(),
            rhs.wf(),
            self.cols() == rhs.rows(),
            i < self.rows(),
            j < rhs.cols(),
        ensures
            r.model() == dot(self.cells(), rhs.cells(), self.cols(), rhs.cols(), i as int, j as int, self.cols()),
    {
        let n = self.number_of_rows();
        let m = self.number_of_columns();
        let p = rhs.number_of_columns();
        let mut t = Type::Plus;
        let mut num = big_from_u64(0);
        let mut den = big_from_u64(1);
        let mut k: usize = 0;
        while k < m
            invariant
                self.wf(),
                rhs.wf(),
                n == self.rows(),
                m == self.cols() == rhs.rows(),
                p == rhs.cols(),
                i < n,
                j < p,
                k <= m,
                (t, natural_value(num), natural_value(den)) == dot(self.cells(), rhs.cells(), m as nat, p as nat, i as int, j as int, k as nat),
            decreases m - k,
        {
            proof {
                lemma_cell_index(i as int, k as int, n as nat, m as nat);
                lemma_cell_index(k as int, j as int, m as nat, p as nat);
            }
            let x = self.wide_cell(i * m + k);
            let y = rhs.wide_cell(k * p + j);
            BigUint::add_assign_mul(&mut t, &mut num, &mut den, x.0, &x.1, &x.2, y.0, &y.1, &y.2);
            k = k + 1;
        }
        FractionRaw(t, num, den)
    }

    /// The product `self * rhs`. Two narrow matrices are multiplied in `u64`
    /// with every step checked; at the first cell that does not fit, the cells
    /// computed so far are carried over to wide storage and the rest are
    /// computed there. Any other pairing is computed in wide storage.
    pub fn mul(&self, rhs: &Self) -> (r: Result<Self, MatrixError>)
        requires
            self.wf(),
            rhs.wf(),
            self.rows() * rhs.cols() <= usize::MAX,
        ensures
            r.is_err() <==> self.cols() != rhs.rows(),
            r.is_err() ==> r == Err::<Self, MatrixError>(MatrixError::DimensionMismatch),
            r.is_ok() ==> {
                let m = r.unwrap();
                &&& m.wf()
                &&& m.rows() == self.rows()
                &&& m.cols() == rhs.cols()
                &&& m.cells() == product(self.cells(), rhs.cells(), self.rows(), self.cols(), rhs.cols())
                &&& !(self.is_narrow() && rhs.is_narrow()) ==> !m.is_narrow()
                &&& (self.is_narrow() && rhs.is_narrow() && product_fits(self.cells(), rhs.cells(), self.rows(), self.cols(), rhs.cols())) ==> m.is_narrow()
            },
    {
        if self.number_of_columns() != rhs.number_of_rows() {
            return Err(MatrixError::DimensionMismatch);
        }
        let n = self.number_of_rows();
        let m = self.number_of_columns();
        let p = rhs.number_of_columns();
        let total = n * p;
        let ghost target = product(self.cells(), rhs.cells(), n as nat, m as nat, p as nat);
        let mut types: Vec<Type> = Vec::new();
        let mut start: usize = 0;
        if let (
            FractionMatrixExact::Narrow { types: at, numerators: an, denominators: ad, .. },
            FractionMatrixExact::Narrow { types: bt, numerators: bn, denominators: bd, .. },
        ) = (self, rhs) {
            let mut numerators: Vec<u64> = Vec::new();
            let mut denominators: Vec<u64> = Vec::new();
            let mut overflow = false;
            while start < total
                invariant_except_break
                    !overflow,
                invariant
                    self.wf(),
                    rhs.wf(),
                    self.cells() == narrow_cells(at@, an@, ad@),
                    rhs.cells() == narrow_cells(bt@, bn@, bd@),
                    at@.len() == an@.len() == ad@.len() == n * m,
                    bt@.len() == bn@.len() == bd@.len() == m * p,
                    n * m <= usize::MAX,
                    m * p <= usize::MAX,
                    n == self.rows(),
                    m == self.cols() == rhs.rows(),
                    p == rhs.cols(),
                    total == n * p,
                    target == product(self.cells(), rhs.cells(), n as nat, m as nat, p as nat),
                    start <= total,
                    types@.len() == start,
                    numerators@.len() == start,
                    denominators@.len() == start,
                    forall|x: int| 0 <= x < start ==> (#[trigger] types@[x], numerators@[x] as nat, denominators@[x] as nat) == target[x],
                ensures
                    start <= total,
                    types@.len() == start,
                    numerators@.len() == start,
                    denominators@.len() == start,
                    forall|x: int| 0 <= x < start ==> (#[trigger] types@[x], numerators@[x] as nat, denominators@[x] as nat) == target[x],
                    !overflow ==> start == total,
                    overflow ==> !product_fits(self.cells(), rhs.cells(), n as nat, m as nat, p as nat),
                decreases total - start,
            {
                proof {
                    lemma_split_index(start as int, n as nat, p as nat);
                }
                match narrow_dot(at, an, ad, bt, bn, bd, n, m, p, start / p, start % p) {
                    Some((t, num, den)) => {
                        types.push(t);
                        numerators.push(num);
                        denominators.push(den);
                        start = start + 1;
                    },
                    None => {
                        proof {
                            let x = start as int;
                            let i = x / (p as int);
                            let j = x % (p as int);
                            assert(i == (start / p) as int && j == (start % p) as int);
                            let k = choose|k: int|
                                0 <= k < m && !#[trigger] add_mul_fits(
                                    dot(narrow_cells(at@, an@, ad@), narrow_cells(bt@, bn@, bd@), m as nat, p as nat, i, j, k as nat),
                                    narrow_cells(at@, an@, ad@)[i * m + k],
                                    narrow_cells(bt@, bn@, bd@)[k * p + j],
                                );
                            assert(!add_mul_fits(
                                dot(self.cells(), rhs.cells(), m as nat, p as nat, x / (p as int), x % (p as int), k as nat),
                                self.cells()[(x / (p as int)) * m + k],
                                rhs.cells()[k * p + x % (p as int)],
                            ));
                            assert(!product_fits(self.cells(), rhs.cells(), n as nat, m as nat, p as nat));
                        }
                        overflow = true;
                        break;
                    },
                }
            }
            if !overflow {
                let r = FractionMatrixExact::Narrow { number_of_rows: n, number_of_columns: p, types, numerators, denominators };
                assert(r.cells() =~= target);
                return Ok(r);
            }
            // salvage the cells computed so far into wide storage
            let mut wide_numerators: Vec<BigUint> = Vec::new();
            let mut wide_denominators: Vec<BigUint> = Vec::new();
            let mut x: usize = 0;
            while x < start
                invariant
                    start <= total,
                    types@.len() == start,
                    numerators@.len() == start,
                    denominators@.len() == start,
                    forall|y: int| 0 <= y < start ==> (#[trigger] types@[y], numerators@[y] as nat, denominators@[y] as nat) == target[y],
                    x <= start,
                    wide_numerators@.len() == x,
                    wide_denominators@.len() == x,
                    forall|y: int| 0 <= y < x ==> (types@[y], natural_value(#[trigger] wide_numerators@[y]), natural_value(wide_denominators@[y])) == target[y],
                decreases start - x,
            {
                assert((types@[x as int], numerators@[x as int] as nat, denominators@[x as int] as nat) == target[x as int]);
                wide_numerators.push(big_from_u64(numerators[x]));
                wide_denominators.push(big_from_u64(denominators[x]));
                x = x + 1;
            }
            return Ok(self.finish_wide(rhs, types, wide_numerators, wide_denominators));
        }
        Ok(self.finish_wide(rhs, types, Vec::new(), Vec::new()))
    }

    /// Completes a product in wide storage, given its first cells.
    fn finish_wide(&self, rhs: &Self, types: Vec<Type>, numerators: Vec<BigUint>, denominators: Vec<BigUint>) -> (r: Self)
        requires
            self.wf(),
            rhs.wf(),
            self.cols() == rhs.rows(),
            self.rows() * rhs.cols() <= usize::MAX,
            types@.len() <= self.rows() * rhs.cols(),
            numerators@.len() == types@.len(),
            denominators@.len() == types@.len(),
            forall|y: int| 0 <= y < types@.len() ==> (#[trigger] types@[y], natural_value(numerators@[y]), natural_value(denominators@[y]))
                == product(self.cells(), rhs.cells(), self.rows(), self.cols(), rhs.cols())[y],
        ensures
            r.wf(),
            !r.is_narrow(),
            r.rows() == self.rows(),
            r.cols() == rhs.cols(),
            r.cells() == product(self.cells(), rhs.cells(), self.rows(), self.cols(), rhs.cols()),
    {
        let n = self.number_of_rows();
        let m = self.number_of_columns();
        let p = rhs.number_of_columns();
        let total = n * p;
        let ghost target = product(self.cells(), rhs.cells(), n as nat, m as nat, p as nat);
        let mut types = types;
        let mut numerators = numerators;
        let mut denominators = denominators;
        let mut x = types.len();
        while x < total
            invariant
                self.wf(),
                rhs.wf(),
                n == self.rows(),
                m == self.cols() == rhs.rows(),
                p == rhs.cols(),
                total == n * p,
                target == product(self.cells(), rhs.cells(), n as nat, m as nat, p as nat),
                x <= total,
                types@.len() == x,
                numerators@.len() == x,
                denominators@.len() == x,
                forall|y: int| 0 <= y < x ==> (#[trigger] types@[y], natural_value(numerators@[y]), natural_value(denominators@[y])) == target[y],
            decreases total - x,
        {
            proof {
                lemma_split_index(x as int, n as nat, p as nat);
            }
            let c = self.wide_dot(rhs, x / p, x % p);
            types.push(c.0);
            numerators.push(c.1);
            denominators.push(c.2);
            x = x + 1;
        }
        let r = FractionMatrixExact::Wide { number_of_rows: n, number_of_columns: p, types, numerators, denominators };
        assert(r.cells() =~= target);
        r
    }

    /// Divides each cell's numerator and denominator by their greatest common
    /// divisor (see `reduce_cell`). The result is narrow exactly when all its
    /// numbers fit in a `u64`.
    pub fn reduce(self) -> (r: Self)
        requires
            self.wf(),
        ensures
            r.wf(),
            r.rows() == self.rows(),
            r.cols() == self.cols(),
            r.cells() == self.cells().map_values(|c: CellModel| reduce_cell(c)),
            r.is_narrow() <==> fits_u64(r.cells()),
    {
        let ghost before = self.cells();
        let ghost target = self.cells().map_values(|c: CellModel| reduce_cell(c));
        match self {
            FractionMatrixExact::Narrow { number_of_rows, number_of_columns, mut types, mut numerators, mut denominators } => {
                let len = types.len();
                let mut i: usize = 0;
                while i < len
                    invariant
                        len == types@.len() == numerators@.len() == denominators@.len() == before.len(),
                        target == before.map_values(|c: CellModel| reduce_cell(c)),
                        i <= len,
                        forall|j: int| 0 <= j < i ==> (#[trigger] types@[j], numerators@[j] as nat, denominators@[j] as nat) == target[j],
                        forall|j: int| i <= j < len ==> (#[trigger] types@[j], numerators@[j] as nat, denominators@[j] as nat) == before[j],
                    decreases len - i,
                {
                    let (t, n, d) = reduce_narrow_cell(types[i], numerators[i], denominators[i]);
                    types[i] = t;
                    numerators[i] = n;
                    denominators[i] = d;
                    i = i + 1;
                }
                let r = FractionMatrixExact::Narrow { number_of_rows, number_of_columns, types, numerators, denominators };
                assert(r.cells() =~= target);
                r
            },
            FractionMatrixExact::Wide { number_of_rows, number_of_columns, mut types, mut numerators, mut denominators } => {
                let len = types.len();
                let mut i: usize = 0;
                let mut fits = true;
                while i < len
                    invariant
                        len == types@.len() == numerators@.len() == denominators@.len() == before.len(),
                        target == before.map_values(|c: CellModel| reduce_cell(c)),
                        i <= len,
                        forall|j: int| 0 <= j < i ==> (#[trigger] types@[j], natural_value(numerators@[j]), natural_value(denominators@[j])) == target[j],
                        forall|j: int| i <= j < len ==> (#[trigger] types@[j], natural_value(numerators@[j]), natural_value(denominators@[j])) == before[j],
                        fits <==> (forall|j: int| 0 <= j < i ==> #[trigger] cell_fits(target[j])),
                    decreases len - i,
                {
                    let (t, n, d) = reduce_wide_cell(types[i], &numerators[i], &denominators[i]);
                    assert(before[i as int] == (types@[i as int], natural_value(numerators@[i as int]), natural_value(denominators@[i as int])));
                    assert(target[i as int] == (t, natural_value(n), natural_value(d)));
                    let ghost fits_before = fits;
                    if fits {
                        if big_to_u64(&n).is_none() || big_to_u64(&d).is_none() {
                            fits = false;
                        }
                    }
                    assert(fits ==> cell_fits(target[i as int]));
                    assert(fits_before && !fits ==> !cell_fits(target[i as int]));
                    assert(!fits_before ==> exists|j: int| 0 <= j < i && !#[trigger] cell_fits(target[j]));
                    types[i] = t;
                    numerators[i] = n;
                    denominators[i] = d;
                    i = i + 1;
                }
                if !fits {
                    let r = FractionMatrixExact::Wide { number_of_rows, number_of_columns, types, numerators, denominators };
                    assert(r.cells() =~= target);
                    return r;
                }
                let mut narrow_numerators: Vec<u64> = Vec::new();
                let mut narrow_denominators: Vec<u64> = Vec::new();
                let mut k: usize = 0;
                while k < len
                    invariant
                        len == types@.len() == numerators@.len() == denominators@.len() == before.len(),
                        k <= len,
                        forall|j: int| 0 <= j < len ==> (#[trigger] types@[j], natural_value(numerators@[j]), natural_value(denominators@[j])) == target[j],
                        forall|j: int| 0 <= j < len ==> #[trigger] cell_fits(target[j]),
                        narrow_numerators@.len() == k,
                        narrow_denominators@.len() == k,
                        forall|j: int| 0 <= j < k ==> (#[trigger] narrow_numerators@[j]) as nat == target[j].1 && narrow_denominators@[j] as nat == target[j].2,
                    decreases len - k,
                {
                    assert(cell_fits(target[k as int]));
                    assert((types@[k as int], natural_value(numerators@[k as int]), natural_value(denominators@[k as int])) == target[k as int]);
                    let n = match big_to_u64(&numerators[k]) {
                        Some(v) => v,
                        None => 0,
                    };
                    let d = match big_to_u64(&denominators[k]) {
                        Some(v) => v,
                        None => 0,
                    };
                    assert(n as nat == target[k as int].1 && d as nat == target[k as int].2);
                    let ghost old_numerators = narrow_numerators@;
                    let ghost old_denominators = narrow_denominators@;
                    narrow_numerators.push(n);
                    narrow_denominators.push(d);
                    assert forall|j: int| 0 <= j < k + 1 implies (#[trigger] narrow_numerators@[j]) as nat == target[j].1 && narrow_denominators@[j] as nat == target[j].2 by {
                        if j < k {
                            assert(narrow_numerators@[j] == old_numerators[j]);
                            assert(narrow_denominators@[j] == old_denominators[j]);
                        }
                    }
                    k = k + 1;
                }
                let r = FractionMatrixExact::Narrow {
                    number_of_rows,
                    number_of_columns,
                    types,
                    numerators: narrow_numerators,
                    denominators: narrow_denominators,
                };
                assert(r.cells() =~= target);
                r
            },
        }
    }

    /// Whether the cells are stored in `u64`.
    pub fn is_narrow_storage(&self) -> (r: bool)
        ensures
            r == self.is_narrow(),
    {
        matches!(self, FractionMatrixExact::Narrow { .. })
    }

    /// A matrix of zeros, in narrow storage.
    pub fn new(number_of_rows: usize, number_of_columns: usize) -> (r: Self)
        requires
            number_of_rows * number_of_columns <= usize::MAX,
        ensures
            r.wf(),
            r.is_narrow(),
            r.rows() == number_of_rows,
            r.cols() == number_of_columns,
            r.cells() == Seq::new((number_of_rows * number_of_columns) as nat, |x: int| (Type::Plus, 0nat, 1nat)),
    {
        let total = number_of_rows * number_of_columns;
        let mut types: Vec<Type> = Vec::new();
        let mut numerators: Vec<u64> = Vec::new();
        let mut denominators: Vec<u64> = Vec::new();
        let mut i: usize = 0;
        while i < total
            invariant
                i <= total,
                types@.len() == i,
                numerators@.len() == i,
                denominators@.len() == i,
                forall|j: int| 0 <= j < i ==> (#[trigger] types@[j], numerators@[j] as nat, denominators@[j] as nat) == (Type::Plus, 0nat, 1nat),
            decreases total - i,
        {
            types.push(Type::Plus);
            numerators.push(0);
            denominators.push(1);
            i = i + 1;
        }
        let r = FractionMatrixExact::Narrow { number_of_rows, number_of_columns, types, numerators, denominators };
        assert(r.cells() =~= Seq::new((number_of_rows * number_of_columns) as nat, |x: int| (Type::Plus, 0nat, 1nat)));
        r
    }

    /// Replaces the cell at a flat index. A narrow matrix stays narrow when the
    /// value fits in a `u64`, and is promoted to wide storage otherwise.
    pub fn set_cell(&mut self, index: usize, value: FractionRaw<BigUint>)
        requires
            old(self).wf(),
            index < old(self).cells().len(),
        ensures
            final(self).wf(),
            final(self).rows() == old(self).rows(),
            final(self).cols() == old(self).cols(),
            final(self).cells() == old(self).cells().update(index as int, value.model()),
    {
        let ghost target = self.cells().update(index as int, value.model());
        let rows = self.number_of_rows();
        let cols = self.number_of_columns();
        let fits = match (big_to_u64(&value.1), big_to_u64(&value.2)) {
            (Some(n), Some(d)) => Some((n, d)),
            _ => None,
        };
        let narrow = matches!(self, FractionMatrixExact::Narrow { .. });
        let narrow_fits = narrow && fits.is_some();
        let wide = !narrow;
        if narrow_fits || wide {
            let ghost before = *self;
            match self {
                FractionMatrixExact::Narrow { types, numerators, denominators, .. } => {
                    let (n, d) = fits.unwrap();
                    types[index] = value.0;
                    numerators[index] = n;
                    denominators[index] = d;
                },
                FractionMatrixExact::Wide { types, numerators, denominators, .. } => {
                    types[index] = value.0;
                    numerators[index] = value.1;
                    denominators[index] = value.2;
                },
            }
            assert(self.cells() =~= target);
            return;
        }
        let mut flat = self.to_flat();
        flat.set(index, value);
        *self = FractionMatrixExact::from_flat(rows, cols, flat);
        assert(self.cells() =~= target);
    }

    /// Sets a particular value of the matrix.
    pub fn set(&mut self, row: usize, column: usize, value: FractionRaw<BigUint>)
        requires
            old(self).wf(),
            row < old(self).rows(),
            column < old(self).cols(),
        ensures
            final(self).wf(),
            final(self).rows() == old(self).rows(),
            final(self).cols() == old(self).cols(),
            final(self).cells() == old(self).cells().update(row * old(self).cols() + column, value.model()),
    {
        let cols = self.number_of_columns();
        proof {
            lemma_cell_index(row as int, column as int, self.rows(), self.cols());
        }
        self.set_cell(row * cols + column, value);
    }

    /// Sets a particular value of the matrix to zero.
    pub fn set_zero(&mut self, row: usize, column: usize)
        requires
            old(self).wf(),
            row < old(self).rows(),
            column < old(self).cols(),
        ensures
            final(self).wf(),
            final(self).rows() == old(self).rows(),
            final(self).cols() == old(self).cols(),
            final(self).cells() == old(self).cells().update(row * old(self).cols() + column, (Type::Plus, 0nat, 1nat)),
    {
        self.set(row, column, FractionRaw(Type::Plus, big_from_u64(0), big_from_u64(1)));
    }

    /// Sets a particular value of the matrix to one.
    pub fn set_one(&mut self, row: usize, column: usize)
        requires
            old(self).wf(),
            row < old(self).rows(),
            column < old(self).cols(),
        ensures
            final(self).wf(),
            final(self).rows() == old(self).rows(),
            final(self).cols() == old(self).cols(),
            final(self).cells() == old(self).cells().update(row * old(self).cols() + column, (Type::Plus, 1nat, 1nat)),
    {
        self.set(row, column, FractionRaw(Type::Plus, big_from_u64(1), big_from_u64(1)));
    }

    /// Adds a value to a cell: the cell becomes `cell + value * 1`.
    pub fn increase(&mut self, row: usize, column: usize, value: &FractionRaw<BigUint>)
        requires
            old(self).wf(),
            row < old(self).rows(),
            column < old(self).cols(),
        ensures
            final(self).wf(),
            final(self).rows() == old(self).rows(),
            final(self).cols() == old(self).cols(),
            final(self).cells() == old(self).cells().update(
                row * old(self).cols() + column,
                add_mul_model(old(self).cell(row as int, column as int), value.model(), (Type::Plus, 1nat, 1nat)),
            ),
    {
        let cols = self.number_of_columns();
        proof {
            lemma_cell_index(row as int, column as int, self.rows(), self.cols());
        }
        let index = row * cols + column;
        let mut cell = self.wide_cell(index);
        let one = big_from_u64(1);
        BigUint::add_assign_mul(&mut cell.0, &mut cell.1, &mut cell.2, value.0, &value.1, &value.2, Type::Plus, &one, &one);
        self.set_cell(index, cell);
    }

    /// Subtracts a value from a cell.
    pub fn decrease(&mut self, row: usize, column: usize, value: &FractionRaw<BigUint>)
        requires
            old(self).wf(),
            row < old(self).rows(),
            column < old(self).cols(),
        ensures
            final(self).wf(),
            final(self).rows() == old(self).rows(),
            final(self).cols() == old(self).cols(),
            final(self).cells() == old(self).cells().update(
                row * old(self).cols() + column,
                sub_model(old(self).cell(row as int, column as int), value.model()),
            ),
    {
        let cols = self.number_of_columns();
        proof {
            lemma_cell_index(row as int, column as int, self.rows(), self.cols());
        }
        let index = row * cols + column;
        let mut cell = self.wide_cell(index);
        cell.sub_assign(value);
        self.set_cell(index, cell);
    }

    /// Sets an entire row to zeros.
    pub fn set_row_zero(&mut self, row: usize)
        requires
            old(self).wf(),
            row < old(self).rows(),
        ensures
            final(self).wf(),
            final(self).rows() == old(self).rows(),
            final(self).cols() == old(self).cols(),
            forall|x: int| 0 <= x < old(self).cells().len() ==> #[trigger] final(self).cells()[x] == if x / (old(self).cols() as int) == row {
                (Type::Plus, 0nat, 1nat)
            } else {
                old(self).cells()[x]
            },
    {
        let ghost s = self.cells();
        let rows = self.number_of_rows();
        let cols = self.number_of_columns();
        let mut column: usize = 0;
        while column < cols
            invariant
                self.wf(),
                self.rows() == rows,
                self.cols() == cols,
                row < rows,
                column <= cols,
                s.len() == rows * cols,
                forall|x: int| 0 <= x < s.len() ==> #[trigger] self.cells()[x] == if x / (cols as int) == row && x % (cols as int) < column {
                    (Type::Plus, 0nat, 1nat)
                } else {
                    s[x]
                },
            decreases cols - column,
        {
            proof {
                lemma_cell_index(row as int, column as int, rows as nat, cols as nat);
            }
            let index = row * cols + column;
            let ghost before = self.cells();
            self.set_cell(index, FractionRaw(Type::Plus, big_from_u64(0), big_from_u64(1)));
            proof {
                lemma_fundamental_div_mod_converse(index as int, cols as int, row as int, column as int);
                assert forall|x: int| 0 <= x < s.len() implies #[trigger] self.cells()[x] == if x / (cols as int) == row && x % (cols as int) < column + 1 {
                    (Type::Plus, 0nat, 1nat)
                } else {
                    s[x]
                } by {
                    if x != index {
                        assert(self.cells()[x] == before[x]);
                        lemma_fundamental_div_mod(x, cols as int);
                        if x / (cols as int) == row && x % (cols as int) == column {
                            assert((cols as int) * row == row * cols) by (nonlinear_arith);
                        }
                    }
                }
            }
            column = column + 1;
        }
        proof {
            assert forall|x: int| 0 <= x < s.len() implies #[trigger] self.cells()[x] == if x / (cols as int) == row {
                (Type::Plus, 0nat, 1nat)
            } else {
                s[x]
            } by {
                lemma_split_index(x, rows as nat, cols as nat);
            }
        }
    }

    /// Rebuilds the matrix with `new_cols` columns; the cell at row `r`, column `j`
    /// is taken from column `offset + j` of the old matrix while `j < keep`, and
    /// is zero after that.
    fn rebuild_columns(&mut self, new_cols: usize, offset: usize, keep: usize)
        requires
            old(self).wf(),
            offset + keep <= old(self).cols(),
            keep <= new_cols,
            old(self).rows() * new_cols <= usize::MAX,
        ensures
            final(self).wf(),
            final(self).rows() == old(self).rows(),
            final(self).cols() == new_cols,
            final(self).cells() == Seq::new(
                old(self).rows() * (new_cols as nat),
                |x: int| {
                    let j = x % (new_cols as int);
                    if j < keep {
                        old(self).cells()[(x / (new_cols as int)) * old(self).cols() + offset + j]
                    } else {
                        (Type::Plus, 0nat, 1nat)
                    }
                },
            ),
    {
        let ghost s = self.cells();
        let rows = self.number_of_rows();
        let cols = self.number_of_columns();
        let ghost target = Seq::new(
            (rows * new_cols) as nat,
            |x: int| {
                let j = x % (new_cols as int);
                if j < keep {
                    s[(x / (new_cols as int)) * cols + offset + j]
                } else {
                    (Type::Plus, 0nat, 1nat)
                }
            },
        );
        let mut flat: Vec<FractionRaw<BigUint>> = Vec::new();
        let mut row: usize = 0;
        while row < rows
            invariant
                self.wf(),
                s == self.cells(),
                rows == self.rows(),
                cols == self.cols(),
                offset + keep <= cols,
                keep <= new_cols,
                rows * new_cols <= usize::MAX,
                target == Seq::new(
                    (rows * new_cols) as nat,
                    |x: int| {
                        let j = x % (new_cols as int);
                        if j < keep {
                            s[(x / (new_cols as int)) * cols + offset + j]
                        } else {
                            (Type::Plus, 0nat, 1nat)
                        }
                    },
                ),
                row <= rows,
                flat@.len() == row * new_cols,
                forall|x: int| 0 <= x < flat@.len() ==> (#[trigger] flat@[x]).model() == target[x],
            decreases rows - row,
        {
            let mut j: usize = 0;
            while j < new_cols
                invariant
                    self.wf(),
                    s == self.cells(),
                    rows == self.rows(),
                    cols == self.cols(),
                    offset + keep <= cols,
                    keep <= new_cols,
                    rows * new_cols <= usize::MAX,
                    target == Seq::new(
                    (rows * new_cols) as nat,
                    |x: int| {
                        let j = x % (new_cols as int);
                        if j < keep {
                            s[(x / (new_cols as int)) * cols + offset + j]
                        } else {
                            (Type::Plus, 0nat, 1nat)
                        }
                    },
                ),
                    row < rows,
                    j <= new_cols,
                    flat@.len() == row * new_cols + j,
                    forall|x: int| 0 <= x < flat@.len() ==> (#[trigger] flat@[x]).model() == target[x],
                decreases new_cols - j,
            {
                proof {
                    lemma_cell_index(row as int, j as int, rows as nat, new_cols as nat);
                    lemma_fundamental_div_mod_converse((row * new_cols + j) as int, new_cols as int, row as int, j as int);
                }
                let cell = if j < keep {
                    proof {
                        lemma_cell_index(row as int, (offset + j) as int, rows as nat, cols as nat);
                    }
                    self.wide_cell(row * cols + offset + j)
                } else {
                    FractionRaw(Type::Plus, big_from_u64(0), big_from_u64(1))
                };
                flat.push(cell);
                j = j + 1;
            }
            assert((row + 1) * new_cols == row * new_cols + new_cols) by (nonlinear_arith);
            row = row + 1;
        }
        assert(flat@.map_values(|f: FractionRaw<BigUint>| f.model()) =~= target);
        *self = FractionMatrixExact::from_flat(rows, new_cols, flat);
    }

    /// Adds `number_of_columns_to_add` columns of zeros to the right side of the matrix.
    pub fn push_columns(&mut self, number_of_columns_to_add: usize)
        requires
            old(self).wf(),
            old(self).cols() + number_of_columns_to_add <= usize::MAX,
            old(self).rows() * (old(self).cols() + number_of_columns_to_add) <= usize::MAX,
        ensures
            final(self).wf(),
            final(self).rows() == old(self).rows(),
            final(self).cols() == old(self).cols() + number_of_columns_to_add,
            final(self).cells() == pushed_columns(old(self).cells(), old(self).rows(), old(self).cols(), number_of_columns_to_add as nat),
    {
        let ghost before = *self;
        let cols = self.number_of_columns();
        self.rebuild_columns(cols + number_of_columns_to_add, 0, cols);
        assert(self.cells() =~= pushed_columns(before.cells(), before.rows(), before.cols(), number_of_columns_to_add as nat));
    }

    /// Removes `number_of_columns_to_remove` columns from the left of the matrix.
    pub fn pop_front_columns(&mut self, number_of_columns_to_remove: usize)
        requires
            old(self).wf(),
            number_of_columns_to_remove <= old(self).cols(),
        ensures
            final(self).wf(),
            final(self).rows() == old(self).rows(),
            final(self).cols() == old(self).cols() - number_of_columns_to_remove,
            final(self).cells() == popped_front_columns(old(self).cells(), old(self).rows(), old(self).cols(), number_of_columns_to_remove as nat),
    {
        let ghost before = *self;
        let cols = self.number_of_columns();
        let new_cols = cols - number_of_columns_to_remove;
        proof {
            assert(self.rows() * new_cols <= self.rows() * cols) by (nonlinear_arith)
                requires
                    new_cols <= cols,
            ;
        }
        self.rebuild_columns(new_cols, number_of_columns_to_remove, new_cols);
        proof {
            let p = popped_front_columns(before.cells(), before.rows(), before.cols(), number_of_columns_to_remove as nat);
            assert forall|x: int| 0 <= x < p.len() implies #[trigger] self.cells()[x] == p[x] by {
                lemma_split_index(x, before.rows(), new_cols as nat);
            }
            assert(self.cells() =~= p);
        }
    }

    /// All cells, row-major, in wide form.
    pub fn to_flat(&self) -> (r: Vec<FractionRaw<BigUint>>)
        requires
            self.wf(),
        ensures
            r@.len() == self.cells().len(),
            r@.map_values(|f: FractionRaw<BigUint>| f.model()) == self.cells(),
    {
        let len = match self {
            FractionMatrixExact::Narrow { types, .. } => types.len(),
            FractionMatrixExact::Wide { types, .. } => types.len(),
        };
        let mut r: Vec<FractionRaw<BigUint>> = Vec::new();
        let mut i: usize = 0;
        while i < len
            invariant
                self.wf(),
                len == self.cells().len(),
                i <= len,
                r@.len() == i,
                forall|j: int| 0 <= j < i ==> (#[trigger] r@[j]).model() == self.cells()[j],
            decreases len - i,
        {
            r.push(self.wide_cell(i));
            i = i + 1;
        }
        assert(r@.map_values(|f: FractionRaw<BigUint>| f.model()) =~= self.cells());
        r
    }

    /// A wide matrix holding the given cells, row-major.
    pub fn from_flat(number_of_rows: usize, number_of_columns: usize, values: Vec<FractionRaw<BigUint>>) -> (r: Self)
        requires
            values@.len() == number_of_rows * number_of_columns,
            number_of_rows * number_of_columns <= usize::MAX,
        ensures
            r.wf(),
            !r.is_narrow(),
            r.rows() == number_of_rows,
            r.cols() == number_of_columns,
            r.cells() == values@.map_values(|f: FractionRaw<BigUint>| f.model()),
    {
        let mut types: Vec<Type> = Vec::new();
        let mut numerators: Vec<BigUint> = Vec::new();
        let mut denominators: Vec<BigUint> = Vec::new();
        let mut i: usize = 0;
        while i < values.len()
            invariant
                i <= values@.len(),
                types@.len() == i,
                numerators@.len() == i,
                denominators@.len() == i,
                forall|j: int| 0 <= j < i ==> (#[trigger] types@[j], natural_value(numerators@[j]), natural_value(denominators@[j])) == values@[j].model(),
            decreases values@.len() - i,
        {
            types.push(values[i].0);
            numerators.push(big_clone(&values[i].1));
            denominators.push(big_clone(&values[i].2));
            i = i + 1;
        }
        let r = FractionMatrixExact::Wide { number_of_rows, number_of_columns, types, numerators, denominators };
        assert(r.cells() =~= values@.map_values(|f: FractionRaw<BigUint>| f.model()));
        r
    }

    /// The same cells in wide storage.
    pub fn promote(self) -> (r: Self)
        requires
            self.wf(),
        ensures
            r.wf(),
            !r.is_narrow(),
            r.rows() == self.rows(),
            r.cols() == self.cols(),
            r.cells() == self.cells(),
    {
        let rows = self.number_of_rows();
        let cols = self.number_of_columns();
        let flat = self.to_flat();
        FractionMatrixExact::from_flat(rows, cols, flat)
    }

    /// Obtains all elements from the matrix, as a list of rows.
    pub fn to_vec(self) -> (r: Vec<Vec<FractionRaw<BigUint>>>)
        requires
            self.wf(),
        ensures
            r@.len() == self.rows(),
            rows_model(r@) == unflatten(self.cells(), self.rows(), self.cols()),
    {
        let rows = self.number_of_rows();
        let cols = self.number_of_columns();
        let ghost u = unflatten(self.cells(), rows as nat, cols as nat);
        let mut result: Vec<Vec<FractionRaw<BigUint>>> = Vec::new();
        let mut row: usize = 0;
        while row < rows
            invariant
                self.wf(),
                rows == self.rows(),
                cols == self.cols(),
                u == unflatten(self.cells(), rows as nat, cols as nat),
                row <= rows,
                result@.len() == row,
                forall|k: int| 0 <= k < row ==> (#[trigger] result@[k])@.map_values(|f: FractionRaw<BigUint>| f.model()) == u[k],
            decreases rows - row,
        {
            let mut line: Vec<FractionRaw<BigUint>> = Vec::new();
            let mut column: usize = 0;
            while column < cols
                invariant
                    self.wf(),
                    rows == self.rows(),
                    cols == self.cols(),
                    u == unflatten(self.cells(), rows as nat, cols as nat),
                    row < rows,
                    column <= cols,
                    line@.len() == column,
                    forall|j: int| 0 <= j < column ==> (#[trigger] line@[j]).model() == u[row as int][j],
                decreases cols - column,
            {
                proof {
                    lemma_cell_index(row as int, column as int, rows as nat, cols as nat);
                }
                line.push(self.wide_cell(row * cols + column));
                column = column + 1;
            }
            assert(line@.map_values(|f: FractionRaw<BigUint>| f.model()) =~= u[row as int]);
            result.push(line);
            row = row + 1;
        }
        assert(rows_model(result@) =~= u);
        result
    }
}

} // verus!
