//! Matrices without a reduced row-echelon form: one with a row of zeros, and
//! one of finite fractions with two identical rows.
use vstd::prelude::*;
use crate::loose_fraction::CellModel;
use crate::fraction_raw::{mul_model, div_model, sub_model, is_zero_model};
use crate::gauss_jordan::{forward_targets, forward, backward, backward_targets, gauss_jordan_cells, has_reduced_form, diagonal_length, lemma_index_parts};
use crate::matrix::{lemma_cell_index, lemma_split_index};

verus! {

/// Every cell is a finite fraction.
pub open spec fn all_finite(s: Seq<CellModel>) -> bool {
    forall|x: int| 0 <= x < s.len() ==> (#[trigger] s[x]).0.spec_is_plusminus()
}

/// Every cell of row `r` is a finite zero.
pub open spec fn zero_row(s: Seq<CellModel>, cols: nat, r: nat) -> bool {
    forall|c: int| 0 <= c < cols ==> is_zero_model(#[trigger] s[r * cols + c])
}

/// The cell at index `x` after the forward pass for pivot `a`, when its row
/// is one of the rows that the pass reaches.
pub open spec fn pass_cell(s: Seq<CellModel>, cols: nat, a: nat, x: int) -> CellModel {
    let r = x / (cols as int);
    let c = x % (cols as int);
    if !is_zero_model(s[r * cols + a]) && c >= a {
        sub_model(s[x], mul_model(s[a * cols + c], div_model(s[r * cols + a], s[(a * cols + a) as int])))
    } else {
        s[x]
    }
}

/// Each row that the forward pass for pivot `a` reaches depends only on itself
/// and on the pivot row.
proof fn lemma_forward_targets_closed(s: Seq<CellModel>, rows: nat, cols: nat, a: nat, b: nat)
    requires
        s.len() == rows * cols,
        a < rows,
        a < cols,
        a + b < rows,
    ensures
        forward_targets(s, cols, a, b).len() == s.len(),
        forall|x: int| 0 <= x < s.len() ==> #[trigger] forward_targets(s, cols, a, b)[x] == if a < x / (cols as int) <= a + b {
            pass_cell(s, cols, a, x)
        } else {
            s[x]
        },
    decreases b,
{
    if b > 0 {
        lemma_forward_targets_closed(s, rows, cols, a, (b - 1) as nat);
        let s1 = forward_targets(s, cols, a, (b - 1) as nat);
        let t = a + b;
        lemma_cell_index(t as int, a as int, rows, cols);
        lemma_index_parts(t as int, a as int, cols as int);
        lemma_cell_index(a as int, a as int, rows, cols);
        lemma_index_parts(a as int, a as int, cols as int);
        assert(s1[(t * cols + a) as int] == s[(t * cols + a) as int]);
        assert(s1[(a * cols + a) as int] == s[(a * cols + a) as int]);
        let f = forward_targets(s, cols, a, b);
        assert forall|x: int| 0 <= x < s.len() implies #[trigger] f[x] == if a < x / (cols as int) <= a + b {
            pass_cell(s, cols, a, x)
        } else {
            s[x]
        } by {
            lemma_split_index(x, rows, cols);
            let r = x / (cols as int);
            let c = x % (cols as int);
            if r == t {
                lemma_cell_index(a as int, c, rows, cols);
                lemma_index_parts(a as int, c, cols as int);
                assert(s1[x] == s[x]);
                assert(s1[a * cols + c] == s[a * cols + c]);
            }
        }
    }
}

/// Subtracting from `x` the pivot `p` times `x / p` leaves numerator zero.
proof fn lemma_cancel_against_pivot(x: CellModel, p: CellModel)
    requires
        x.0.spec_is_plusminus(),
        p.0.spec_is_plusminus(),
    ensures
        sub_model(x, mul_model(p, div_model(x, p))).1 == 0,
        sub_model(x, mul_model(p, div_model(x, p))).0.spec_is_plusminus(),
{
    let f = div_model(x, p);
    let m = mul_model(p, f);
    assert(m.0 == x.0);
    assert(x.1 * m.2 == m.1 * x.2) by (nonlinear_arith)
        requires
            m.1 == p.1 * (x.1 * p.2),
            m.2 == p.2 * (x.2 * p.1),
    ;
}

/// Subtracting from `y` the value `y` times `p / p` leaves numerator zero.
proof fn lemma_cancel_identical(y: CellModel, p: CellModel)
    requires
        y.0.spec_is_plusminus(),
        p.0.spec_is_plusminus(),
    ensures
        sub_model(y, mul_model(y, div_model(p, p))).1 == 0,
{
    let f = div_model(p, p);
    let m = mul_model(y, f);
    assert(m.0 == y.0);
    assert(y.1 * m.2 == m.1 * y.2) by (nonlinear_arith)
        requires
            m.1 == y.1 * (p.1 * p.2),
            m.2 == y.2 * (p.2 * p.1),
    ;
}

/// The forward pass for pivot `p`, as `forward` takes it.
pub open spec fn pass(s: Seq<CellModel>, rows: nat, cols: nat, p: nat) -> Seq<CellModel> {
    if is_zero_model(s[(p * cols + p) as int]) {
        s
    } else {
        forward_targets(s, cols, p, (rows - 1 - p) as nat)
    }
}

/// Rows `i` and `j` hold the same cells.
pub open spec fn same_rows(s: Seq<CellModel>, cols: nat, i: nat, j: nat) -> bool {
    forall|c: int| 0 <= c < cols ==> #[trigger] s[i * cols + c] == s[j * cols + c]
}

proof fn lemma_pass(s: Seq<CellModel>, rows: nat, cols: nat, p: nat)
    requires
        s.len() == rows * cols,
        p < rows <= cols,
        all_finite(s),
    ensures
        pass(s, rows, cols, p).len() == s.len(),
        all_finite(pass(s, rows, cols, p)),
        forall|x: int| 0 <= x < s.len() && x / (cols as int) <= p ==> #[trigger] pass(s, rows, cols, p)[x] == s[x],
        forall|x: int| 0 <= x < s.len() && x % (cols as int) < p ==> #[trigger] pass(s, rows, cols, p)[x] == s[x],
        !is_zero_model(s[(p * cols + p) as int]) ==> forall|x: int|
            0 <= x < s.len() && x / (cols as int) > p && x % (cols as int) == p ==> (#[trigger] pass(s, rows, cols, p)[x]).1 == 0,
        forall|i: nat, j: nat| p < i < rows && p < j < rows && same_rows(s, cols, i, j) ==> #[trigger] same_rows(pass(s, rows, cols, p), cols, i, j),
{
    let q = pass(s, rows, cols, p);
    lemma_cell_index(p as int, p as int, rows, cols);
    if !is_zero_model(s[(p * cols + p) as int]) {
        lemma_forward_targets_closed(s, rows, cols, p, (rows - 1 - p) as nat);
        assert forall|x: int| 0 <= x < s.len() implies (#[trigger] q[x]).0.spec_is_plusminus() by {
            lemma_split_index(x, rows, cols);
            let r = x / (cols as int);
            let c = x % (cols as int);
            lemma_cell_index(p as int, c, rows, cols);
            lemma_cell_index(r, p as int, rows, cols);
        }
        assert forall|x: int| 0 <= x < s.len() && x / (cols as int) > p && x % (cols as int) == p implies (#[trigger] q[x]).1 == 0 by {
            lemma_split_index(x, rows, cols);
            let r = x / (cols as int);
            lemma_cell_index(r, p as int, rows, cols);
            assert(r * cols + p == x);
            lemma_cancel_against_pivot(s[x], s[(p * cols + p) as int]);
        }
        assert forall|i: nat, j: nat| p < i < rows && p < j < rows && same_rows(s, cols, i, j) implies #[trigger] same_rows(q, cols, i, j) by {
            assert forall|c: int| 0 <= c < cols implies #[trigger] q[i * cols + c] == q[j * cols + c] by {
                lemma_cell_index(i as int, c, rows, cols);
                lemma_cell_index(j as int, c, rows, cols);
                lemma_index_parts(i as int, c, cols as int);
                lemma_index_parts(j as int, c, cols as int);
                lemma_index_parts(i as int, p as int, cols as int);
                assert(s[i * cols + (p as int)] == s[j * cols + (p as int)]);
            }
        }
    }
}

proof fn lemma_forward_step(s: Seq<CellModel>, rows: nat, cols: nat, a: nat)
    requires
        a > 0,
    ensures
        forward(s, rows, cols, a) == pass(forward(s, rows, cols, (a - 1) as nat), rows, cols, (a - 1) as nat),
{
}

proof fn lemma_forward_finite(s: Seq<CellModel>, rows: nat, cols: nat, a: nat)
    requires
        s.len() == rows * cols,
        a <= rows <= cols,
        all_finite(s),
    ensures
        forward(s, rows, cols, a).len() == s.len(),
        all_finite(forward(s, rows, cols, a)),
    decreases a,
{
    if a > 0 {
        lemma_forward_finite(s, rows, cols, (a - 1) as nat);
        lemma_forward_step(s, rows, cols, a);
        lemma_pass(forward(s, rows, cols, (a - 1) as nat), rows, cols, (a - 1) as nat);
    }
}

/// Rows up to `a1` do not change after the pass for pivot `a1`.
proof fn lemma_forward_frozen(s: Seq<CellModel>, rows: nat, cols: nat, a1: nat, a: nat)
    requires
        s.len() == rows * cols,
        a1 <= a <= rows <= cols,
        all_finite(s),
    ensures
        forall|x: int| 0 <= x < s.len() && x / (cols as int) <= a1 ==> #[trigger] forward(s, rows, cols, a)[x] == forward(s, rows, cols, a1)[x],
    decreases a,
{
    if a > a1 {
        lemma_forward_frozen(s, rows, cols, a1, (a - 1) as nat);
        lemma_forward_finite(s, rows, cols, (a - 1) as nat);
        lemma_forward_step(s, rows, cols, a);
        lemma_pass(forward(s, rows, cols, (a - 1) as nat), rows, cols, (a - 1) as nat);
    }
}

/// When no pivot before `a` was zero, the columns before `a` are cleared below
/// their pivots.
proof fn lemma_forward_cleared(s: Seq<CellModel>, rows: nat, cols: nat, a: nat)
    requires
        s.len() == rows * cols,
        a <= rows <= cols,
        all_finite(s),
        forall|k: nat| k < a ==> !is_zero_model(#[trigger] forward(s, rows, cols, k)[(k * cols + k) as int]),
    ensures
        forall|x: int| 0 <= x < s.len() && x / (cols as int) >= a && x % (cols as int) < a ==> (#[trigger] forward(s, rows, cols, a)[x]).1 == 0,
    decreases a,
{
    if a > 0 {
        let p = (a - 1) as nat;
        lemma_forward_cleared(s, rows, cols, p);
        lemma_forward_finite(s, rows, cols, p);
        lemma_forward_step(s, rows, cols, a);
        assert(!is_zero_model(forward(s, rows, cols, p)[(p * cols + p) as int]));
        lemma_pass(forward(s, rows, cols, p), rows, cols, p);
    }
}

/// Two identical rows that no pass has reached yet stay identical.
proof fn lemma_forward_same(s: Seq<CellModel>, rows: nat, cols: nat, a: nat, i: nat, j: nat)
    requires
        s.len() == rows * cols,
        a <= i < rows <= cols,
        a <= j < rows,
        all_finite(s),
        same_rows(s, cols, i, j),
    ensures
        same_rows(forward(s, rows, cols, a), cols, i, j),
    decreases a,
{
    if a > 0 {
        let p = (a - 1) as nat;
        lemma_forward_same(s, rows, cols, p, i, j);
        lemma_forward_finite(s, rows, cols, p);
        lemma_forward_step(s, rows, cols, a);
        lemma_pass(forward(s, rows, cols, p), rows, cols, p);
    }
}

proof fn lemma_forward_len(s: Seq<CellModel>, rows: nat, cols: nat, a: nat)
    requires
        s.len() == rows * cols,
        a <= rows <= cols,
    ensures
        forward(s, rows, cols, a).len() == s.len(),
    decreases a,
{
    if a > 0 {
        let p = (a - 1) as nat;
        lemma_forward_len(s, rows, cols, p);
        lemma_forward_step(s, rows, cols, a);
        let f = forward(s, rows, cols, p);
        lemma_cell_index(p as int, p as int, rows, cols);
        if !is_zero_model(f[(p * cols + p) as int]) {
            lemma_forward_targets_closed(f, rows, cols, p, (rows - 1 - p) as nat);
        }
    }
}

/// No later forward pass changes a row of zeros.
proof fn lemma_forward_keeps_zero_row(s: Seq<CellModel>, rows: nat, cols: nat, a1: nat, a: nat, r: nat)
    requires
        s.len() == rows * cols,
        a1 <= a <= rows <= cols,
        r < rows,
        zero_row(forward(s, rows, cols, a1), cols, r),
    ensures
        forall|c: int| 0 <= c < cols ==> #[trigger] forward(s, rows, cols, a)[r * cols + c] == forward(s, rows, cols, a1)[r * cols + c],
    decreases a,
{
    if a > a1 {
        let p = (a - 1) as nat;
        lemma_forward_keeps_zero_row(s, rows, cols, a1, p, r);
        lemma_forward_len(s, rows, cols, p);
        lemma_forward_step(s, rows, cols, a);
        let f = forward(s, rows, cols, p);
        let f1 = forward(s, rows, cols, a1);
        lemma_cell_index(p as int, p as int, rows, cols);
        if !is_zero_model(f[(p * cols + p) as int]) {
            lemma_forward_targets_closed(f, rows, cols, p, (rows - 1 - p) as nat);
            assert forall|c: int| 0 <= c < cols implies #[trigger] forward(s, rows, cols, a)[r * cols + c] == f1[r * cols + c] by {
                lemma_cell_index(r as int, c, rows, cols);
                lemma_index_parts(r as int, c, cols as int);
                lemma_index_parts(r as int, p as int, cols as int);
                assert(f[r * cols + (p as int)] == f1[r * cols + (p as int)]);
            }
        }
    }
}

/// The backward pass changes no cell on or below the diagonal.
proof fn lemma_backward_targets_lower(s: Seq<CellModel>, cols: nat, i: nat, k: nat)
    requires
        k <= i,
    ensures
        backward_targets(s, cols, i, k).len() == s.len(),
        forall|x: int| 0 <= x < s.len() && x % (cols as int) <= x / (cols as int) ==> #[trigger] backward_targets(s, cols, i, k)[x] == s[x],
    decreases k,
{
    if k > 0 {
        lemma_backward_targets_lower(s, cols, i, (k - 1) as nat);
    }
}

proof fn lemma_backward_lower(s: Seq<CellModel>, cols: nat, d: nat, c: nat)
    requires
        c <= d,
    ensures
        backward(s, cols, d, c).len() == s.len(),
        forall|x: int| 0 <= x < s.len() && x % (cols as int) <= x / (cols as int) ==> #[trigger] backward(s, cols, d, c)[x] == s[x],
    decreases c,
{
    if c > 0 {
        lemma_backward_lower(s, cols, d, (c - 1) as nat);
        let i = (d - c) as nat;
        lemma_backward_targets_lower(backward(s, cols, d, (c - 1) as nat), cols, i, i);
    }
}

/// A matrix with a row of zeros has no reduced row-echelon form:
/// `gauss_jordan_reduced` fails on it.
pub proof fn lemma_zero_row_has_no_reduced_form(s: Seq<CellModel>, rows: nat, cols: nat, r: nat)
    requires
        s.len() == rows * cols,
        r < rows,
        zero_row(s, cols, r),
    ensures
        !has_reduced_form(gauss_jordan_cells(s, rows, cols), rows, cols),
{
    if rows > cols {
        return;
    }
    let d = rows;
    assert(diagonal_length(rows, cols) == d);
    assert(forward(s, rows, cols, 0) == s);
    lemma_forward_keeps_zero_row(s, rows, cols, 0, d, r);
    lemma_forward_len(s, rows, cols, d);
    let fd = forward(s, rows, cols, d);
    lemma_backward_lower(fd, cols, d, d);
    lemma_cell_index(r as int, r as int, rows, cols);
    lemma_index_parts(r as int, r as int, cols as int);
    assert(fd[r * cols + (r as int)] == s[r * cols + (r as int)]);
    assert(is_zero_model(gauss_jordan_cells(s, rows, cols)[(r as int) * (cols as int) + (r as int)]));
}

/// A matrix of finite fractions with two identical rows has no reduced
/// row-echelon form: `gauss_jordan_reduced` fails on it.
pub proof fn lemma_identical_rows_have_no_reduced_form(s: Seq<CellModel>, rows: nat, cols: nat, i: nat, j: nat)
    requires
        s.len() == rows * cols,
        i < j < rows,
        all_finite(s),
        same_rows(s, cols, i, j),
    ensures
        !has_reduced_form(gauss_jordan_cells(s, rows, cols), rows, cols),
{
    if rows > cols {
        return;
    }
    let d = rows;
    assert(diagonal_length(rows, cols) == d);
    let fd = forward(s, rows, cols, d);
    let g = gauss_jordan_cells(s, rows, cols);
    lemma_forward_finite(s, rows, cols, d);
    lemma_backward_lower(fd, cols, d, d);
    if exists|a: nat| a <= i && is_zero_model(#[trigger] forward(s, rows, cols, a)[(a * cols + a) as int]) {
        let a = choose|a: nat| a <= i && is_zero_model(#[trigger] forward(s, rows, cols, a)[(a * cols + a) as int]);
        lemma_cell_index(a as int, a as int, rows, cols);
        lemma_index_parts(a as int, a as int, cols as int);
        lemma_forward_frozen(s, rows, cols, a, d);
        assert(g[(a * cols + a) as int] == fd[(a * cols + a) as int]);
        assert(is_zero_model(g[(a as int) * (cols as int) + (a as int)]));
    } else {
        let fi = forward(s, rows, cols, i);
        let fn1 = forward(s, rows, cols, i + 1);
        lemma_forward_finite(s, rows, cols, i);
        lemma_forward_cleared(s, rows, cols, i + 1);
        lemma_forward_same(s, rows, cols, i, i, j);
        lemma_forward_step(s, rows, cols, i + 1);
        lemma_cell_index(i as int, i as int, rows, cols);
        lemma_cell_index(j as int, i as int, rows, cols);
        lemma_index_parts(i as int, i as int, cols as int);
        lemma_index_parts(j as int, i as int, cols as int);
        assert(!is_zero_model(fi[(i * cols + i) as int]));
        assert(fi[j * cols + (i as int)] == fi[i * cols + (i as int)]);
        lemma_forward_targets_closed(fi, rows, cols, i, (rows - 1 - i) as nat);
        lemma_forward_finite(s, rows, cols, i + 1);
        assert forall|c: int| 0 <= c < cols implies is_zero_model(#[trigger] fn1[j * cols + c]) by {
            lemma_cell_index(j as int, c, rows, cols);
            lemma_index_parts(j as int, c, cols as int);
            let x = j * cols + c;
            if c > i {
                lemma_cell_index(i as int, c, rows, cols);
                assert(fi[x] == fi[i * cols + c]);
                lemma_cancel_identical(fi[x], fi[(i * cols + i) as int]);
            }
        }
        lemma_forward_keeps_zero_row(s, rows, cols, i + 1, d, j);
        lemma_cell_index(j as int, j as int, rows, cols);
        lemma_index_parts(j as int, j as int, cols as int);
        assert(fd[j * cols + (j as int)] == fn1[j * cols + (j as int)]);
        assert(is_zero_model(g[(j as int) * (cols as int) + (j as int)]));
    }
}

} // verus!
