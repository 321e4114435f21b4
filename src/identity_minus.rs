//! `I - M` for a fraction matrix.
use vstd::prelude::*;
use num_bigint::BigUint;
use crate::loose_fraction::{Type, CellModel};
use crate::fraction_raw::{FractionRaw, sub_model};
use crate::gauss_jordan::{models, lemma_index_parts};
use crate::inversion::neg_model;
use crate::matrix::{EbiMatrix, FractionMatrixExact, lemma_cell_index};
use crate::natural::big_from_u64;

verus! {

/// The cells of `I - M`: a diagonal cell becomes one minus itself, any other
/// cell is negated.
pub open spec fn identity_minus_cells(s: Seq<CellModel>, cols: nat) -> Seq<CellModel> {
    Seq::new(
        s.len(),
        |x: int|
            if x / (cols as int) == x % (cols as int) {
                sub_model((Type::Plus, 1nat, 1nat), s[x])
            } else {
                neg_model(s[x])
            },
    )
}

/// Replaces a matrix `M` by `I - M`.
pub trait IdentityMinus: EbiMatrix {
    /// `self` is `I - before`.
    spec fn identity_minus_of(&self, before: Self) -> bool;

    fn identity_minus(&mut self)
        requires
            old(self).well_formed(),
        ensures
            final(self).well_formed(),
            final(self).identity_minus_of(*old(self)),
    ;
}

impl IdentityMinus for FractionMatrixExact {
    open spec fn identity_minus_of(&self, before: Self) -> bool {
        &&& self.rows() == before.rows()
        &&& self.cols() == before.cols()
        &&& self.cells() == identity_minus_cells(before.cells(), before.cols())
    }

    fn identity_minus(&mut self) {
        let rows = self.number_of_rows();
        let cols = self.number_of_columns();
        let values = self.to_flat();
        let ghost s = models(values@);
        let ghost target = identity_minus_cells(s, cols as nat);
        let mut result: Vec<FractionRaw<BigUint>> = Vec::new();
        let mut i: usize = 0;
        while i < rows
            invariant
                values@.len() == rows * cols,
                rows * cols <= usize::MAX,
                s == models(values@),
                target == identity_minus_cells(s, cols as nat),
                i <= rows,
                result@.len() == i * cols,
                forall|x: int| 0 <= x < result@.len() ==> #[trigger] models(result@)[x] == target[x],
            decreases rows - i,
        {
            let mut j: usize = 0;
            while j < cols
                invariant
                    values@.len() == rows * cols,
                    rows * cols <= usize::MAX,
                    s == models(values@),
                    target == identity_minus_cells(s, cols as nat),
                    i < rows,
                    j <= cols,
                    result@.len() == i * cols + j,
                    forall|x: int| 0 <= x < result@.len() ==> #[trigger] models(result@)[x] == target[x],
                decreases cols - j,
            {
                proof {
                    lemma_cell_index(i as int, j as int, rows as nat, cols as nat);
                    lemma_index_parts(i as int, j as int, cols as int);
                }
                let cell = &values[i * cols + j];
                let next = if i == j {
                    let mut one = FractionRaw(Type::Plus, big_from_u64(1), big_from_u64(1));
                    one.sub_assign(cell);
                    one
                } else {
                    let mut c = cell.duplicate();
                    c.0 = c.0.negate();
                    c
                };
                let ghost before = result@;
                result.push(next);
                proof {
                    assert forall|x: int| 0 <= x < result@.len() implies #[trigger] models(result@)[x] == target[x] by {
                        if x < before.len() {
                            assert(result@[x] == before[x]);
                            assert(models(before)[x] == target[x]);
                        }
                    }
                }
                j = j + 1;
            }
            assert((i + 1) * cols == i * cols + cols) by (nonlinear_arith);
            i = i + 1;
        }
        assert(models(result@) =~= target);
        *self = FractionMatrixExact::from_flat(rows, cols, result);
    }
}

} // verus!
