use vstd::prelude::*;
use crate::matrix::{lemma_index_bound, Matrix};

verus! {

impl<T: Copy> Matrix<T> {
    /// Rewrite every cell through a position-indexed callback. Each
    /// result cell is a value the callback can return for the input
    /// cell at that position.
    pub fn scalar_operation<F: Fn(T, (usize, usize)) -> T>(self, op: F) -> (r: Matrix<T>)
        requires
            forall|y: int, x: int|
                0 <= y < self.spec_rows() && 0 <= x < self.spec_cols()
                    ==> call_requires(op, (self.el(y, x), (y as usize, x as usize))),
        ensures
            r.spec_rows() == self.spec_rows(),
            r.spec_cols() == self.spec_cols(),
            forall|y: int, x: int|
                0 <= y < self.spec_rows() && 0 <= x < self.spec_cols()
                    ==> call_ensures(
                        op, (self.el(y, x), (y as usize, x as usize)), #[trigger] r.el(y, x)),
    {
        let _size = self.size();
        let rows = self.n_rows();
        let cols = self.n_cols();
        let a = self.data();
        let mut out: Vec<T> = Vec::new();
        let mut y: usize = 0;
        while y < rows
            invariant
                y <= rows,
                rows == self.spec_rows(),
                cols == self.spec_cols(),
                a@ == self@,
                rows * cols == self@.len(),
                forall|y2: int, x2: int|
                    0 <= y2 < rows && 0 <= x2 < cols
                        ==> call_requires(op, (self.el(y2, x2), (y2 as usize, x2 as usize))),
                out@.len() == y * cols,
                forall|y2: int, x2: int|
                    0 <= y2 < y && 0 <= x2 < cols
                        ==> call_ensures(
                            op, (self.el(y2, x2), (y2 as usize, x2 as usize)),
                            #[trigger] out@[y2 * (cols as int) + x2]),
            decreases rows - y,
        {
            let mut x: usize = 0;
            while x < cols
                invariant
                    x <= cols,
                    y < rows,
                    rows == self.spec_rows(),
                    cols == self.spec_cols(),
                    a@ == self@,
                    rows * cols == self@.len(),
                    forall|y2: int, x2: int|
                        0 <= y2 < rows && 0 <= x2 < cols
                            ==> call_requires(
                                op, (self.el(y2, x2), (y2 as usize, x2 as usize))),
                    out@.len() == y * cols + x,
                    forall|y2: int, x2: int|
                        0 <= y2 < y && 0 <= x2 < cols
                            ==> call_ensures(
                                op, (self.el(y2, x2), (y2 as usize, x2 as usize)),
                                #[trigger] out@[y2 * (cols as int) + x2]),
                    forall|x2: int|
                        0 <= x2 < x
                            ==> call_ensures(
                                op, (self.el(y as int, x2), (y, x2 as usize)),
                                #[trigger] out@[(y as int) * (cols as int) + x2]),
                decreases cols - x,
            {
                proof {
                    assert(a.len() == a@.len());
                    lemma_index_bound(rows as int, cols as int, y as int, x as int);
                    assert forall|k: int, c: int|
                        0 <= k < y && 0 <= c < cols implies
                        #[trigger] (k * (cols as int) + c) < (y as int) * (cols as int) by {
                        lemma_index_bound(y as int, cols as int, k, c);
                    }
                    assert(a@[(y * cols + x) as int] == self.el(y as int, x as int));
                    assert(call_requires(op, (self.el(y as int, x as int), (y, x))));
                }
                let v = op(a[y * cols + x], (y, x));
                out.push(v);
                x += 1;
            }
            y += 1;
            proof {
                assert(out@.len() == y * cols) by (nonlinear_arith)
                    requires out@.len() == (y - 1) * cols + cols
                {}
            }
        }
        Matrix::new((rows, cols), out)
    }
}

} // verus!
