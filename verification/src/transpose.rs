use vstd::prelude::*;
use crate::matrix::{lemma_index_bound, lemma_mul_commute, Matrix};

verus! {

/// The row-major buffer of the transpose of a rows-by-cols matrix
/// stored in `s`: cell (y, x) of the result is cell (x, y) of `s`.
pub open spec fn spec_transpose<T>(s: Seq<T>, rows: int, cols: int) -> Seq<T> {
    Seq::new((rows * cols) as nat, |i: int| s[(i % rows) * cols + i / rows])
}

/// Transposing twice gives the original buffer back.
pub proof fn lemma_transpose_involution<T>(s: Seq<T>, rows: int, cols: int)
    requires
        0 < rows,
        0 < cols,
        s.len() == rows * cols,
    ensures
        spec_transpose(spec_transpose(s, rows, cols), cols, rows) == s,
{
    let t = spec_transpose(s, rows, cols);
    let u = spec_transpose(t, cols, rows);
    assert forall|i: int| 0 <= i < s.len() implies u[i] == s[i] by {
        let j = (i % cols) * rows + i / cols;
        assert(0 <= i % cols < cols && 0 <= i / cols < rows) by (nonlinear_arith)
            requires 0 < cols, 0 < rows, 0 <= i < rows * cols
        {}
        lemma_mul_commute(rows, cols);
        lemma_index_bound(cols, rows, i % cols, i / cols);
        assert(0 <= j < rows * cols);
        assert(u[i] == t[j]);
        assert(j % rows == i / cols && j / rows == i % cols) by (nonlinear_arith)
            requires
                0 < rows,
                0 <= i / cols < rows,
                0 <= i % cols,
                j == (i % cols) * rows + i / cols,
        {}
        assert(t[j] == s[(j % rows) * cols + j / rows]);
        assert((i / cols) * cols + i % cols == i) by (nonlinear_arith)
            requires 0 < cols
        {}
    }
    lemma_mul_commute(rows, cols);
    assert(u.len() == s.len());
    assert(u =~= s);
}

impl<T: Copy> Matrix<T> {
    /// The transpose: shape (cols, rows), cell (y, x) taken from (x, y).
    pub fn transpose(&self) -> (r: Self)
        ensures
            r.spec_rows() == self.spec_cols(),
            r.spec_cols() == self.spec_rows(),
            r@ == spec_transpose(self@, self.spec_rows() as int, self.spec_cols() as int),
            forall|y: int, x: int|
                0 <= y < self.spec_cols() && 0 <= x < self.spec_rows()
                    ==> r.el(y, x) == self.el(x, y),
    {
        let _size = self.size();
        let rows = self.n_rows();
        let cols = self.n_cols();
        let data = self.data();
        let ghost t = spec_transpose(self@, rows as int, cols as int);
        let mut out: Vec<T> = Vec::new();
        let mut y: usize = 0;
        while y < cols
            invariant
                y <= cols,
                rows == self.spec_rows(),
                cols == self.spec_cols(),
                data@ == self@,
                rows * cols == self@.len(),
                t == spec_transpose(self@, rows as int, cols as int),
                out@.len() == y * rows,
                forall|i: int| 0 <= i < y * rows ==> out@[i] == t[i],
            decreases cols - y,
        {
            let mut x: usize = 0;
            while x < rows
                invariant
                    x <= rows,
                    y < cols,
                    rows == self.spec_rows(),
                    cols == self.spec_cols(),
                    data@ == self@,
                    rows * cols == self@.len(),
                    t == spec_transpose(self@, rows as int, cols as int),
                    out@.len() == y * rows + x,
                    forall|i: int| 0 <= i < y * rows + x ==> out@[i] == t[i],
                decreases rows - x,
            {
                proof {
                    assert(data.len() == data@.len());
                    lemma_index_bound(rows as int, cols as int, x as int, y as int);
                    lemma_index_bound(cols as int, rows as int, y as int, x as int);
                    let i = (y as int) * (rows as int) + (x as int);
                    assert(i % (rows as int) == x && i / (rows as int) == y)
                        by (nonlinear_arith)
                        requires 0 < rows, 0 <= x < rows, 0 <= y,
                            i == (y as int) * (rows as int) + (x as int),
                    {}
                    assert(t[i] == self@[(x as int) * (cols as int) + (y as int)]);
                }
                out.push(data[x * cols + y]);
                x += 1;
            }
            y += 1;
            proof {
                assert(out@.len() == y * rows) by (nonlinear_arith)
                    requires out@.len() == (y - 1) * rows + rows
                {}
            }
        }
        proof {
            lemma_mul_commute(cols as int, rows as int);
            assert(out@ =~= t);
            assert forall|y2: int, x2: int|
                0 <= y2 < cols && 0 <= x2 < rows implies
                #[trigger] t[y2 * (rows as int) + x2] == self@[x2 * (cols as int) + y2] by {
                lemma_index_bound(cols as int, rows as int, y2, x2);
                let i = y2 * (rows as int) + x2;
                assert(i % (rows as int) == x2 && i / (rows as int) == y2)
                    by (nonlinear_arith)
                    requires 0 < rows, 0 <= x2 < rows, 0 <= y2,
                        i == y2 * (rows as int) + x2,
                {}
            }
        }
        Matrix::new((cols, rows), out)
    }
}

} // verus!
