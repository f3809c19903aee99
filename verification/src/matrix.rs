use vstd::prelude::*;

verus! {

/// Index arithmetic for row-major storage: a cell (y, x) of a
/// rows-by-cols matrix lies strictly inside the backing buffer.
pub proof fn lemma_index_bound(rows: int, cols: int, y: int, x: int)
    by (nonlinear_arith)
    requires
        0 <= y < rows,
        0 <= x < cols,
    ensures
        0 <= y * cols + x < rows * cols,
        y * cols + x < (y + 1) * cols,
        (y + 1) * cols <= rows * cols,
{
}

/// A row-major two-dimensional view over a flat buffer.
///
/// The engine moves numeric payloads around as plain cells; the cell
/// type is generic so that the structural operations (reshape, gather,
/// transpose, concatenation) are specified once for every payload the
/// engine carries.
#[derive(Debug)]
pub struct Matrix<T> {
    rows: usize,
    cols: usize,
    data: Vec<T>,
}

impl<T> View for Matrix<T> {
    type V = Seq<T>;

    closed spec fn view(&self) -> Seq<T> {
        self.data@
    }
}

impl<T> Matrix<T> {
    /// Every matrix holds exactly rows-times-cols cells.
    #[verifier::type_invariant]
    spec fn size_inv(self) -> bool {
        self.rows * self.cols == self.data@.len()
    }

    pub closed spec fn spec_rows(self) -> usize {
        self.rows
    }

    pub closed spec fn spec_cols(self) -> usize {
        self.cols
    }

    /// The cell at row `y`, column `x`.
    pub open spec fn el(self, y: int, x: int) -> T {
        self@[y * (self.spec_cols() as int) + x]
    }

    /// The number of cells. Its contract carries the structural law of
    /// the type: the backing buffer length is exactly the product of
    /// the dimensions, for every matrix that can be constructed.
    pub fn size(&self) -> (n: usize)
        ensures
            n == self@.len(),
            n == (self.spec_rows() as int) * (self.spec_cols() as int),
    {
        proof {
            use_type_invariant(self);
        }
        self.data.len()
    }

    pub fn new(shape: (usize, usize), data: Vec<T>) -> (m: Self)
        requires
            shape.0 * shape.1 == data.len(),
        ensures
            m.spec_rows() == shape.0,
            m.spec_cols() == shape.1,
            m@ == data@,
    {
        Matrix { rows: shape.0, cols: shape.1, data }
    }

    pub fn from_vec(shape: (usize, usize), data: Vec<T>) -> (m: Self)
        requires
            shape.0 * shape.1 == data.len(),
        ensures
            m.spec_rows() == shape.0,
            m.spec_cols() == shape.1,
            m@ == data@,
    {
        Self::new(shape, data)
    }

    pub fn shape(&self) -> (s: (usize, usize))
        ensures
            s.0 == self.spec_rows(),
            s.1 == self.spec_cols(),
    {
        (self.rows, self.cols)
    }

    pub fn n_rows(&self) -> (r: usize)
        ensures
            r == self.spec_rows(),
    {
        self.rows
    }

    pub fn n_cols(&self) -> (r: usize)
        ensures
            r == self.spec_cols(),
    {
        self.cols
    }

    pub fn data(&self) -> (r: &Vec<T>)
        ensures
            r@ == self@,
    {
        &self.data
    }

    pub fn into_data(self) -> (r: Vec<T>)
        ensures
            r@ == self@,
    {
        self.data
    }

    /// Reinterpret the buffer under a new shape with the same cell count.
    pub fn reshape(self, shape: (usize, usize)) -> (m: Self)
        requires
            shape.0 * shape.1 == self.spec_rows() * self.spec_cols(),
        ensures
            m.spec_rows() == shape.0,
            m.spec_cols() == shape.1,
            m@ == self@,
    {
        proof {
            use_type_invariant(&self);
        }
        Matrix { rows: shape.0, cols: shape.1, data: self.data }
    }
}

impl<T: Copy> Matrix<T> {
    pub fn from_slice(shape: (usize, usize), data: &[T]) -> (m: Self)
        requires
            shape.0 * shape.1 == data@.len(),
        ensures
            m.spec_rows() == shape.0,
            m.spec_cols() == shape.1,
            m@ == data@,
    {
        Self::new(shape, vstd::slice::slice_to_vec(data))
    }

    /// A copy of row `y`.
    pub fn get_row(&self, y: usize) -> (r: Vec<T>)
        requires
            y < self.spec_rows(),
        ensures
            r@.len() == self.spec_cols(),
            forall|x: int| 0 <= x < self.spec_cols() ==> r@[x] == self.el(y as int, x),
    {
        proof {
            use_type_invariant(self);
        }
        let mut out: Vec<T> = Vec::new();
        let mut x: usize = 0;
        while x < self.cols
            invariant
                x <= self.cols,
                y < self.rows,
                self.rows * self.cols == self.data@.len(),
                out@.len() == x,
                forall|i: int| 0 <= i < x ==> out@[i] == self.el(y as int, i),
            decreases self.cols - x,
        {
            proof {
                assert(self.data.len() == self.data@.len());
                lemma_index_bound(self.rows as int, self.cols as int, y as int, x as int);
            }
            out.push(self.data[y * self.cols + x]);
            x += 1;
        }
        out
    }

    /// Gather the listed rows into a new matrix, in the given order.
    pub fn get_rows(&self, row_ids: &Vec<usize>) -> (r: Self)
        requires
            forall|i: int| 0 <= i < row_ids@.len() ==> row_ids@[i] < self.spec_rows(),
        ensures
            r.spec_rows() == row_ids@.len(),
            r.spec_cols() == self.spec_cols(),
            forall|i: int, x: int|
                0 <= i < row_ids@.len() && 0 <= x < self.spec_cols()
                    ==> r.el(i, x) == self.el(row_ids@[i] as int, x),
    {
        proof {
            use_type_invariant(self);
        }
        let mut out: Vec<T> = Vec::new();
        let mut i: usize = 0;
        while i < row_ids.len()
            invariant
                i <= row_ids@.len(),
                self.rows * self.cols == self.data@.len(),
                forall|k: int| 0 <= k < row_ids@.len() ==> row_ids@[k] < self.rows,
                out@.len() == i * self.cols,
                forall|k: int, x: int|
                    0 <= k < i && 0 <= x < self.cols
                        ==> out@[k * (self.cols as int) + x] == self.el(row_ids@[k] as int, x),
            decreases row_ids@.len() - i,
        {
            let y = row_ids[i];
            let mut x: usize = 0;
            while x < self.cols
                invariant
                    x <= self.cols,
                    i < row_ids@.len(),
                    y == row_ids@[i as int],
                    y < self.rows,
                    self.rows * self.cols == self.data@.len(),
                    out@.len() == i * self.cols + x,
                    forall|k: int, c: int|
                        0 <= k < i && 0 <= c < self.cols
                            ==> out@[k * (self.cols as int) + c] == self.el(row_ids@[k] as int, c),
                    forall|c: int| 0 <= c < x ==> out@[(i as int) * (self.cols as int) + c]
                        == self.el(y as int, c),
                decreases self.cols - x,
            {
                proof {
                    assert(self.data.len() == self.data@.len());
                    lemma_index_bound(self.rows as int, self.cols as int, y as int, x as int);
                    lemma_index_bound(
                        row_ids@.len() as int, self.cols as int, i as int, x as int);
                    assert forall|k: int, c: int|
                        0 <= k < i && 0 <= c < self.cols implies
                        #[trigger] (k * (self.cols as int) + c) < (i as int) * (self.cols as int) by {
                        lemma_index_bound(i as int, self.cols as int, k, c);
                    }
                }
                out.push(self.data[y * self.cols + x]);
                x += 1;
            }
            i += 1;
            proof {
                assert(out@.len() == i * self.cols) by (nonlinear_arith)
                    requires out@.len() == (i - 1) * self.cols + self.cols
                {}
            }
        }
        proof {
            lemma_mul_commute(row_ids@.len() as int, self.cols as int);
        }
        Matrix::new((row_ids.len(), self.cols), out)
    }
}

/// `a * b == b * a`, stated once so callers can avoid nonlinear goals.
pub proof fn lemma_mul_commute(a: int, b: int)
    by (nonlinear_arith)
    ensures
        a * b == b * a,
{
}

} // verus!
