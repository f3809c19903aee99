use vstd::prelude::*;
use crate::matrix::Matrix;

verus! {

impl<T: Copy> Matrix<T> {
    /// Pull a sub-matrix: cell (y, x) of the result is the buffer cell
    /// at `y * stride.0 + x * stride.1 + offset`.
    pub fn sample(&self, shape: (usize, usize), stride: (usize, usize), offset: usize)
        -> (r: Self)
        requires
            forall|y: int, x: int|
                0 <= y < shape.0 && 0 <= x < shape.1
                    ==> #[trigger] (y * (stride.0 as int) + x * (stride.1 as int)) + offset < self@.len(),
        ensures
            r.spec_rows() == shape.0,
            r.spec_cols() == shape.1,
            forall|y: int, x: int|
                0 <= y < shape.0 && 0 <= x < shape.1
                    ==> r.el(y, x)
                        == self@[y * (stride.0 as int) + x * (stride.1 as int) + offset],
    {
        let _size = self.size();
        let data = self.data();
        let mut out: Vec<T> = Vec::new();
        let mut y: usize = 0;
        while y < shape.0
            invariant
                y <= shape.0,
                data@ == self@,
                self@.len() <= usize::MAX,
                forall|y2: int, x2: int|
                    0 <= y2 < shape.0 && 0 <= x2 < shape.1
                        ==> #[trigger] (y2 * (stride.0 as int) + x2 * (stride.1 as int)) + offset
                            < self@.len(),
                out@.len() == y * shape.1,
                forall|y2: int, x2: int|
                    0 <= y2 < y && 0 <= x2 < shape.1
                        ==> #[trigger] out@[y2 * (shape.1 as int) + x2]
                            == self@[y2 * (stride.0 as int) + x2 * (stride.1 as int) + offset],
            decreases shape.0 - y,
        {
            let mut x: usize = 0;
            while x < shape.1
                invariant
                    x <= shape.1,
                    y < shape.0,
                    data@ == self@,
                    self@.len() <= usize::MAX,
                    forall|y2: int, x2: int|
                        0 <= y2 < shape.0 && 0 <= x2 < shape.1
                            ==> #[trigger] (y2 * (stride.0 as int) + x2 * (stride.1 as int)) + offset
                                < self@.len(),
                    out@.len() == y * shape.1 + x,
                    forall|y2: int, x2: int|
                        0 <= y2 < y && 0 <= x2 < shape.1
                            ==> #[trigger] out@[y2 * (shape.1 as int) + x2]
                                == self@[y2 * (stride.0 as int) + x2 * (stride.1 as int)
                                    + offset],
                    forall|x2: int|
                        0 <= x2 < x
                            ==> #[trigger] out@[(y as int) * (shape.1 as int) + x2]
                                == self@[(y as int) * (stride.0 as int)
                                    + x2 * (stride.1 as int) + offset],
                decreases shape.1 - x,
            {
                proof {
                    assert(data.len() == data@.len());
                    assert((y as int) * (stride.0 as int) + (x as int) * (stride.1 as int)
                        + offset < self@.len());
                    crate::matrix::lemma_index_bound(
                        shape.0 as int, shape.1 as int, y as int, x as int);
                    assert forall|k: int, c: int|
                        0 <= k < y && 0 <= c < shape.1 implies
                        #[trigger] (k * (shape.1 as int) + c)
                            < (y as int) * (shape.1 as int) by {
                        crate::matrix::lemma_index_bound(y as int, shape.1 as int, k, c);
                    }
                }
                out.push(data[y * stride.0 + x * stride.1 + offset]);
                x += 1;
            }
            y += 1;
            proof {
                assert(out@.len() == y * shape.1) by (nonlinear_arith)
                    requires out@.len() == (y - 1) * shape.1 + shape.1
                {}
            }
        }
        Matrix::new((shape.0, shape.1), out)
    }
}

} // verus!
