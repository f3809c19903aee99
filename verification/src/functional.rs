use vstd::prelude::*;
use crate::matrix::Matrix;

verus! {

/// The buffers of a sequence of matrices, in order.
pub open spec fn row_views<T>(ms: Seq<Matrix<T>>) -> Seq<Seq<T>> {
    ms.map_values(|m: Matrix<T>| m@)
}

/// Concatenate one-row matrices along the feature axis, in order.
///
/// The engine only ever concatenates single rows (each shard reply and
/// each attention head yields a one-row matrix); the contract demands
/// that shape outright.
pub fn cat_row<T: Copy>(matrices: &Vec<Matrix<T>>) -> (r: Matrix<T>)
    requires
        matrices@.len() > 0,
        forall|i: int| 0 <= i < matrices@.len()
            ==> (#[trigger] matrices@[i]).spec_rows() == 1,
    ensures
        r.spec_rows() == 1,
        r.spec_cols() == r@.len(),
        r@ == row_views(matrices@).flatten(),
{
    let mut out: Vec<T> = Vec::new();
    let mut i: usize = 0;
    while i < matrices.len()
        invariant
            i <= matrices@.len(),
            forall|k: int| 0 <= k < matrices@.len()
                ==> (#[trigger] matrices@[k]).spec_rows() == 1,
            out@ == row_views(matrices@.take(i as int)).flatten(),
        decreases matrices@.len() - i,
    {
        let m = &matrices[i];
        let _size = m.size();
        let data = m.data();
        let mut x: usize = 0;
        while x < data.len()
            invariant
                x <= data@.len(),
                data@ == matrices@[i as int]@,
                i < matrices@.len(),
                out@ == row_views(matrices@.take(i as int)).flatten()
                    + matrices@[i as int]@.take(x as int),
            decreases data@.len() - x,
        {
            out.push(data[x]);
            proof {
                assert(matrices@[i as int]@.take(x + 1)
                    =~= matrices@[i as int]@.take(x as int).push(data@[x as int]));
                assert(out@ == row_views(matrices@.take(i as int)).flatten()
                    + matrices@[i as int]@.take(x + 1));
            }
            x += 1;
        }
        i += 1;
        proof {
            let pre = matrices@.take(i - 1);
            let cur = matrices@[i - 1];
            assert(matrices@.take(i as int) =~= pre.push(cur));
            assert(row_views(pre.push(cur)) =~= row_views(pre).push(cur@));
            row_views(pre).lemma_flatten_push(cur@);
            assert(cur@.take(cur@.len() as int) =~= cur@);
        }
    }
    proof {
        assert(matrices@.take(matrices@.len() as int) =~= matrices@);
    }
    Matrix::new((1, out.len()), out)
}

} // verus!
