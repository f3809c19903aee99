use vstd::prelude::*;
use crate::matrix::Matrix;

verus! {

/// The append-only cache behind one attention projection: the rows the
/// inner operator produced so far, one per processed token. The inner
/// operator itself and the rotary angles it may apply are numeric work
/// and live with the caller; this state carries the rows and their
/// count.
pub struct CachedAttentionLinear {
    cache: Vec<u32>,
    out_dim: usize,
}

impl CachedAttentionLinear {
    /// The cache holds whole rows of the operator's output width.
    pub open spec fn wf(self) -> bool {
        self.spec_out_dim() > 0 && (self.spec_cache().len() as int) % self.spec_out_dim() == 0
    }

    pub closed spec fn spec_cache(self) -> Seq<u32> {
        self.cache@
    }

    pub closed spec fn spec_out_dim(self) -> int {
        self.out_dim as int
    }

    /// How many tokens have a cached row.
    pub open spec fn spec_n_cached(self) -> int {
        self.spec_cache().len() as int / self.spec_out_dim()
    }

    pub fn new(out_dim: usize) -> (r: Self)
        requires
            out_dim > 0,
        ensures
            r.wf(),
            r.spec_out_dim() == out_dim,
            r.spec_cache() == Seq::<u32>::empty(),
            r.spec_n_cached() == 0,
    {
        proof {
            vstd::arithmetic::div_mod::lemma_mod_multiples_basic(0, out_dim as int);
            vstd::arithmetic::div_mod::lemma_div_by_multiple(0, out_dim as int);
            assert(0 * (out_dim as int) == 0) by (nonlinear_arith) {}
        }
        CachedAttentionLinear { cache: Vec::new(), out_dim }
    }

    pub fn n_cached_tokens(&self) -> (r: usize)
        requires
            self.wf(),
        ensures
            r == self.spec_n_cached(),
            r * self.spec_out_dim() == self.spec_cache().len(),
    {
        proof {
            vstd::arithmetic::div_mod::lemma_fundamental_div_mod(
                self.cache@.len() as int, self.out_dim as int);
            crate::matrix::lemma_mul_commute(self.spec_n_cached(), self.out_dim as int);
        }
        self.cache.len() / self.out_dim
    }

    /// Append the rows one forward produced (after any rotary angles
    /// were applied by the caller).
    pub fn append_rows(&mut self, rows: &Matrix<u32>)
        requires
            old(self).wf(),
            rows.spec_cols() == old(self).spec_out_dim(),
        ensures
            final(self).wf(),
            final(self).spec_out_dim() == old(self).spec_out_dim(),
            final(self).spec_cache() == old(self).spec_cache() + rows@,
            final(self).spec_n_cached() == old(self).spec_n_cached() + rows.spec_rows(),
    {
        let _size = rows.size();
        let data = rows.data();
        let mut i: usize = 0;
        while i < data.len()
            invariant
                i <= data@.len(),
                data@ == rows@,
                self.out_dim == old(self).out_dim,
                self.cache@ == old(self).cache@ + rows@.take(i as int),
            decreases data@.len() - i,
        {
            self.cache.push(data[i]);
            proof {
                assert(self.cache@ =~= old(self).cache@ + rows@.take(i + 1));
            }
            i += 1;
        }
        proof {
            assert(rows@.take(rows@.len() as int) =~= rows@);
            let pre = old(self).spec_cache().len() as int;
            let w = self.out_dim as int;
            let k = old(self).spec_n_cached();
            vstd::arithmetic::div_mod::lemma_fundamental_div_mod(pre, w);
            let rr = rows.spec_rows() as int;
            assert(k * w + rr * w == (k + rr) * w) by (nonlinear_arith) {}
            vstd::arithmetic::div_mod::lemma_mod_multiples_basic(k + rr, w);
            vstd::arithmetic::div_mod::lemma_div_by_multiple(k + rr, w);
            assert(pre == w * k + 0);
            assert(rows@.len() == rows.spec_rows() * w);

            assert(self.cache@.len() == k * w + rr * w) by (nonlinear_arith)
                requires
                    self.cache@.len() == pre + rows@.len(),
                    pre == w * k,
                    rows@.len() == rr * w,
            {}
        }
    }

    /// The whole cache as a matrix of one row per cached token.
    pub fn as_matrix(&self) -> (r: Matrix<u32>)
        requires
            self.wf(),
        ensures
            r.spec_rows() == self.spec_n_cached(),
            r.spec_cols() == self.spec_out_dim(),
            r@ == self.spec_cache(),
    {
        let n = self.n_cached_tokens();
        Matrix::from_slice((n, self.out_dim), self.cache.as_slice())
    }

    /// Empty the cache.
    pub fn clear(&mut self)
        requires
            old(self).wf(),
        ensures
            final(self).wf(),
            final(self).spec_out_dim() == old(self).spec_out_dim(),
            final(self).spec_cache() == Seq::<u32>::empty(),
            final(self).spec_n_cached() == 0,
    {
        proof {
            let w = old(self).spec_out_dim();
            vstd::arithmetic::div_mod::lemma_mod_multiples_basic(0, w);
            vstd::arithmetic::div_mod::lemma_div_by_multiple(0, w);
            assert((0int) * w == 0) by (nonlinear_arith) {}
        }
        self.cache.clear();
    }
}

/// The two caches of one attention layer. The key rows are stored
/// after their rotary angles were applied; the value rows are the raw
/// projections. Both always hold the same number of rows.
pub struct AttentionKvCaches {
    k_cache: CachedAttentionLinear,
    v_cache: CachedAttentionLinear,
}

impl AttentionKvCaches {
    /// Both caches are well-formed, equally wide and equally deep.
    pub open spec fn wf(self) -> bool {
        &&& self.spec_k().wf()
        &&& self.spec_v().wf()
        &&& self.spec_k().spec_out_dim() == self.spec_v().spec_out_dim()
        &&& self.spec_k().spec_n_cached() == self.spec_v().spec_n_cached()
    }

    pub closed spec fn spec_k(self) -> CachedAttentionLinear {
        self.k_cache
    }

    pub closed spec fn spec_v(self) -> CachedAttentionLinear {
        self.v_cache
    }

    pub open spec fn spec_n_cached(self) -> int {
        self.spec_k().spec_n_cached()
    }

    pub fn new(out_dim: usize) -> (r: Self)
        requires
            out_dim > 0,
        ensures
            r.wf(),
            r.spec_n_cached() == 0,
            r.spec_k().spec_out_dim() == out_dim,
    {
        AttentionKvCaches {
            k_cache: CachedAttentionLinear::new(out_dim),
            v_cache: CachedAttentionLinear::new(out_dim),
        }
    }

    pub fn n_cached_tokens(&self) -> (r: usize)
        requires
            self.wf(),
        ensures
            r == self.spec_n_cached(),
    {
        self.k_cache.n_cached_tokens()
    }

    /// Record one forward: the new key row and the new value row land
    /// together, so after the forward on the i-th input both caches
    /// hold exactly i + 1 rows.
    pub fn record_forward(&mut self, k_row: &Matrix<u32>, v_row: &Matrix<u32>)
        requires
            old(self).wf(),
            k_row.spec_cols() == old(self).spec_k().spec_out_dim(),
            v_row.spec_cols() == old(self).spec_k().spec_out_dim(),
            k_row.spec_rows() == 1,
            v_row.spec_rows() == 1,
        ensures
            final(self).wf(),
            final(self).spec_k().spec_out_dim() == old(self).spec_k().spec_out_dim(),
            final(self).spec_n_cached() == old(self).spec_n_cached() + 1,
            final(self).spec_k().spec_n_cached() == old(self).spec_n_cached() + 1,
            final(self).spec_v().spec_n_cached() == old(self).spec_n_cached() + 1,
            final(self).spec_k().spec_cache() == old(self).spec_k().spec_cache() + k_row@,
            final(self).spec_v().spec_cache() == old(self).spec_v().spec_cache() + v_row@,
    {
        self.k_cache.append_rows(k_row);
        self.v_cache.append_rows(v_row);
    }

    /// The whole key history, one row per cached token.
    pub fn k_matrix(&self) -> (r: Matrix<u32>)
        requires
            self.wf(),
        ensures
            r.spec_rows() == self.spec_n_cached(),
            r.spec_cols() == self.spec_k().spec_out_dim(),
            r@ == self.spec_k().spec_cache(),
    {
        self.k_cache.as_matrix()
    }

    /// The whole value history, one row per cached token.
    pub fn v_matrix(&self) -> (r: Matrix<u32>)
        requires
            self.wf(),
        ensures
            r.spec_rows() == self.spec_n_cached(),
            r.spec_cols() == self.spec_k().spec_out_dim(),
            r@ == self.spec_v().spec_cache(),
    {
        self.v_cache.as_matrix()
    }

    /// Empty both caches.
    pub fn clear_cache(&mut self)
        requires
            old(self).wf(),
        ensures
            final(self).wf(),
            final(self).spec_n_cached() == 0,
            final(self).spec_k().spec_out_dim() == old(self).spec_k().spec_out_dim(),
    {
        self.k_cache.clear();
        self.v_cache.clear();
    }
}

/// The rotate-half permutation behind rotary embedding: row r of the
/// result is the second half of row r negated, then the first half.
/// The negation callback keeps the numeric work with the caller; the
/// permutation itself is verified.
pub fn rotate_half<T: Copy, F: Fn(T) -> T>(x: &Matrix<T>, neg: F) -> (r: Matrix<T>)
    requires
        x.spec_cols() % 2 == 0,
        forall|y: int, c: int|
            0 <= y < x.spec_rows() && x.spec_cols() / 2 <= c < x.spec_cols()
                ==> call_requires(neg, (x.el(y, c),)),
    ensures
        r.spec_rows() == x.spec_rows(),
        r.spec_cols() == x.spec_cols(),
        forall|y: int, c: int|
            0 <= y < x.spec_rows() && 0 <= c < x.spec_cols() / 2
                ==> call_ensures(neg, (x.el(y, c + x.spec_cols() / 2),), #[trigger] r.el(y, c)),
        forall|y: int, c: int|
            0 <= y < x.spec_rows() && x.spec_cols() / 2 <= c < x.spec_cols()
                ==> #[trigger] r.el(y, c) == x.el(y, c - x.spec_cols() / 2),
    {
    let _size = x.size();
    let rows = x.n_rows();
    let cols = x.n_cols();
    let half = cols / 2;
    proof {
        vstd::arithmetic::div_mod::lemma_fundamental_div_mod(cols as int, 2);
    }
    let data = x.data();
    let mut out: Vec<T> = Vec::new();
    let mut y: usize = 0;
    while y < rows
        invariant
            y <= rows,
            rows == x.spec_rows(),
            cols == x.spec_cols(),
            half == cols as int / 2,
            cols == 2 * half,
            data@ == x@,
            rows * cols == x@.len(),
            forall|y2: int, c2: int|
                0 <= y2 < rows && half <= c2 < cols ==> call_requires(neg, (x.el(y2, c2),)),
            out@.len() == y * cols,
            forall|y2: int, c2: int|
                0 <= y2 < y && 0 <= c2 < half
                    ==> call_ensures(neg, (x.el(y2, c2 + half),),
                        #[trigger] out@[y2 * (cols as int) + c2]),
            forall|y2: int, c2: int|
                0 <= y2 < y && half <= c2 < cols
                    ==> #[trigger] out@[y2 * (cols as int) + c2] == x.el(y2, c2 - half),
        decreases rows - y,
    {
        let mut c: usize = 0;
        while c < cols
            invariant
                c <= cols,
                y < rows,
                rows == x.spec_rows(),
                cols == x.spec_cols(),
                half == cols as int / 2,
                cols == 2 * half,
                data@ == x@,
                rows * cols == x@.len(),
                forall|y2: int, c2: int|
                    0 <= y2 < rows && half <= c2 < cols
                        ==> call_requires(neg, (x.el(y2, c2),)),
                out@.len() == y * cols + c,
                forall|y2: int, c2: int|
                    0 <= y2 < y && 0 <= c2 < half
                        ==> call_ensures(neg, (x.el(y2, c2 + half),),
                            #[trigger] out@[y2 * (cols as int) + c2]),
                forall|y2: int, c2: int|
                    0 <= y2 < y && half <= c2 < cols
                        ==> #[trigger] out@[y2 * (cols as int) + c2] == x.el(y2, c2 - half),
                forall|c2: int|
                    0 <= c2 < c && c2 < half
                        ==> call_ensures(neg, (x.el(y as int, c2 + half),),
                            #[trigger] out@[(y as int) * (cols as int) + c2]),
                forall|c2: int|
                    half <= c2 < c
                        ==> #[trigger] out@[(y as int) * (cols as int) + c2]
                            == x.el(y as int, c2 - half),
            decreases cols - c,
        {
            proof {
                assert(data.len() == data@.len());
                crate::matrix::lemma_index_bound(
                    rows as int, cols as int, y as int, c as int);
                assert forall|k: int, c2: int|
                    0 <= k < y && 0 <= c2 < cols implies
                    #[trigger] (k * (cols as int) + c2) < (y as int) * (cols as int) by {
                    crate::matrix::lemma_index_bound(y as int, cols as int, k, c2);
                }
            }
            if c < half {
                proof {
                    crate::matrix::lemma_index_bound(
                        rows as int, cols as int, y as int, (c + half) as int);
                    assert(data@[((y * cols) as int) + c + half]
                        == x.el(y as int, c as int + half));
                    assert(call_requires(neg, (x.el(y as int, c as int + half),)));
                }
                let v = neg(data[y * cols + c + half]);
                out.push(v);
            } else {
                proof {
                    assert(data@[((y * cols) as int) + c - half]
                        == x.el(y as int, c as int - half));
                }
                out.push(data[y * cols + (c - half)]);
            }
            c += 1;
        }
        y += 1;
        proof {
            assert(out@.len() == y * cols) by (nonlinear_arith)
                requires out@.len() == (y - 1) * cols + cols
            {}
        }
    }
    Matrix::new((rows, cols), out)
}

/// The sample parameters that cut one head's columns out of a packed
/// projection of `n_heads` heads: row stride the full width, column
/// stride one, offset at the head's first column.
pub fn get_proj_head(tokens_proj: &Matrix<u32>, head_dim: usize, head: usize)
    -> (r: Matrix<u32>)
    requires
        head_dim > 0,
        tokens_proj.spec_cols() == (tokens_proj.spec_cols() as int / head_dim as int)
            * (head_dim as int),
        head < tokens_proj.spec_cols() as int / head_dim as int,
    ensures
        r.spec_rows() == tokens_proj.spec_rows(),
        r.spec_cols() == head_dim,
        forall|y: int, x: int|
            0 <= y < tokens_proj.spec_rows() && 0 <= x < head_dim
                ==> r.el(y, x) == tokens_proj.el(y, (head * head_dim) as int + x),
    {
    let _size = tokens_proj.size();
    let n_tokens = tokens_proj.n_rows();
    let n_cols = tokens_proj.n_cols();
    let n_heads = n_cols / head_dim;
    proof {
        let w = tokens_proj.spec_cols() as int;
        let hd = head_dim as int;
        let nh = w / hd;
        assert forall|y: int, x: int|
            0 <= y < tokens_proj.spec_rows() && 0 <= x < hd implies
            #[trigger] (y * w + x) + (head as int) * hd < tokens_proj@.len() by {
            assert((head as int) * hd + x < nh * hd) by (nonlinear_arith)
                requires
                    0 <= x < hd,
                    0 <= (head as int) < nh,
                    0 < hd,
            {}
            crate::matrix::lemma_index_bound(
                tokens_proj.spec_rows() as int, w, y, (head as int) * hd + x);
        }
        assert((head as int) * (head_dim as int) < tokens_proj.spec_cols()) by (nonlinear_arith)
            requires
                0 <= (head as int),
                (head as int) < (tokens_proj.spec_cols() as int) / (head_dim as int),
                tokens_proj.spec_cols() == ((tokens_proj.spec_cols() as int)
                    / (head_dim as int)) * (head_dim as int),
                0 < (head_dim as int),
        {}
    }
    let r = tokens_proj.sample((n_tokens, head_dim), (n_cols, 1), head * head_dim);
    proof {
        assert forall|y: int, x: int|
            0 <= y < tokens_proj.spec_rows() && 0 <= x < head_dim implies
            r.el(y, x) == tokens_proj.el(y, (head * head_dim) as int + x) by {
            assert(r.el(y, x) == tokens_proj@[
                y * (tokens_proj.spec_cols() as int) + x * 1 + (head * head_dim) as int]);
        }
    }
    r
}

} // verus!
