use vstd::prelude::*;

verus! {

// ---------------------------------------------------------------------
// Partitioning an operator's output rows into contiguous per-worker
// chunks: every worker gets out_dim / n_workers rows, and the last
// chunk absorbs the remainder.
// ---------------------------------------------------------------------

pub open spec fn spec_chunk_begin(out_dim: int, n_workers: int, idx: int) -> int {
    idx * (out_dim / n_workers)
}

pub open spec fn spec_chunk_end(out_dim: int, n_workers: int, idx: int) -> int {
    if idx == n_workers - 1 {
        out_dim
    } else {
        (idx + 1) * (out_dim / n_workers)
    }
}

/// Chunk bounds are ordered and stay inside the operator.
pub proof fn lemma_chunk_bounds(out_dim: int, n_workers: int, idx: int)
    by (nonlinear_arith)
    requires
        0 < n_workers,
        0 <= out_dim,
        0 <= idx < n_workers,
    ensures
        0 <= spec_chunk_begin(out_dim, n_workers, idx),
        spec_chunk_begin(out_dim, n_workers, idx) <= spec_chunk_end(out_dim, n_workers, idx),
        spec_chunk_end(out_dim, n_workers, idx) <= out_dim,
{
    assert(0 <= out_dim / n_workers);
    assert(n_workers * (out_dim / n_workers) <= out_dim);
    assert(idx * (out_dim / n_workers) <= (idx + 1) * (out_dim / n_workers));
    assert((idx + 1) * (out_dim / n_workers) <= n_workers * (out_dim / n_workers));
}

/// The chunk sizes of the first `k` workers, added up.
pub open spec fn spec_chunk_sizes_sum(out_dim: int, n_workers: int, k: int) -> int
    decreases k,
{
    if k <= 0 {
        0
    } else {
        spec_chunk_sizes_sum(out_dim, n_workers, k - 1)
            + (spec_chunk_end(out_dim, n_workers, k - 1)
                - spec_chunk_begin(out_dim, n_workers, k - 1))
    }
}

proof fn lemma_chunk_sizes_sum_partial(out_dim: int, n_workers: int, k: int)
    requires
        0 < n_workers,
        0 <= out_dim,
        0 <= k <= n_workers - 1,
    ensures
        spec_chunk_sizes_sum(out_dim, n_workers, k) == k * (out_dim / n_workers),
    decreases k,
{
    if k == 0 {
    } else {
        lemma_chunk_sizes_sum_partial(out_dim, n_workers, k - 1);
        assert((k - 1) * (out_dim / n_workers) + (out_dim / n_workers)
            == k * (out_dim / n_workers)) by (nonlinear_arith)
        {}
    }
}

/// The chunk sizes over all workers add up to the operator's output
/// dimension: no output row is lost or duplicated by the fan-out.
pub proof fn lemma_chunks_cover(out_dim: int, n_workers: int)
    requires
        0 < n_workers,
        0 <= out_dim,
    ensures
        spec_chunk_sizes_sum(out_dim, n_workers, n_workers) == out_dim,
{
    lemma_chunk_sizes_sum_partial(out_dim, n_workers, n_workers - 1);
    lemma_chunk_bounds(out_dim, n_workers, n_workers - 1);
}

/// The concatenation of the chunk ranges of the first `k` workers,
/// cut out of a buffer with one cell per output row.
pub open spec fn spec_chunk_concat<T>(s: Seq<T>, n_workers: int, k: int) -> Seq<T>
    decreases k,
{
    if k <= 0 {
        Seq::empty()
    } else {
        spec_chunk_concat(s, n_workers, k - 1) + s.subrange(
            spec_chunk_begin(s.len() as int, n_workers, k - 1),
            spec_chunk_end(s.len() as int, n_workers, k - 1),
        )
    }
}

proof fn lemma_chunk_concat_prefix<T>(s: Seq<T>, n_workers: int, k: int)
    requires
        0 < n_workers,
        0 <= k <= n_workers,
    ensures
        spec_chunk_concat(s, n_workers, k)
            == s.subrange(0, if k == 0 { 0 } else { spec_chunk_end(s.len() as int, n_workers, k - 1) }),
    decreases k,
{
    let len = s.len() as int;
    if k == 0 {
        assert(s.subrange(0, 0) =~= Seq::<T>::empty());
    } else {
        lemma_chunk_concat_prefix(s, n_workers, k - 1);
        lemma_chunk_bounds(len, n_workers, k - 1);
        let b = spec_chunk_begin(len, n_workers, k - 1);
        let e = spec_chunk_end(len, n_workers, k - 1);
        if k == 1 {
            assert(b == 0) by (nonlinear_arith)
                requires b == 0 * (len / n_workers)
            {}
            assert(spec_chunk_concat(s, n_workers, 1) =~= s.subrange(0, e));
        } else {
            assert(spec_chunk_end(len, n_workers, k - 2) == b);
            assert(s.subrange(0, b) + s.subrange(b, e) =~= s.subrange(0, e));
        }
    }
}

/// Reassembling the fan-out: concatenating every worker's chunk of a
/// buffer, in worker order, gives the buffer back. This is the
/// partition half of the law that a sharded forward agrees with the
/// single-shard forward; the numeric half lives with the kernels.
pub proof fn lemma_chunk_concat_covers<T>(s: Seq<T>, n_workers: int)
    requires
        0 < n_workers,
    ensures
        spec_chunk_concat(s, n_workers, n_workers) == s,
{
    lemma_chunk_concat_prefix(s, n_workers, n_workers);
    assert(s.subrange(0, s.len() as int) =~= s);
}

/// The executable bounds of one worker's chunk.
pub fn chunk_bounds(out_dim: usize, n_workers: usize, idx: usize) -> (r: (usize, usize))
    requires
        0 < n_workers,
        idx < n_workers,
    ensures
        r.0 == spec_chunk_begin(out_dim as int, n_workers as int, idx as int),
        r.1 == spec_chunk_end(out_dim as int, n_workers as int, idx as int),
        r.0 <= r.1 <= out_dim,
{
    proof {
        lemma_chunk_bounds(out_dim as int, n_workers as int, idx as int);
        assert((idx as int) * ((out_dim / n_workers) as int)
            == (idx * (out_dim / n_workers)) as int) by (nonlinear_arith)
            requires
                0 <= idx < n_workers as int,
                0 < n_workers,
                (idx as int) * ((out_dim as int) / (n_workers as int)) <= out_dim,
                (out_dim / n_workers) as int == (out_dim as int) / (n_workers as int),
        {}
    }
    let chunk_size = out_dim / n_workers;
    let begin = idx * chunk_size;
    let end = if idx == n_workers - 1 {
        out_dim
    } else {
        proof {
            lemma_chunk_bounds(out_dim as int, n_workers as int, idx as int);
        }
        (idx + 1) * chunk_size
    };
    (begin, end)
}

/// A contiguous range of a buffer, copied out.
pub fn slice_range<T: Copy>(v: &Vec<T>, begin: usize, end: usize) -> (r: Vec<T>)
    requires
        begin <= end <= v@.len(),
    ensures
        r@ == v@.subrange(begin as int, end as int),
{
    let mut out: Vec<T> = Vec::new();
    let mut i: usize = begin;
    while i < end
        invariant
            begin <= i <= end <= v@.len(),
            out@ == v@.subrange(begin as int, i as int),
        decreases end - i,
    {
        out.push(v[i]);
        proof {
            assert(v@.subrange(begin as int, i + 1)
                =~= v@.subrange(begin as int, i as int).push(v@[i as int]));
        }
        i += 1;
    }
    out
}

// ---------------------------------------------------------------------
// Slicing packed AQLM codes by output range. The codes of an operator
// are laid out as codes[(g * 2 + b) * out_dim + o] over input group g,
// codebook b and output o; a shard keeps the same layout over its own
// output range.
// ---------------------------------------------------------------------

/// The codes of the output range [begin, end), in the packed layout.
pub open spec fn spec_slice_codes(
    codes: Seq<u8>,
    out_dim: int,
    n_groups: int,
    begin: int,
    end: int,
) -> Seq<u8> {
    Seq::new(
        (n_groups * (end - begin)) as nat,
        |k: int| codes[(k / (end - begin)) * out_dim + begin + k % (end - begin)],
    )
}

pub fn slice_codes(
    codes: &Vec<u8>,
    out_dim: usize,
    in_group_dim: usize,
    begin: usize,
    end: usize,
) -> (r: Vec<u8>)
    requires
        begin <= end <= out_dim,
        codes@.len() == (in_group_dim as int) * 2 * (out_dim as int),
    ensures
        r@ == spec_slice_codes(
            codes@, out_dim as int, (in_group_dim as int) * 2, begin as int, end as int),
        r@.len() == (in_group_dim as int) * 2 * ((end - begin) as int),
        forall|g: int, j: int|
            0 <= g < (in_group_dim as int) * 2 && 0 <= j < end - begin
                ==> #[trigger] r@[g * ((end - begin) as int) + j]
                    == codes@[g * (out_dim as int) + begin + j],
{
    let width = end - begin;
    if width == 0 {
        let out: Vec<u8> = Vec::new();
        proof {
            assert((in_group_dim as int) * 2 * ((end - begin) as int) == 0) by (nonlinear_arith)
                requires (end - begin) as int == 0
            {}
            assert(out@ =~= spec_slice_codes(
                codes@, out_dim as int, (in_group_dim as int) * 2, begin as int, end as int));
        }
        return out;
    }
    proof {
        assert(codes.len() == codes@.len());
        assert((in_group_dim as int) * 2 <= codes@.len()
            && 0 <= (in_group_dim as int) * 2) by (nonlinear_arith)
            requires
                codes@.len() == (in_group_dim as int) * 2 * (out_dim as int),
                1 <= out_dim as int,
                0 <= in_group_dim as int,
        {}
    }
    let n_groups: usize = in_group_dim * 2;
    let ghost target = spec_slice_codes(
        codes@, out_dim as int, (in_group_dim as int) * 2, begin as int, end as int);
    let mut out: Vec<u8> = Vec::new();
    let mut g: usize = 0;
    while g < n_groups
        invariant
            g <= n_groups,
            n_groups == (in_group_dim as int) * 2,
            begin <= end <= out_dim,
            end - begin == width,
            codes@.len() == (in_group_dim as int) * 2 * (out_dim as int),
            target == spec_slice_codes(
                codes@, out_dim as int, (in_group_dim as int) * 2, begin as int, end as int),
            out@.len() == g * width,
            forall|i: int| 0 <= i < g * width ==> out@[i] == target[i],
        decreases n_groups - g,
    {
        let mut j: usize = 0;
        while j < width
            invariant
                j <= width,
                g < n_groups,
                n_groups == (in_group_dim as int) * 2,
                begin <= end <= out_dim,
                end - begin == width,
                codes@.len() == (in_group_dim as int) * 2 * (out_dim as int),
                target == spec_slice_codes(
                    codes@, out_dim as int, (in_group_dim as int) * 2, begin as int,
                    end as int),
                out@.len() == g * width + j,
                forall|i: int| 0 <= i < g * width + j ==> out@[i] == target[i],
            decreases width - j,
        {
            proof {
                assert(codes.len() == codes@.len());
                crate::matrix::lemma_index_bound(
                    n_groups as int, out_dim as int, g as int, (begin + j) as int);
                crate::matrix::lemma_index_bound(
                    n_groups as int, width as int, g as int, j as int);
                let k = (g as int) * (width as int) + (j as int);
                assert(k / (width as int) == g && k % (width as int) == j)
                    by (nonlinear_arith)
                    requires
                        0 < width as int,
                        0 <= j < width as int,
                        0 <= g,
                        k == (g as int) * (width as int) + (j as int),
                {}
                assert(target[k] == codes@[(g as int) * (out_dim as int) + begin + j]);
            }
            out.push(codes[g * out_dim + begin + j]);
            j += 1;
        }
        g += 1;
        proof {
            assert(out@.len() == g * width) by (nonlinear_arith)
                requires out@.len() == (g - 1) * width + width
            {}
        }
    }
    proof {
        assert(out@ =~= target);
        assert forall|g2: int, j2: int|
            0 <= g2 < (in_group_dim as int) * 2 && 0 <= j2 < end - begin implies
            #[trigger] out@[g2 * ((end - begin) as int) + j2]
                == codes@[g2 * (out_dim as int) + begin + j2] by {
            crate::matrix::lemma_index_bound(
                (in_group_dim as int) * 2, (end - begin) as int, g2, j2);
            let k = g2 * ((end - begin) as int) + j2;
            assert(k / ((end - begin) as int) == g2 && k % ((end - begin) as int) == j2)
                by (nonlinear_arith)
                requires
                    0 < (end - begin) as int,
                    0 <= j2 < (end - begin) as int,
                    0 <= g2,
                    k == g2 * ((end - begin) as int) + j2,
            {}
        }
    }
    out
}

} // verus!
