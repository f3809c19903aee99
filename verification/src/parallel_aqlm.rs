use vstd::prelude::*;
use crate::codec::{
    AQLMForwardRequest, AddAQLMRequest, MatrixModel, RemoveAQLMRequest, Request, RequestModel,
    Response, ResponseModel, SerdeMatrix,
};
use crate::error::EngineError;
use crate::functional::{cat_row, row_views};
use crate::matrix::Matrix;
use crate::shard::{chunk_bounds, slice_codes, slice_range, spec_chunk_begin, spec_chunk_end,
    spec_slice_codes};

verus! {

/// The AddAQLM request that installs worker `idx`'s shard of an
/// operator: the scales and codes of its contiguous output range,
/// with the codebooks broadcast unchanged.
pub open spec fn spec_aqlm_shard_request(
    name: Seq<u8>,
    codebooks: Seq<u32>,
    scales: Seq<u32>,
    codes: Seq<u8>,
    out_dim: int,
    in_group_dim: int,
    n_workers: int,
    idx: int,
) -> RequestModel {
    let begin = spec_chunk_begin(out_dim, n_workers, idx);
    let end = spec_chunk_end(out_dim, n_workers, idx);
    RequestModel::AddAqlm {
        name,
        codebooks,
        scales: scales.subrange(begin, end),
        codes: spec_slice_codes(codes, out_dim, in_group_dim * 2, begin, end),
        out_dim: end - begin,
        in_group_dim,
    }
}

/// One AQLM operator split by output rows across a pool of workers.
/// The struct holds the operator's identity and partition; the
/// requests it builds carry the parameters to the workers.
pub struct ParallelAQLMLinear {
    name: Vec<u8>,
    out_dim: usize,
    in_group_dim: usize,
    n_workers: usize,
}

impl ParallelAQLMLinear {
    #[verifier::type_invariant]
    spec fn inv(self) -> bool {
        0 < self.n_workers && (self.in_group_dim as int) * 8 <= usize::MAX
    }

    pub closed spec fn spec_name(self) -> Seq<u8> {
        self.name@
    }

    pub closed spec fn spec_out_dim(self) -> int {
        self.out_dim as int
    }

    pub closed spec fn spec_in_group_dim(self) -> int {
        self.in_group_dim as int
    }

    pub closed spec fn spec_n_workers(self) -> int {
        self.n_workers as int
    }

    pub fn new(name: Vec<u8>, out_dim: usize, in_group_dim: usize, n_workers: usize)
        -> (r: Self)
        requires
            0 < n_workers,
            (in_group_dim as int) * 8 <= usize::MAX,
        ensures
            r.spec_name() == name@,
            r.spec_out_dim() == out_dim,
            r.spec_in_group_dim() == in_group_dim,
            r.spec_n_workers() == n_workers,
    {
        ParallelAQLMLinear { name, out_dim, in_group_dim, n_workers }
    }

    pub fn n_workers(&self) -> (r: usize)
        ensures
            r == self.spec_n_workers(),
            r > 0,
    {
        proof {
            use_type_invariant(self);
        }
        self.n_workers
    }

    /// The operator's shape: `out_dim` rows of `in_group_dim * 8`
    /// inputs each.
    pub fn shape(&self) -> (r: (usize, usize))
        ensures
            r.0 == self.spec_out_dim(),
            r.1 == self.spec_in_group_dim() * 8,
    {
        proof {
            use_type_invariant(self);
        }
        (self.out_dim, self.in_group_dim * 8)
    }

    /// The per-worker installation requests: worker `idx` receives the
    /// scales and codes of its own output range, and the codebooks
    /// whole. Together with the chunk-bound lemmas this carries the
    /// partition law: the shard output dimensions add up to `out_dim`.
    pub fn install_requests(
        &self,
        codebooks: &Vec<u32>,
        scales: &Vec<u32>,
        codes: &Vec<u8>,
    ) -> (r: Vec<Request>)
        requires
            scales@.len() == self.spec_out_dim(),
            codes@.len() == self.spec_in_group_dim() * 2 * self.spec_out_dim(),
        ensures
            r@.len() == self.spec_n_workers(),
            forall|i: int| 0 <= i < self.spec_n_workers()
                ==> (#[trigger] r@[i])@ == spec_aqlm_shard_request(
                    self.spec_name(), codebooks@, scales@, codes@, self.spec_out_dim(),
                    self.spec_in_group_dim(), self.spec_n_workers(), i),
    {
        proof {
            use_type_invariant(self);
        }
        let mut out: Vec<Request> = Vec::new();
        let mut idx: usize = 0;
        while idx < self.n_workers
            invariant
                idx <= self.n_workers,
                0 < self.n_workers,
                scales@.len() == self.spec_out_dim(),
                codes@.len() == self.spec_in_group_dim() * 2 * self.spec_out_dim(),
                out@.len() == idx,
                forall|i: int| 0 <= i < idx
                    ==> (#[trigger] out@[i])@ == spec_aqlm_shard_request(
                        self.spec_name(), codebooks@, scales@, codes@, self.spec_out_dim(),
                        self.spec_in_group_dim(), self.spec_n_workers(), i),
            decreases self.n_workers - idx,
        {
            let (begin, end) = chunk_bounds(self.out_dim, self.n_workers, idx);
            let chunk_scales = slice_range(scales, begin, end);
            let chunk_codes = slice_codes(codes, self.out_dim, self.in_group_dim, begin, end);
            out.push(Request::AddAQLMRequest(AddAQLMRequest {
                name: self.name.clone(),
                codebooks: codebooks.clone(),
                scales: chunk_scales,
                codes: chunk_codes,
                out_dim: end - begin,
                in_group_dim: self.in_group_dim,
            }));
            idx += 1;
        }
        out
    }

    /// The forward request that carries one input row to every shard.
    pub fn forward_request(&self, x: &Vec<u32>) -> (r: Request)
        ensures
            r@ == (RequestModel::AqlmForward {
                name: self.spec_name(),
                other: MatrixModel { rows: 1, cols: x@.len() as int, data: x@ },
            }),
    {
        Request::AQLMForwardRequest(AQLMForwardRequest {
            name: self.name.clone(),
            other: SerdeMatrix { data: x.clone(), shape: (1, x.len()) },
        })
    }

    /// The removal requests that uninstall the operator from each of
    /// its shards.
    pub fn remove_requests(&self) -> (r: Vec<Request>)
        ensures
            r@.len() == self.spec_n_workers(),
            forall|i: int| 0 <= i < self.spec_n_workers()
                ==> (#[trigger] r@[i])@ == (RequestModel::RemoveAqlm { name: self.spec_name() }),
    {
        proof {
            use_type_invariant(self);
        }
        let mut out: Vec<Request> = Vec::new();
        let mut idx: usize = 0;
        while idx < self.n_workers
            invariant
                idx <= self.n_workers,
                out@.len() == idx,
                forall|i: int| 0 <= i < idx
                    ==> (#[trigger] out@[i])@
                        == (RequestModel::RemoveAqlm { name: self.name@ }),
            decreases self.n_workers - idx,
        {
            out.push(Request::RemoveAQLMRequest(RemoveAQLMRequest {
                name: self.name.clone(),
            }));
            idx += 1;
        }
        out
    }
}

// ---------------------------------------------------------------------
// Reassembling shard replies into the operator's one-row output.
// ---------------------------------------------------------------------

/// Whether every reply is the paired forward-response kind.
pub open spec fn aqlm_reply_kinds_ok(rs: Seq<Response>) -> bool {
    forall|i: int| 0 <= i < rs.len()
        ==> (#[trigger] rs[i])@ matches ResponseModel::AqlmForward { .. }
}

/// Whether every reply carries a well-formed one-row chunk.
pub open spec fn aqlm_reply_shapes_ok(rs: Seq<Response>) -> bool {
    forall|i: int| 0 <= i < rs.len()
        ==> match (#[trigger] rs[i])@ {
            ResponseModel::AqlmForward { output } => output.rows == 1
                && output.cols == output.data.len(),
            _ => false,
        }
}

/// The chunk cells of each reply, in reply order.
pub open spec fn aqlm_reply_outputs(rs: Seq<Response>) -> Seq<Seq<u32>> {
    rs.map_values(
        |r: Response| match r@ {
            ResponseModel::AqlmForward { output } => output.data,
            _ => Seq::empty(),
        },
    )
}

/// Concatenate the shard replies of one fan-out, in handle order, into
/// the operator's single output row. A reply of the wrong kind is a
/// protocol failure; a reply whose matrix is not one well-formed row is
/// an invariant violation.
pub fn collect_aqlm_outputs(replies: &Vec<Response>) -> (r: Result<Matrix<u32>, EngineError>)
    requires
        replies@.len() > 0,
    ensures
        r matches Ok(m) ==> aqlm_reply_kinds_ok(replies@) && aqlm_reply_shapes_ok(replies@)
            && m.spec_rows() == 1 && m@ == aqlm_reply_outputs(replies@).flatten()
            && m.spec_cols() == m@.len(),
        !aqlm_reply_kinds_ok(replies@) ==> r == Err::<Matrix<u32>, EngineError>(
            EngineError::ProtocolFailed),
        aqlm_reply_kinds_ok(replies@) && !aqlm_reply_shapes_ok(replies@)
            ==> r == Err::<Matrix<u32>, EngineError>(EngineError::InvariantViolation),
        aqlm_reply_kinds_ok(replies@) && aqlm_reply_shapes_ok(replies@) ==> r is Ok,
    {
    let mut i: usize = 0;
    while i < replies.len()
        invariant
            i <= replies@.len(),
            forall|k: int| 0 <= k < i
                ==> (#[trigger] replies@[k])@ matches ResponseModel::AqlmForward { .. },
        decreases replies@.len() - i,
    {
        match &replies[i] {
            Response::AQLMForwardResponse(_) => {},
            _ => {
                return Err(EngineError::ProtocolFailed);
            },
        }
        i += 1;
    }
    let mut rows: Vec<Matrix<u32>> = Vec::new();
    let mut j: usize = 0;
    while j < replies.len()
        invariant
            j <= replies@.len(),
            rows@.len() == j,
            aqlm_reply_kinds_ok(replies@),
            forall|k: int| 0 <= k < j
                ==> ((#[trigger] replies@[k])@ matches ResponseModel::AqlmForward { output }
                    && output.rows == 1 && output.cols == output.data.len()),
            forall|k: int| 0 <= k < j
                ==> (#[trigger] rows@[k]).spec_rows() == 1
                    && rows@[k]@ == aqlm_reply_outputs(replies@)[k],
        decreases replies@.len() - j,
    {
        match &replies[j] {
            Response::AQLMForwardResponse(resp) => {
                let rows_cols = resp.output.shape;
                let len = resp.output.data.len();
                if rows_cols.0 != 1 || rows_cols.1 != len {
                    return Err(EngineError::InvariantViolation);
                }
                proof {
                    assert(resp.output.data.len() == resp.output.data@.len());
                    assert(1 * len == resp.output.data@.len()) by (nonlinear_arith)
                        requires len == resp.output.data@.len()
                    {}
                }
                rows.push(Matrix::from_slice((1, len), resp.output.data.as_slice()));
            },
            _ => {
                return Err(EngineError::ProtocolFailed);
            },
        }
        j += 1;
    }
    let out = cat_row(&rows);
    proof {
        assert(row_views(rows@) =~= aqlm_reply_outputs(replies@));
    }
    Ok(out)
}

} // verus!
