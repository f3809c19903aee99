use vstd::prelude::*;
use crate::codec::{
    AddINT8Request, INT8ForwardRequest, MatrixModel, Request, RequestModel, Response,
    ResponseModel, SerdeMatrix,
};
use crate::error::EngineError;
use crate::functional::{cat_row, row_views};
use crate::matrix::Matrix;
use crate::shard::{chunk_bounds, slice_range, spec_chunk_begin, spec_chunk_end};

verus! {

/// The AddINT8 request that installs worker `idx`'s shard of an
/// operator: the rows of its contiguous output range, with the
/// per-column scales broadcast unchanged.
pub open spec fn spec_int8_shard_request(
    name: Seq<u8>,
    max_values: Seq<u32>,
    int8_values: Seq<i8>,
    out_dim: int,
    in_dim: int,
    n_workers: int,
    idx: int,
) -> RequestModel {
    let begin = spec_chunk_begin(out_dim, n_workers, idx);
    let end = spec_chunk_end(out_dim, n_workers, idx);
    RequestModel::AddInt8 {
        name,
        max_values,
        int8_values: int8_values.subrange(begin * in_dim, end * in_dim),
    }
}

/// One INT8 operator split by output rows across a pool of workers.
pub struct ParallelINT8Linear {
    name: Vec<u8>,
    out_dim: usize,
    in_dim: usize,
}

impl ParallelINT8Linear {
    pub closed spec fn spec_name(self) -> Seq<u8> {
        self.name@
    }

    pub closed spec fn spec_out_dim(self) -> int {
        self.out_dim as int
    }

    pub closed spec fn spec_in_dim(self) -> int {
        self.in_dim as int
    }

    pub fn new(name: Vec<u8>, out_dim: usize, in_dim: usize) -> (r: Self)
        ensures
            r.spec_name() == name@,
            r.spec_out_dim() == out_dim,
            r.spec_in_dim() == in_dim,
    {
        ParallelINT8Linear { name, out_dim, in_dim }
    }

    pub fn shape(&self) -> (r: (usize, usize))
        ensures
            r.0 == self.spec_out_dim(),
            r.1 == self.spec_in_dim(),
    {
        (self.out_dim, self.in_dim)
    }

    /// The per-worker installation requests: worker `idx` receives the
    /// rows of its own output range and the scales whole.
    pub fn install_requests(
        &self,
        max_values: &Vec<u32>,
        int8_values: &Vec<i8>,
        n_workers: usize,
    ) -> (r: Vec<Request>)
        requires
            0 < n_workers,
            max_values@.len() == self.spec_in_dim(),
            int8_values@.len() == self.spec_out_dim() * self.spec_in_dim(),
        ensures
            r@.len() == n_workers,
            forall|i: int| 0 <= i < n_workers
                ==> (#[trigger] r@[i])@ == spec_int8_shard_request(
                    self.spec_name(), max_values@, int8_values@, self.spec_out_dim(),
                    self.spec_in_dim(), n_workers as int, i),
    {
        let mut out: Vec<Request> = Vec::new();
        let mut idx: usize = 0;
        while idx < n_workers
            invariant
                idx <= n_workers,
                0 < n_workers,
                max_values@.len() == self.spec_in_dim(),
                int8_values@.len() == self.spec_out_dim() * self.spec_in_dim(),
                out@.len() == idx,
                forall|i: int| 0 <= i < idx
                    ==> (#[trigger] out@[i])@ == spec_int8_shard_request(
                        self.spec_name(), max_values@, int8_values@, self.spec_out_dim(),
                        self.spec_in_dim(), n_workers as int, i),
            decreases n_workers - idx,
        {
            let (begin, end) = chunk_bounds(self.out_dim, n_workers, idx);
            proof {
                assert((begin as int) * (self.in_dim as int)
                    <= (end as int) * (self.in_dim as int)
                    && (end as int) * (self.in_dim as int)
                        <= (self.out_dim as int) * (self.in_dim as int))
                    by (nonlinear_arith)
                    requires
                        0 <= begin as int <= end as int <= self.out_dim as int,
                        0 <= self.in_dim as int,
                {}
                assert(int8_values.len() == int8_values@.len());
            }
            let chunk_values = slice_range(int8_values, begin * self.in_dim, end * self.in_dim);
            out.push(Request::AddINT8Request(AddINT8Request {
                name: self.name.clone(),
                max_values: max_values.clone(),
                int8_values: chunk_values,
            }));
            idx += 1;
        }
        out
    }

    /// The forward request that carries one input row to every shard.
    pub fn forward_request(&self, x: &Vec<u32>) -> (r: Request)
        ensures
            r@ == (RequestModel::Int8Forward {
                name: self.spec_name(),
                other: MatrixModel { rows: 1, cols: x@.len() as int, data: x@ },
            }),
    {
        Request::INT8ForwardRequest(INT8ForwardRequest {
            name: self.name.clone(),
            other: SerdeMatrix { data: x.clone(), shape: (1, x.len()) },
        })
    }
}

/// Whether every reply is the paired forward-response kind.
pub open spec fn int8_reply_kinds_ok(rs: Seq<Response>) -> bool {
    forall|i: int| 0 <= i < rs.len()
        ==> (#[trigger] rs[i])@ matches ResponseModel::Int8Forward { .. }
}

/// Whether every reply carries a well-formed one-row chunk.
pub open spec fn int8_reply_shapes_ok(rs: Seq<Response>) -> bool {
    forall|i: int| 0 <= i < rs.len()
        ==> match (#[trigger] rs[i])@ {
            ResponseModel::Int8Forward { output } => output.rows == 1
                && output.cols == output.data.len(),
            _ => false,
        }
}

/// The chunk cells of each reply, in reply order.
pub open spec fn int8_reply_outputs(rs: Seq<Response>) -> Seq<Seq<u32>> {
    rs.map_values(
        |r: Response| match r@ {
            ResponseModel::Int8Forward { output } => output.data,
            _ => Seq::empty(),
        },
    )
}

/// Concatenate the shard replies of one fan-out, in handle order, into
/// the operator's single output row.
pub fn collect_int8_outputs(replies: &Vec<Response>) -> (r: Result<Matrix<u32>, EngineError>)
    requires
        replies@.len() > 0,
    ensures
        r matches Ok(m) ==> int8_reply_kinds_ok(replies@) && int8_reply_shapes_ok(replies@)
            && m.spec_rows() == 1 && m@ == int8_reply_outputs(replies@).flatten()
            && m.spec_cols() == m@.len(),
        !int8_reply_kinds_ok(replies@) ==> r == Err::<Matrix<u32>, EngineError>(
            EngineError::ProtocolFailed),
        int8_reply_kinds_ok(replies@) && !int8_reply_shapes_ok(replies@)
            ==> r == Err::<Matrix<u32>, EngineError>(EngineError::InvariantViolation),
        int8_reply_kinds_ok(replies@) && int8_reply_shapes_ok(replies@) ==> r is Ok,
    {
    let mut i: usize = 0;
    while i < replies.len()
        invariant
            i <= replies@.len(),
            forall|k: int| 0 <= k < i
                ==> (#[trigger] replies@[k])@ matches ResponseModel::Int8Forward { .. },
        decreases replies@.len() - i,
    {
        match &replies[i] {
            Response::INT8ForwardResponse(_) => {},
            _ => {
                return Err(EngineError::ProtocolFailed);
            },
        }
        i += 1;
    }
    let mut rows: Vec<Matrix<u32>> = Vec::new();
    let mut j: usize = 0;
    while j < replies.len()
        invariant
            j <= replies@.len(),
            rows@.len() == j,
            int8_reply_kinds_ok(replies@),
            forall|k: int| 0 <= k < j
                ==> ((#[trigger] replies@[k])@ matches ResponseModel::Int8Forward { output }
                    && output.rows == 1 && output.cols == output.data.len()),
            forall|k: int| 0 <= k < j
                ==> (#[trigger] rows@[k]).spec_rows() == 1
                    && rows@[k]@ == int8_reply_outputs(replies@)[k],
        decreases replies@.len() - j,
    {
        match &replies[j] {
            Response::INT8ForwardResponse(resp) => {
                let rows_cols = resp.output.shape;
                let len = resp.output.data.len();
                if rows_cols.0 != 1 || rows_cols.1 != len {
                    return Err(EngineError::InvariantViolation);
                }
                proof {
                    assert(resp.output.data.len() == resp.output.data@.len());
                    assert(1 * len == resp.output.data@.len()) by (nonlinear_arith)
                        requires len == resp.output.data@.len()
                    {}
                }
                rows.push(Matrix::from_slice((1, len), resp.output.data.as_slice()));
            },
            _ => {
                return Err(EngineError::ProtocolFailed);
            },
        }
        j += 1;
    }
    let out = cat_row(&rows);
    proof {
        assert(row_views(rows@) =~= int8_reply_outputs(replies@));
    }
    Ok(out)
}

} // verus!
