use vstd::prelude::*;
use crate::codec::{Request, RequestModel, Response};
use crate::error::EngineError;
use crate::linear_aqlm::AqlmModel;
use crate::matrix_int8::Int8Model;
use crate::registry::LocalLinearRegistry;

verus! {

/// The worker-side server: it owns the operator registry and carries
/// out the requests of the coordinator. Installation and removal are
/// decided here; the numeric forward work is handed to the caller with
/// the operator looked up from the same registry.
pub struct RPCLinearRegistryServer {
    inner: LocalLinearRegistry,
}

impl RPCLinearRegistryServer {
    pub closed spec fn spec_aqlm(&self, k: Seq<u8>) -> Option<AqlmModel> {
        self.inner.spec_aqlm(k)
    }

    pub closed spec fn spec_int8(&self, k: Seq<u8>) -> Option<Int8Model> {
        self.inner.spec_int8(k)
    }

    /// Whether an installation or removal request can be carried out:
    /// its parameter sizes are consistent, and a removal names an
    /// installed operator.
    pub open spec fn spec_control_ok(&self, req: RequestModel) -> bool {
        match req {
            RequestModel::AddAqlm { codebooks, scales, codes, out_dim, in_group_dim, .. } => {
                &&& codes.len() == in_group_dim * 2 * out_dim
                &&& scales.len() == out_dim
                &&& in_group_dim * 8 <= usize::MAX
            },
            RequestModel::AddInt8 { max_values, int8_values, .. } => {
                &&& max_values.len() > 0
                &&& int8_values.len() % max_values.len() == 0
            },
            RequestModel::RemoveAqlm { name } => self.spec_aqlm(name) is Some,
            _ => false,
        }
    }

    pub fn new() -> (r: Self)
        ensures
            forall|k: Seq<u8>| r.spec_aqlm(k) is None,
            forall|k: Seq<u8>| r.spec_int8(k) is None,
    {
        RPCLinearRegistryServer { inner: LocalLinearRegistry::new() }
    }

    /// The registry, for the caller to resolve forward requests
    /// against.
    pub fn registry(&self) -> (r: &LocalLinearRegistry)
        ensures
            forall|k: Seq<u8>| #[trigger] r.spec_aqlm(k) == self.spec_aqlm(k),
            forall|k: Seq<u8>| #[trigger] r.spec_int8(k) == self.spec_int8(k),
    {
        &self.inner
    }

    /// Carry out one installation or removal request and answer with
    /// its paired response kind. A request whose parameter sizes are
    /// inconsistent, or that removes an operator that is not
    /// installed, breaks an internal invariant and is refused.
    pub fn serve_control(&mut self, req: Request) -> (r: Result<Response, EngineError>)
        requires
            !(req@ matches RequestModel::AqlmForward { .. }),
            !(req@ matches RequestModel::Int8Forward { .. }),
        ensures
            r is Ok <==> old(self).spec_control_ok(req@),
            r is Err ==> r == Err::<Response, EngineError>(EngineError::InvariantViolation)
                && (forall|k: Seq<u8>| #[trigger] final(self).spec_aqlm(k)
                    == old(self).spec_aqlm(k))
                && (forall|k: Seq<u8>| #[trigger] final(self).spec_int8(k)
                    == old(self).spec_int8(k)),
            r matches Ok(resp) ==> crate::codec::spec_response_matches(req@, resp@),
            req@ matches RequestModel::AddAqlm {
                name, codebooks, scales, codes, out_dim, in_group_dim }
                ==> (r is Ok ==> final(self).spec_aqlm(name) == (Some(AqlmModel {
                        codebooks, scales, codes, out_dim, in_group_dim }))
                    && (forall|k: Seq<u8>| k != name ==> #[trigger] final(self).spec_aqlm(k)
                        == old(self).spec_aqlm(k))
                    && (forall|k: Seq<u8>| #[trigger] final(self).spec_int8(k)
                        == old(self).spec_int8(k))),
            req@ matches RequestModel::AddInt8 { name, max_values, int8_values }
                ==> (r is Ok ==> final(self).spec_int8(name)
                        == (Some(Int8Model { max_values, int8_values }))
                    && (forall|k: Seq<u8>| k != name ==> #[trigger] final(self).spec_int8(k)
                        == old(self).spec_int8(k))
                    && (forall|k: Seq<u8>| #[trigger] final(self).spec_aqlm(k)
                        == old(self).spec_aqlm(k))),
            req@ matches RequestModel::RemoveAqlm { name }
                ==> (r is Ok ==> final(self).spec_aqlm(name) is None
                    && (forall|k: Seq<u8>| k != name ==> #[trigger] final(self).spec_aqlm(k)
                        == old(self).spec_aqlm(k))
                    && (forall|k: Seq<u8>| #[trigger] final(self).spec_int8(k)
                        == old(self).spec_int8(k))),
    {
        match req {
            Request::AddAQLMRequest(q) => {
                let n_codes = q.codes.len();
                let n_scales = q.scales.len();
                let sizes_ok = match q.in_group_dim.checked_mul(2) {
                    Some(g2) => match g2.checked_mul(q.out_dim) {
                        Some(total) => n_codes == total && n_scales == q.out_dim
                            && q.in_group_dim.checked_mul(8).is_some(),
                        None => false,
                    },
                    None => false,
                };
                if sizes_ok {
                    proof {
                        assert(q.codes@.len()
                            == (q.in_group_dim as int) * 2 * (q.out_dim as int));
                    }
                    self.inner.add_aqlm(
                        q.name, q.codebooks, q.scales, q.codes, q.out_dim, q.in_group_dim);
                    Ok(Response::AddAQLMResponse)
                } else {
                    proof {
                        assert(!self.spec_control_ok(req@)) by {
                            if (q.in_group_dim as int) * 2 * (q.out_dim as int)
                                <= usize::MAX && (q.in_group_dim as int) * 8 <= usize::MAX {
                                assert((q.in_group_dim as int) * 2 <= usize::MAX)
                                    by (nonlinear_arith)
                                    requires
                                        (q.in_group_dim as int) * 8 <= usize::MAX,
                                        0 <= q.in_group_dim as int,
                                {}
                            }
                        }
                    }
                    Err(EngineError::InvariantViolation)
                }
            },
            Request::AddINT8Request(q) => {
                let cols = q.max_values.len();
                if cols > 0 && q.int8_values.len() % cols == 0 {
                    self.inner.add_int8(q.name, q.max_values, q.int8_values);
                    Ok(Response::AddINT8Response)
                } else {
                    Err(EngineError::InvariantViolation)
                }
            },
            Request::RemoveAQLMRequest(q) => {
                let was_there = self.inner.remove_aqlm(&q.name);
                if was_there {
                    Ok(Response::RemoveAQLMResponse)
                } else {
                    Err(EngineError::InvariantViolation)
                }
            },
            Request::AQLMForwardRequest(_) => Err(EngineError::InvariantViolation),
            Request::INT8ForwardRequest(_) => Err(EngineError::InvariantViolation),
        }
    }
}

} // verus!
