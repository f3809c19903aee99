use vstd::prelude::*;
use crate::error::EngineError;
use crate::wire::{
    dec_bytes, dec_i8s, dec_u32s, dec_u64, enc_bytes, enc_i8s, enc_u32s, enc_u64,
    lemma_dec_bytes_of_enc, lemma_dec_i8s_of_enc, lemma_dec_u32s_of_enc, lemma_dec_u64_of_enc,
    lemma_peel, spec_dec_bytes, spec_dec_i8s, spec_dec_u32s, spec_dec_u64, spec_enc_bytes,
    spec_enc_i8s, spec_enc_u32s,
};
use vstd::bytes::spec_u64_to_le_bytes;

verus! {

// ---------------------------------------------------------------------
// Wire data. A matrix travels as its shape and its cells; a numeric
// cell is carried as the 32-bit pattern of the value, which the codec
// moves without interpreting.
// ---------------------------------------------------------------------

/// A matrix as it travels on the wire.
#[derive(Debug)]
pub struct SerdeMatrix {
    pub data: Vec<u32>,
    pub shape: (usize, usize),
}

/// The mathematical image of a wire matrix.
pub struct MatrixModel {
    pub rows: int,
    pub cols: int,
    pub data: Seq<u32>,
}

impl View for SerdeMatrix {
    type V = MatrixModel;

    open spec fn view(&self) -> MatrixModel {
        MatrixModel { rows: self.shape.0 as int, cols: self.shape.1 as int, data: self.data@ }
    }
}

impl MatrixModel {
    pub open spec fn wf(self) -> bool {
        &&& 0 <= self.rows <= usize::MAX
        &&& 0 <= self.cols <= usize::MAX
        &&& self.data.len() <= usize::MAX
    }
}

// ---------------------------------------------------------------------
// The request and response schema: five requests, each with exactly one
// paired response kind.
// ---------------------------------------------------------------------

#[derive(Debug)]
pub struct AddAQLMRequest {
    pub name: Vec<u8>,
    pub codebooks: Vec<u32>,
    pub scales: Vec<u32>,
    pub codes: Vec<u8>,
    pub out_dim: usize,
    pub in_group_dim: usize,
}

#[derive(Debug)]
pub struct AddINT8Request {
    pub name: Vec<u8>,
    pub max_values: Vec<u32>,
    pub int8_values: Vec<i8>,
}

#[derive(Debug)]
pub struct RemoveAQLMRequest {
    pub name: Vec<u8>,
}

#[derive(Debug)]
pub struct AQLMForwardRequest {
    pub name: Vec<u8>,
    pub other: SerdeMatrix,
}

#[derive(Debug)]
pub struct INT8ForwardRequest {
    pub name: Vec<u8>,
    pub other: SerdeMatrix,
}

#[derive(Debug)]
pub enum Request {
    AddAQLMRequest(AddAQLMRequest),
    AddINT8Request(AddINT8Request),
    RemoveAQLMRequest(RemoveAQLMRequest),
    AQLMForwardRequest(AQLMForwardRequest),
    INT8ForwardRequest(INT8ForwardRequest),
}

#[derive(Debug)]
pub struct AQLMForwardResponse {
    pub output: SerdeMatrix,
}

#[derive(Debug)]
pub struct INT8ForwardResponse {
    pub output: SerdeMatrix,
}

#[derive(Debug)]
pub enum Response {
    AddAQLMResponse,
    AddINT8Response,
    RemoveAQLMResponse,
    AQLMForwardResponse(AQLMForwardResponse),
    INT8ForwardResponse(INT8ForwardResponse),
}

/// The mathematical image of a request.
pub enum RequestModel {
    AddAqlm {
        name: Seq<u8>,
        codebooks: Seq<u32>,
        scales: Seq<u32>,
        codes: Seq<u8>,
        out_dim: int,
        in_group_dim: int,
    },
    AddInt8 { name: Seq<u8>, max_values: Seq<u32>, int8_values: Seq<i8> },
    RemoveAqlm { name: Seq<u8> },
    AqlmForward { name: Seq<u8>, other: MatrixModel },
    Int8Forward { name: Seq<u8>, other: MatrixModel },
}

/// The mathematical image of a response.
pub enum ResponseModel {
    AddAqlm,
    AddInt8,
    RemoveAqlm,
    AqlmForward { output: MatrixModel },
    Int8Forward { output: MatrixModel },
}

impl View for Request {
    type V = RequestModel;

    open spec fn view(&self) -> RequestModel {
        match self {
            Request::AddAQLMRequest(r) => RequestModel::AddAqlm {
                name: r.name@,
                codebooks: r.codebooks@,
                scales: r.scales@,
                codes: r.codes@,
                out_dim: r.out_dim as int,
                in_group_dim: r.in_group_dim as int,
            },
            Request::AddINT8Request(r) => RequestModel::AddInt8 {
                name: r.name@,
                max_values: r.max_values@,
                int8_values: r.int8_values@,
            },
            Request::RemoveAQLMRequest(r) => RequestModel::RemoveAqlm { name: r.name@ },
            Request::AQLMForwardRequest(r) => RequestModel::AqlmForward {
                name: r.name@,
                other: r.other@,
            },
            Request::INT8ForwardRequest(r) => RequestModel::Int8Forward {
                name: r.name@,
                other: r.other@,
            },
        }
    }
}

impl View for Response {
    type V = ResponseModel;

    open spec fn view(&self) -> ResponseModel {
        match self {
            Response::AddAQLMResponse => ResponseModel::AddAqlm,
            Response::AddINT8Response => ResponseModel::AddInt8,
            Response::RemoveAQLMResponse => ResponseModel::RemoveAqlm,
            Response::AQLMForwardResponse(r) => ResponseModel::AqlmForward { output: r.output@ },
            Response::INT8ForwardResponse(r) => ResponseModel::Int8Forward { output: r.output@ },
        }
    }
}

impl RequestModel {
    /// The lengths and dimensions a request can carry in memory.
    pub open spec fn wf(self) -> bool {
        match self {
            RequestModel::AddAqlm { name, codebooks, scales, codes, out_dim, in_group_dim } => {
                &&& name.len() <= usize::MAX
                &&& codebooks.len() <= usize::MAX
                &&& scales.len() <= usize::MAX
                &&& codes.len() <= usize::MAX
                &&& 0 <= out_dim <= usize::MAX
                &&& 0 <= in_group_dim <= usize::MAX
            },
            RequestModel::AddInt8 { name, max_values, int8_values } => {
                &&& name.len() <= usize::MAX
                &&& max_values.len() <= usize::MAX
                &&& int8_values.len() <= usize::MAX
            },
            RequestModel::RemoveAqlm { name } => name.len() <= usize::MAX,
            RequestModel::AqlmForward { name, other } => name.len() <= usize::MAX && other.wf(),
            RequestModel::Int8Forward { name, other } => name.len() <= usize::MAX && other.wf(),
        }
    }
}

impl ResponseModel {
    pub open spec fn wf(self) -> bool {
        match self {
            ResponseModel::AqlmForward { output } => output.wf(),
            ResponseModel::Int8Forward { output } => output.wf(),
            _ => true,
        }
    }
}

/// Every response kind answers exactly one request kind.
pub open spec fn spec_response_matches(req: RequestModel, resp: ResponseModel) -> bool {
    match (req, resp) {
        (RequestModel::AddAqlm { .. }, ResponseModel::AddAqlm) => true,
        (RequestModel::AddInt8 { .. }, ResponseModel::AddInt8) => true,
        (RequestModel::RemoveAqlm { .. }, ResponseModel::RemoveAqlm) => true,
        (RequestModel::AqlmForward { .. }, ResponseModel::AqlmForward { .. }) => true,
        (RequestModel::Int8Forward { .. }, ResponseModel::Int8Forward { .. }) => true,
        _ => false,
    }
}

pub fn response_matches_request(req: &Request, resp: &Response) -> (r: bool)
    ensures
        r == spec_response_matches(req@, resp@),
{
    match (req, resp) {
        (Request::AddAQLMRequest(_), Response::AddAQLMResponse) => true,
        (Request::AddINT8Request(_), Response::AddINT8Response) => true,
        (Request::RemoveAQLMRequest(_), Response::RemoveAQLMResponse) => true,
        (Request::AQLMForwardRequest(_), Response::AQLMForwardResponse(_)) => true,
        (Request::INT8ForwardRequest(_), Response::INT8ForwardResponse(_)) => true,
        _ => false,
    }
}

// ---------------------------------------------------------------------
// Spec-level encoding: a tag byte, then the fields in declaration
// order, each in its primitive layout.
// ---------------------------------------------------------------------

pub const TAG_ADD_AQLM: u8 = 1;

pub const TAG_ADD_INT8: u8 = 2;

pub const TAG_REMOVE_AQLM: u8 = 3;

pub const TAG_AQLM_FORWARD: u8 = 4;

pub const TAG_INT8_FORWARD: u8 = 5;

pub open spec fn spec_enc_matrix(m: MatrixModel) -> Seq<u8> {
    spec_u64_to_le_bytes(m.rows as u64) + spec_u64_to_le_bytes(m.cols as u64)
        + spec_enc_u32s(m.data)
}

pub open spec fn spec_encode_request(m: RequestModel) -> Seq<u8> {
    match m {
        RequestModel::AddAqlm { name, codebooks, scales, codes, out_dim, in_group_dim } => {
            seq![TAG_ADD_AQLM] + spec_enc_bytes(name) + spec_enc_u32s(codebooks)
                + spec_enc_u32s(scales) + spec_enc_bytes(codes)
                + spec_u64_to_le_bytes(out_dim as u64) + spec_u64_to_le_bytes(in_group_dim as u64)
        },
        RequestModel::AddInt8 { name, max_values, int8_values } => {
            seq![TAG_ADD_INT8] + spec_enc_bytes(name) + spec_enc_u32s(max_values)
                + spec_enc_i8s(int8_values)
        },
        RequestModel::RemoveAqlm { name } => seq![TAG_REMOVE_AQLM] + spec_enc_bytes(name),
        RequestModel::AqlmForward { name, other } => {
            seq![TAG_AQLM_FORWARD] + spec_enc_bytes(name) + spec_enc_matrix(other)
        },
        RequestModel::Int8Forward { name, other } => {
            seq![TAG_INT8_FORWARD] + spec_enc_bytes(name) + spec_enc_matrix(other)
        },
    }
}

pub open spec fn spec_encode_response(m: ResponseModel) -> Seq<u8> {
    match m {
        ResponseModel::AddAqlm => seq![TAG_ADD_AQLM],
        ResponseModel::AddInt8 => seq![TAG_ADD_INT8],
        ResponseModel::RemoveAqlm => seq![TAG_REMOVE_AQLM],
        ResponseModel::AqlmForward { output } => seq![TAG_AQLM_FORWARD]
            + spec_enc_matrix(output),
        ResponseModel::Int8Forward { output } => seq![TAG_INT8_FORWARD]
            + spec_enc_matrix(output),
    }
}

// ---------------------------------------------------------------------
// Spec-level decoding.
// ---------------------------------------------------------------------

pub open spec fn spec_dec_matrix(b: Seq<u8>, pos: int) -> Option<(MatrixModel, int)> {
    match spec_dec_u64(b, pos) {
        Some((rows, p1)) => match spec_dec_u64(b, p1) {
            Some((cols, p2)) => match spec_dec_u32s(b, p2) {
                Some((data, p3)) => if rows <= usize::MAX as u64 && cols <= usize::MAX as u64 {
                    Some((MatrixModel { rows: rows as int, cols: cols as int, data }, p3))
                } else {
                    None
                },
                None => None,
            },
            None => None,
        },
        None => None,
    }
}

pub open spec fn spec_dec_add_aqlm(b: Seq<u8>) -> Option<RequestModel> {
    match spec_dec_bytes(b, 1) {
        Some((name, p1)) => match spec_dec_u32s(b, p1) {
            Some((codebooks, p2)) => match spec_dec_u32s(b, p2) {
                Some((scales, p3)) => match spec_dec_bytes(b, p3) {
                    Some((codes, p4)) => match spec_dec_u64(b, p4) {
                        Some((out_dim, p5)) => match spec_dec_u64(b, p5) {
                            Some((in_group_dim, p6)) => if p6 == b.len()
                                && out_dim <= usize::MAX as u64
                                && in_group_dim <= usize::MAX as u64 {
                                Some(RequestModel::AddAqlm {
                                    name,
                                    codebooks,
                                    scales,
                                    codes,
                                    out_dim: out_dim as int,
                                    in_group_dim: in_group_dim as int,
                                })
                            } else {
                                None
                            },
                            None => None,
                        },
                        None => None,
                    },
                    None => None,
                },
                None => None,
            },
            None => None,
        },
        None => None,
    }
}

pub open spec fn spec_dec_add_int8(b: Seq<u8>) -> Option<RequestModel> {
    match spec_dec_bytes(b, 1) {
        Some((name, p1)) => match spec_dec_u32s(b, p1) {
            Some((max_values, p2)) => match spec_dec_i8s(b, p2) {
                Some((int8_values, p3)) => if p3 == b.len() {
                    Some(RequestModel::AddInt8 { name, max_values, int8_values })
                } else {
                    None
                },
                None => None,
            },
            None => None,
        },
        None => None,
    }
}

pub open spec fn spec_dec_remove_aqlm(b: Seq<u8>) -> Option<RequestModel> {
    match spec_dec_bytes(b, 1) {
        Some((name, p1)) => if p1 == b.len() {
            Some(RequestModel::RemoveAqlm { name })
        } else {
            None
        },
        None => None,
    }
}

pub open spec fn spec_dec_forward(b: Seq<u8>) -> Option<(Seq<u8>, MatrixModel)> {
    match spec_dec_bytes(b, 1) {
        Some((name, p1)) => match spec_dec_matrix(b, p1) {
            Some((other, p2)) => if p2 == b.len() {
                Some((name, other))
            } else {
                None
            },
            None => None,
        },
        None => None,
    }
}

pub open spec fn spec_decode_request(b: Seq<u8>) -> Option<RequestModel> {
    if b.len() < 1 {
        None
    } else if b[0] == TAG_ADD_AQLM {
        spec_dec_add_aqlm(b)
    } else if b[0] == TAG_ADD_INT8 {
        spec_dec_add_int8(b)
    } else if b[0] == TAG_REMOVE_AQLM {
        spec_dec_remove_aqlm(b)
    } else if b[0] == TAG_AQLM_FORWARD {
        match spec_dec_forward(b) {
            Some((name, other)) => Some(RequestModel::AqlmForward { name, other }),
            None => None,
        }
    } else if b[0] == TAG_INT8_FORWARD {
        match spec_dec_forward(b) {
            Some((name, other)) => Some(RequestModel::Int8Forward { name, other }),
            None => None,
        }
    } else {
        None
    }
}

pub open spec fn spec_decode_response(b: Seq<u8>) -> Option<ResponseModel> {
    if b.len() < 1 {
        None
    } else if b[0] == TAG_ADD_AQLM {
        if b.len() == 1 {
            Some(ResponseModel::AddAqlm)
        } else {
            None
        }
    } else if b[0] == TAG_ADD_INT8 {
        if b.len() == 1 {
            Some(ResponseModel::AddInt8)
        } else {
            None
        }
    } else if b[0] == TAG_REMOVE_AQLM {
        if b.len() == 1 {
            Some(ResponseModel::RemoveAqlm)
        } else {
            None
        }
    } else if b[0] == TAG_AQLM_FORWARD {
        match spec_dec_matrix(b, 1) {
            Some((output, p)) => if p == b.len() {
                Some(ResponseModel::AqlmForward { output })
            } else {
                None
            },
            None => None,
        }
    } else if b[0] == TAG_INT8_FORWARD {
        match spec_dec_matrix(b, 1) {
            Some((output, p)) => if p == b.len() {
                Some(ResponseModel::Int8Forward { output })
            } else {
                None
            },
            None => None,
        }
    } else {
        None
    }
}

// ---------------------------------------------------------------------
// Executable encoding and decoding.
// ---------------------------------------------------------------------

fn enc_matrix(out: &mut Vec<u8>, m: &SerdeMatrix)
    ensures
        final(out)@ == old(out)@ + spec_enc_matrix(m@),
{
    enc_u64(out, m.shape.0 as u64);
    enc_u64(out, m.shape.1 as u64);
    enc_u32s(out, &m.data);
    proof {
        assert(out@ =~= old(out)@ + spec_enc_matrix(m@));
    }
}

/// Serialize a request into its length-framed binary layout.
pub fn encode_request(req: &Request) -> (r: Vec<u8>)
    ensures
        r@ == spec_encode_request(req@),
        req@.wf(),
{
    let mut out: Vec<u8> = Vec::new();
    match req {
        Request::AddAQLMRequest(q) => {
            out.push(TAG_ADD_AQLM);
            enc_bytes(&mut out, &q.name);
            enc_u32s(&mut out, &q.codebooks);
            enc_u32s(&mut out, &q.scales);
            enc_bytes(&mut out, &q.codes);
            enc_u64(&mut out, q.out_dim as u64);
            enc_u64(&mut out, q.in_group_dim as u64);
            proof {
                assert(q.name.len() == q.name@.len());
                assert(q.codebooks.len() == q.codebooks@.len());
                assert(q.scales.len() == q.scales@.len());
                assert(q.codes.len() == q.codes@.len());
                assert(out@ =~= spec_encode_request(req@));
            }
        },
        Request::AddINT8Request(q) => {
            out.push(TAG_ADD_INT8);
            enc_bytes(&mut out, &q.name);
            enc_u32s(&mut out, &q.max_values);
            enc_i8s(&mut out, &q.int8_values);
            proof {
                assert(q.name.len() == q.name@.len());
                assert(q.max_values.len() == q.max_values@.len());
                assert(q.int8_values.len() == q.int8_values@.len());
                assert(out@ =~= spec_encode_request(req@));
            }
        },
        Request::RemoveAQLMRequest(q) => {
            out.push(TAG_REMOVE_AQLM);
            enc_bytes(&mut out, &q.name);
            proof {
                assert(q.name.len() == q.name@.len());
                assert(out@ =~= spec_encode_request(req@));
            }
        },
        Request::AQLMForwardRequest(q) => {
            out.push(TAG_AQLM_FORWARD);
            enc_bytes(&mut out, &q.name);
            enc_matrix(&mut out, &q.other);
            proof {
                assert(q.name.len() == q.name@.len());
                assert(q.other.data.len() == q.other.data@.len());
                assert(out@ =~= spec_encode_request(req@));
            }
        },
        Request::INT8ForwardRequest(q) => {
            out.push(TAG_INT8_FORWARD);
            enc_bytes(&mut out, &q.name);
            enc_matrix(&mut out, &q.other);
            proof {
                assert(q.name.len() == q.name@.len());
                assert(q.other.data.len() == q.other.data@.len());
                assert(out@ =~= spec_encode_request(req@));
            }
        },
    }
    out
}

/// Serialize a response into its length-framed binary layout.
pub fn encode_response(resp: &Response) -> (r: Vec<u8>)
    ensures
        r@ == spec_encode_response(resp@),
        resp@.wf(),
{
    let mut out: Vec<u8> = Vec::new();
    match resp {
        Response::AddAQLMResponse => {
            out.push(TAG_ADD_AQLM);
            proof {
                assert(out@ =~= spec_encode_response(resp@));
            }
        },
        Response::AddINT8Response => {
            out.push(TAG_ADD_INT8);
            proof {
                assert(out@ =~= spec_encode_response(resp@));
            }
        },
        Response::RemoveAQLMResponse => {
            out.push(TAG_REMOVE_AQLM);
            proof {
                assert(out@ =~= spec_encode_response(resp@));
            }
        },
        Response::AQLMForwardResponse(q) => {
            out.push(TAG_AQLM_FORWARD);
            enc_matrix(&mut out, &q.output);
            proof {
                assert(q.output.data.len() == q.output.data@.len());
                assert(out@ =~= spec_encode_response(resp@));
            }
        },
        Response::INT8ForwardResponse(q) => {
            out.push(TAG_INT8_FORWARD);
            enc_matrix(&mut out, &q.output);
            proof {
                assert(q.output.data.len() == q.output.data@.len());
                assert(out@ =~= spec_encode_response(resp@));
            }
        },
    }
    out
}

fn dec_matrix(b: &Vec<u8>, pos: usize) -> (r: Option<(SerdeMatrix, usize)>)
    ensures
        r is Some <==> spec_dec_matrix(b@, pos as int) is Some,
        r matches Some(p) ==> spec_dec_matrix(b@, pos as int) matches Some(q)
            && p.0@ == q.0 && p.1 as int == q.1,
{
    match dec_u64(b, pos) {
        None => None,
        Some((rows, p1)) => match dec_u64(b, p1) {
            None => None,
            Some((cols, p2)) => match dec_u32s(b, p2) {
                None => None,
                Some((data, p3)) => {
                    if rows <= usize::MAX as u64 && cols <= usize::MAX as u64 {
                        Some((
                            SerdeMatrix { data, shape: (rows as usize, cols as usize) },
                            p3,
                        ))
                    } else {
                        None
                    }
                },
            },
        },
    }
}

/// Parse a request; a buffer that is not exactly one encoded request is
/// refused as a transport failure.
pub fn decode_request(bytes: &Vec<u8>) -> (r: Result<Request, EngineError>)
    ensures
        r matches Ok(q) ==> spec_decode_request(bytes@) == Some(q@),
        r matches Err(e) ==> spec_decode_request(bytes@) is None
            && e == EngineError::TransportFailed,
{
    if bytes.len() < 1 {
        return Err(EngineError::TransportFailed);
    }
    let tag = bytes[0];
    if tag == TAG_ADD_AQLM {
        let (name, p1) = match dec_bytes(bytes, 1) {
            Some(v) => v,
            None => { return Err(EngineError::TransportFailed); },
        };
        let (codebooks, p2) = match dec_u32s(bytes, p1) {
            Some(v) => v,
            None => { return Err(EngineError::TransportFailed); },
        };
        let (scales, p3) = match dec_u32s(bytes, p2) {
            Some(v) => v,
            None => { return Err(EngineError::TransportFailed); },
        };
        let (codes, p4) = match dec_bytes(bytes, p3) {
            Some(v) => v,
            None => { return Err(EngineError::TransportFailed); },
        };
        let (out_dim, p5) = match dec_u64(bytes, p4) {
            Some(v) => v,
            None => { return Err(EngineError::TransportFailed); },
        };
        let (in_group_dim, p6) = match dec_u64(bytes, p5) {
            Some(v) => v,
            None => { return Err(EngineError::TransportFailed); },
        };
        if p6 == bytes.len() && out_dim <= usize::MAX as u64
            && in_group_dim <= usize::MAX as u64 {
            Ok(Request::AddAQLMRequest(AddAQLMRequest {
                name,
                codebooks,
                scales,
                codes,
                out_dim: out_dim as usize,
                in_group_dim: in_group_dim as usize,
            }))
        } else {
            Err(EngineError::TransportFailed)
        }
    } else if tag == TAG_ADD_INT8 {
        let (name, p1) = match dec_bytes(bytes, 1) {
            Some(v) => v,
            None => { return Err(EngineError::TransportFailed); },
        };
        let (max_values, p2) = match dec_u32s(bytes, p1) {
            Some(v) => v,
            None => { return Err(EngineError::TransportFailed); },
        };
        let (int8_values, p3) = match dec_i8s(bytes, p2) {
            Some(v) => v,
            None => { return Err(EngineError::TransportFailed); },
        };
        if p3 == bytes.len() {
            Ok(Request::AddINT8Request(AddINT8Request { name, max_values, int8_values }))
        } else {
            Err(EngineError::TransportFailed)
        }
    } else if tag == TAG_REMOVE_AQLM {
        let (name, p1) = match dec_bytes(bytes, 1) {
            Some(v) => v,
            None => { return Err(EngineError::TransportFailed); },
        };
        if p1 == bytes.len() {
            Ok(Request::RemoveAQLMRequest(RemoveAQLMRequest { name }))
        } else {
            Err(EngineError::TransportFailed)
        }
    } else if tag == TAG_AQLM_FORWARD {
        let (name, p1) = match dec_bytes(bytes, 1) {
            Some(v) => v,
            None => { return Err(EngineError::TransportFailed); },
        };
        let (other, p2) = match dec_matrix(bytes, p1) {
            Some(v) => v,
            None => { return Err(EngineError::TransportFailed); },
        };
        if p2 == bytes.len() {
            Ok(Request::AQLMForwardRequest(AQLMForwardRequest { name, other }))
        } else {
            Err(EngineError::TransportFailed)
        }
    } else if tag == TAG_INT8_FORWARD {
        let (name, p1) = match dec_bytes(bytes, 1) {
            Some(v) => v,
            None => { return Err(EngineError::TransportFailed); },
        };
        let (other, p2) = match dec_matrix(bytes, p1) {
            Some(v) => v,
            None => { return Err(EngineError::TransportFailed); },
        };
        if p2 == bytes.len() {
            Ok(Request::INT8ForwardRequest(INT8ForwardRequest { name, other }))
        } else {
            Err(EngineError::TransportFailed)
        }
    } else {
        Err(EngineError::TransportFailed)
    }
}

/// Parse a response; a buffer that is not exactly one encoded response
/// is refused as a transport failure.
pub fn decode_response(bytes: &Vec<u8>) -> (r: Result<Response, EngineError>)
    ensures
        r matches Ok(q) ==> spec_decode_response(bytes@) == Some(q@),
        r matches Err(e) ==> spec_decode_response(bytes@) is None
            && e == EngineError::TransportFailed,
{
    if bytes.len() < 1 {
        return Err(EngineError::TransportFailed);
    }
    let tag = bytes[0];
    if tag == TAG_ADD_AQLM {
        if bytes.len() == 1 {
            Ok(Response::AddAQLMResponse)
        } else {
            Err(EngineError::TransportFailed)
        }
    } else if tag == TAG_ADD_INT8 {
        if bytes.len() == 1 {
            Ok(Response::AddINT8Response)
        } else {
            Err(EngineError::TransportFailed)
        }
    } else if tag == TAG_REMOVE_AQLM {
        if bytes.len() == 1 {
            Ok(Response::RemoveAQLMResponse)
        } else {
            Err(EngineError::TransportFailed)
        }
    } else if tag == TAG_AQLM_FORWARD {
        let (output, p1) = match dec_matrix(bytes, 1) {
            Some(v) => v,
            None => { return Err(EngineError::TransportFailed); },
        };
        if p1 == bytes.len() {
            Ok(Response::AQLMForwardResponse(AQLMForwardResponse { output }))
        } else {
            Err(EngineError::TransportFailed)
        }
    } else if tag == TAG_INT8_FORWARD {
        let (output, p1) = match dec_matrix(bytes, 1) {
            Some(v) => v,
            None => { return Err(EngineError::TransportFailed); },
        };
        if p1 == bytes.len() {
            Ok(Response::INT8ForwardResponse(INT8ForwardResponse { output }))
        } else {
            Err(EngineError::TransportFailed)
        }
    } else {
        Err(EngineError::TransportFailed)
    }
}

// ---------------------------------------------------------------------
// Conversions between wire matrices and in-memory matrices.
// ---------------------------------------------------------------------

impl SerdeMatrix {
    /// A wire matrix from an in-memory one.
    pub fn from_matrix(m: &crate::matrix::Matrix<u32>) -> (r: SerdeMatrix)
        ensures
            r@.rows == m.spec_rows(),
            r@.cols == m.spec_cols(),
            r@.data == m@,
    {
        let shape = m.shape();
        SerdeMatrix { data: m.data().clone(), shape }
    }

    /// An in-memory matrix from a wire one; a wire matrix whose shape
    /// does not match its cell count is an invariant violation.
    pub fn into_matrix(self) -> (r: Result<crate::matrix::Matrix<u32>, EngineError>)
        ensures
            r matches Ok(m) ==> m.spec_rows() == self@.rows && m.spec_cols() == self@.cols
                && m@ == self@.data,
            r is Ok <==> self@.rows * self@.cols == self@.data.len(),
            r is Err ==> r == Err::<crate::matrix::Matrix<u32>, EngineError>(
                EngineError::InvariantViolation),
    {
        let len = self.data.len();
        match self.shape.0.checked_mul(self.shape.1) {
            Some(n) if n == len => {
                proof {
                    assert(self.data.len() == self.data@.len());
                }
                Ok(crate::matrix::Matrix::new(self.shape, self.data))
            },
            _ => Err(EngineError::InvariantViolation),
        }
    }
}

// ---------------------------------------------------------------------
// The round-trip law: decoding an encoded message gives the message
// back, for every request and response kind.
// ---------------------------------------------------------------------

proof fn lemma_dec_matrix_of_enc(b: Seq<u8>, pos: int, mm: MatrixModel, rest: Seq<u8>)
    requires
        0 <= pos <= b.len(),
        mm.wf(),
        b.subrange(pos, b.len() as int) == spec_enc_matrix(mm) + rest,
    ensures
        spec_dec_matrix(b, pos) == Some((mm, pos + 24 + 4 * mm.data.len())),
        b.subrange(pos + 24 + 4 * mm.data.len(), b.len() as int) == rest,
{
    let e1 = spec_u64_to_le_bytes(mm.rows as u64);
    let e2 = spec_u64_to_le_bytes(mm.cols as u64);
    let e3 = spec_enc_u32s(mm.data);
    assert(spec_enc_matrix(mm) + rest =~= e1 + (e2 + (e3 + rest)));
    lemma_dec_u64_of_enc(b, pos, mm.rows as u64, e2 + (e3 + rest));
    lemma_dec_u64_of_enc(b, pos + 8, mm.cols as u64, e3 + rest);
    lemma_dec_u32s_of_enc(b, pos + 16, mm.data, rest);
    assert((mm.rows as u64) <= usize::MAX as u64);
    assert((mm.cols as u64) <= usize::MAX as u64);
    assert(spec_dec_matrix(b, pos) == Some((mm, pos + 24 + 4 * mm.data.len())));
}

/// Decoding an encoded request yields the request.
#[verifier::rlimit(100)]
#[verifier::spinoff_prover]
pub proof fn lemma_request_roundtrip(m: RequestModel)
    requires
        m.wf(),
    ensures
        spec_decode_request(spec_encode_request(m)) == Some(m),
{
    let b = spec_encode_request(m);
    assert(b.subrange(0, b.len() as int) =~= b);
    match m {
        RequestModel::AddAqlm { name, codebooks, scales, codes, out_dim, in_group_dim } => {
            let e1 = spec_enc_bytes(name);
            let e2 = spec_enc_u32s(codebooks);
            let e3 = spec_enc_u32s(scales);
            let e4 = spec_enc_bytes(codes);
            let e5 = spec_u64_to_le_bytes(out_dim as u64);
            let e6 = spec_u64_to_le_bytes(in_group_dim as u64);
            let x5 = e6;
            let x4 = e5 + x5;
            let x3 = e4 + x4;
            let x2 = e3 + x3;
            let x1 = e2 + x2;
            assert(b =~= seq![TAG_ADD_AQLM] + (e1 + x1));
            lemma_peel(b, 0, seq![TAG_ADD_AQLM], e1 + x1);
            assert(b[0] == b.subrange(0, 1)[0]);
            lemma_dec_bytes_of_enc(b, 1, name, x1);
            let p1 = 9 + name.len() as int;
            lemma_dec_u32s_of_enc(b, p1, codebooks, x2);
            let p2 = p1 + 8 + 4 * codebooks.len() as int;
            lemma_dec_u32s_of_enc(b, p2, scales, x3);
            let p3 = p2 + 8 + 4 * scales.len() as int;
            lemma_dec_bytes_of_enc(b, p3, codes, x4);
            let p4 = p3 + 8 + codes.len() as int;
            lemma_dec_u64_of_enc(b, p4, out_dim as u64, x5);
            let p5 = p4 + 8;
            assert(e6 =~= e6 + Seq::<u8>::empty());
            lemma_dec_u64_of_enc(b, p5, in_group_dim as u64, Seq::<u8>::empty());
            let p6 = p5 + 8;
            assert(b.subrange(p6, b.len() as int).len() == 0);
            assert(p6 == b.len());
            assert(spec_dec_add_aqlm(b) == Some(m));
        },
        RequestModel::AddInt8 { name, max_values, int8_values } => {
            let e1 = spec_enc_bytes(name);
            let e2 = spec_enc_u32s(max_values);
            let e3 = spec_enc_i8s(int8_values);
            let x2 = e3;
            let x1 = e2 + x2;
            assert(b =~= seq![TAG_ADD_INT8] + (e1 + x1));
            lemma_peel(b, 0, seq![TAG_ADD_INT8], e1 + x1);
            assert(b[0] == b.subrange(0, 1)[0]);
            lemma_dec_bytes_of_enc(b, 1, name, x1);
            let p1 = 9 + name.len() as int;
            lemma_dec_u32s_of_enc(b, p1, max_values, x2);
            let p2 = p1 + 8 + 4 * max_values.len() as int;
            assert(e3 =~= e3 + Seq::<u8>::empty());
            lemma_dec_i8s_of_enc(b, p2, int8_values, Seq::<u8>::empty());
            let p3 = p2 + 8 + int8_values.len() as int;
            assert(b.subrange(p3, b.len() as int).len() == 0);
            assert(p3 == b.len());
            assert(spec_dec_add_int8(b) == Some(m));
        },
        RequestModel::RemoveAqlm { name } => {
            let e1 = spec_enc_bytes(name);
            assert(b =~= seq![TAG_REMOVE_AQLM] + (e1 + Seq::<u8>::empty()));
            lemma_peel(b, 0, seq![TAG_REMOVE_AQLM], e1 + Seq::<u8>::empty());
            assert(b[0] == b.subrange(0, 1)[0]);
            assert(b.subrange(1, b.len() as int) =~= e1 + Seq::<u8>::empty());
            lemma_dec_bytes_of_enc(b, 1, name, Seq::<u8>::empty());
            let p1 = 9 + name.len() as int;
            assert(b.subrange(p1, b.len() as int).len() == 0);
            assert(p1 == b.len());
            assert(spec_dec_remove_aqlm(b) == Some(m));
        },
        RequestModel::AqlmForward { name, other } => {
            let e1 = spec_enc_bytes(name);
            let e2 = spec_enc_matrix(other);
            assert(b =~= seq![TAG_AQLM_FORWARD] + (e1 + e2));
            lemma_peel(b, 0, seq![TAG_AQLM_FORWARD], e1 + e2);
            assert(b[0] == b.subrange(0, 1)[0]);
            lemma_dec_bytes_of_enc(b, 1, name, e2);
            let p1 = 9 + name.len() as int;
            assert(e2 =~= e2 + Seq::<u8>::empty());
            lemma_dec_matrix_of_enc(b, p1, other, Seq::<u8>::empty());
            let p2 = p1 + 24 + 4 * other.data.len() as int;
            assert(b.subrange(p2, b.len() as int).len() == 0);
            assert(p2 == b.len());
            assert(spec_dec_forward(b) == Some((name, other)));
        },
        RequestModel::Int8Forward { name, other } => {
            let e1 = spec_enc_bytes(name);
            let e2 = spec_enc_matrix(other);
            assert(b =~= seq![TAG_INT8_FORWARD] + (e1 + e2));
            lemma_peel(b, 0, seq![TAG_INT8_FORWARD], e1 + e2);
            assert(b[0] == b.subrange(0, 1)[0]);
            lemma_dec_bytes_of_enc(b, 1, name, e2);
            let p1 = 9 + name.len() as int;
            assert(e2 =~= e2 + Seq::<u8>::empty());
            lemma_dec_matrix_of_enc(b, p1, other, Seq::<u8>::empty());
            let p2 = p1 + 24 + 4 * other.data.len() as int;
            assert(b.subrange(p2, b.len() as int).len() == 0);
            assert(p2 == b.len());
            assert(spec_dec_forward(b) == Some((name, other)));
        },
    }
}

/// Decoding an encoded response yields the response.
pub proof fn lemma_response_roundtrip(m: ResponseModel)
    requires
        m.wf(),
    ensures
        spec_decode_response(spec_encode_response(m)) == Some(m),
{
    let b = spec_encode_response(m);
    assert(b.subrange(0, b.len() as int) =~= b);
    match m {
        ResponseModel::AddAqlm => {
            assert(b =~= seq![TAG_ADD_AQLM]);
        },
        ResponseModel::AddInt8 => {
            assert(b =~= seq![TAG_ADD_INT8]);
        },
        ResponseModel::RemoveAqlm => {
            assert(b =~= seq![TAG_REMOVE_AQLM]);
        },
        ResponseModel::AqlmForward { output } => {
            let e1 = spec_enc_matrix(output);
            assert(b =~= seq![TAG_AQLM_FORWARD] + (e1 + Seq::<u8>::empty()));
            lemma_peel(b, 0, seq![TAG_AQLM_FORWARD], e1 + Seq::<u8>::empty());
            assert(b[0] == b.subrange(0, 1)[0]);
            assert(b.subrange(1, b.len() as int) =~= e1 + Seq::<u8>::empty());
            lemma_dec_matrix_of_enc(b, 1, output, Seq::<u8>::empty());
            let p1 = 25 + 4 * output.data.len() as int;
            assert(b.subrange(p1, b.len() as int).len() == 0);
            assert(p1 == b.len());
        },
        ResponseModel::Int8Forward { output } => {
            let e1 = spec_enc_matrix(output);
            assert(b =~= seq![TAG_INT8_FORWARD] + (e1 + Seq::<u8>::empty()));
            lemma_peel(b, 0, seq![TAG_INT8_FORWARD], e1 + Seq::<u8>::empty());
            assert(b[0] == b.subrange(0, 1)[0]);
            assert(b.subrange(1, b.len() as int) =~= e1 + Seq::<u8>::empty());
            lemma_dec_matrix_of_enc(b, 1, output, Seq::<u8>::empty());
            let p1 = 25 + 4 * output.data.len() as int;
            assert(b.subrange(p1, b.len() as int).len() == 0);
            assert(p1 == b.len());
        },
    }
}

} // verus!
