use aqlm::codec::{
    decode_request, decode_response, encode_request, encode_response, response_matches_request,
    AQLMForwardRequest, AQLMForwardResponse, AddAQLMRequest, AddINT8Request, INT8ForwardRequest,
    INT8ForwardResponse, RemoveAQLMRequest, Request, Response, SerdeMatrix,
};
use aqlm::error::EngineError;
use aqlm::matrix::Matrix;

fn sample_matrix() -> SerdeMatrix {
    SerdeMatrix {
        data: vec![1.0f32.to_bits(), 2.5f32.to_bits(), (-3.0f32).to_bits()],
        shape: (1, 3),
    }
}

fn assert_matrix_eq(a: &SerdeMatrix, b: &SerdeMatrix) {
    assert_eq!(a.shape, b.shape);
    assert_eq!(a.data, b.data);
}

#[test]
fn test_add_aqlm_roundtrip() {
    let req = Request::AddAQLMRequest(AddAQLMRequest {
        name: b"model.layers.0.self_attn.q_proj.".to_vec(),
        codebooks: (0..16u32).collect(),
        scales: vec![7, 9],
        codes: vec![0, 1, 2, 3],
        out_dim: 2,
        in_group_dim: 1,
    });
    let bytes = encode_request(&req);
    let back = decode_request(&bytes).unwrap();
    match (req, back) {
        (Request::AddAQLMRequest(a), Request::AddAQLMRequest(b)) => {
            assert_eq!(a.name, b.name);
            assert_eq!(a.codebooks, b.codebooks);
            assert_eq!(a.scales, b.scales);
            assert_eq!(a.codes, b.codes);
            assert_eq!(a.out_dim, b.out_dim);
            assert_eq!(a.in_group_dim, b.in_group_dim);
        },
        _ => panic!("wrong variant after roundtrip"),
    }
}

#[test]
fn test_add_int8_roundtrip() {
    let req = Request::AddINT8Request(AddINT8Request {
        name: b"lm_head.".to_vec(),
        max_values: vec![1, 2, 3],
        int8_values: vec![-128, -1, 0, 1, 127, 5],
    });
    let bytes = encode_request(&req);
    let back = decode_request(&bytes).unwrap();
    match (req, back) {
        (Request::AddINT8Request(a), Request::AddINT8Request(b)) => {
            assert_eq!(a.name, b.name);
            assert_eq!(a.max_values, b.max_values);
            assert_eq!(a.int8_values, b.int8_values);
        },
        _ => panic!("wrong variant after roundtrip"),
    }
}

#[test]
fn test_remove_aqlm_roundtrip() {
    let req = Request::RemoveAQLMRequest(RemoveAQLMRequest { name: b"calib_3".to_vec() });
    let bytes = encode_request(&req);
    let back = decode_request(&bytes).unwrap();
    match (req, back) {
        (Request::RemoveAQLMRequest(a), Request::RemoveAQLMRequest(b)) => {
            assert_eq!(a.name, b.name);
        },
        _ => panic!("wrong variant after roundtrip"),
    }
}

#[test]
fn test_aqlm_forward_roundtrip() {
    let req = Request::AQLMForwardRequest(AQLMForwardRequest {
        name: b"op".to_vec(),
        other: sample_matrix(),
    });
    let bytes = encode_request(&req);
    let back = decode_request(&bytes).unwrap();
    match (req, back) {
        (Request::AQLMForwardRequest(a), Request::AQLMForwardRequest(b)) => {
            assert_eq!(a.name, b.name);
            assert_matrix_eq(&a.other, &b.other);
        },
        _ => panic!("wrong variant after roundtrip"),
    }
}

#[test]
fn test_int8_forward_roundtrip() {
    let req = Request::INT8ForwardRequest(INT8ForwardRequest {
        name: b"op".to_vec(),
        other: sample_matrix(),
    });
    let bytes = encode_request(&req);
    let back = decode_request(&bytes).unwrap();
    match (req, back) {
        (Request::INT8ForwardRequest(a), Request::INT8ForwardRequest(b)) => {
            assert_eq!(a.name, b.name);
            assert_matrix_eq(&a.other, &b.other);
        },
        _ => panic!("wrong variant after roundtrip"),
    }
}

#[test]
fn test_response_roundtrips() {
    for resp in [
        Response::AddAQLMResponse,
        Response::AddINT8Response,
        Response::RemoveAQLMResponse,
    ] {
        let bytes = encode_response(&resp);
        let back = decode_response(&bytes).unwrap();
        assert!(response_kind(&resp) == response_kind(&back));
    }
    let resp = Response::AQLMForwardResponse(AQLMForwardResponse { output: sample_matrix() });
    let back = decode_response(&encode_response(&resp)).unwrap();
    match back {
        Response::AQLMForwardResponse(b) => assert_matrix_eq(&sample_matrix(), &b.output),
        _ => panic!("wrong variant after roundtrip"),
    }
    let resp = Response::INT8ForwardResponse(INT8ForwardResponse { output: sample_matrix() });
    let back = decode_response(&encode_response(&resp)).unwrap();
    match back {
        Response::INT8ForwardResponse(b) => assert_matrix_eq(&sample_matrix(), &b.output),
        _ => panic!("wrong variant after roundtrip"),
    }
}

fn response_kind(r: &Response) -> u8 {
    match r {
        Response::AddAQLMResponse => 1,
        Response::AddINT8Response => 2,
        Response::RemoveAQLMResponse => 3,
        Response::AQLMForwardResponse(_) => 4,
        Response::INT8ForwardResponse(_) => 5,
    }
}

#[test]
fn test_decode_malformed() {
    assert_eq!(decode_request(&vec![]).unwrap_err(), EngineError::TransportFailed);
    assert_eq!(decode_request(&vec![99]).unwrap_err(), EngineError::TransportFailed);
    assert_eq!(decode_request(&vec![3, 5, 0, 0]).unwrap_err(), EngineError::TransportFailed);
    let mut good = encode_request(&Request::RemoveAQLMRequest(RemoveAQLMRequest {
        name: b"x".to_vec(),
    }));
    good.push(0);
    assert_eq!(decode_request(&good).unwrap_err(), EngineError::TransportFailed);
    assert_eq!(decode_response(&vec![]).unwrap_err(), EngineError::TransportFailed);
    assert_eq!(decode_response(&vec![1, 1]).unwrap_err(), EngineError::TransportFailed);
}

#[test]
fn test_response_matches_request() {
    let req = Request::AddAQLMRequest(AddAQLMRequest {
        name: b"a".to_vec(),
        codebooks: vec![],
        scales: vec![],
        codes: vec![],
        out_dim: 0,
        in_group_dim: 0,
    });
    assert!(response_matches_request(&req, &Response::AddAQLMResponse));
    assert!(!response_matches_request(&req, &Response::RemoveAQLMResponse));
    let fwd = Request::AQLMForwardRequest(AQLMForwardRequest {
        name: b"a".to_vec(),
        other: sample_matrix(),
    });
    assert!(response_matches_request(
        &fwd,
        &Response::AQLMForwardResponse(AQLMForwardResponse { output: sample_matrix() }),
    ));
    assert!(!response_matches_request(&fwd, &Response::AddAQLMResponse));
}

#[test]
fn test_serde_matrix_conversions() {
    let m = Matrix::from_vec((2, 2), vec![1u32, 2, 3, 4]);
    let wire = SerdeMatrix::from_matrix(&m);
    assert_eq!(wire.shape, (2, 2));
    assert_eq!(wire.data, vec![1, 2, 3, 4]);
    let back = wire.into_matrix().unwrap();
    assert_eq!(back.shape(), (2, 2));
    assert_eq!(back.data(), &vec![1u32, 2, 3, 4]);

    let bad = SerdeMatrix { data: vec![1, 2, 3], shape: (2, 2) };
    assert_eq!(bad.into_matrix().unwrap_err(), EngineError::InvariantViolation);
}
