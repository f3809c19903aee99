use aqlm::codec::{AQLMForwardResponse, INT8ForwardResponse, Request, Response, SerdeMatrix};
use aqlm::error::EngineError;
use aqlm::parallel_aqlm::{collect_aqlm_outputs, ParallelAQLMLinear};
use aqlm::parallel_int8::{collect_int8_outputs, ParallelINT8Linear};
use aqlm::shard::{chunk_bounds, slice_codes, slice_range};

#[test]
fn test_chunk_bounds_even() {
    // 8 output rows over 4 workers: 2 rows each, covering everything.
    let mut total = 0;
    let mut expected_begin = 0;
    for idx in 0..4 {
        let (b, e) = chunk_bounds(8, 4, idx);
        assert_eq!(b, expected_begin);
        total += e - b;
        expected_begin = e;
    }
    assert_eq!(total, 8);
}

#[test]
fn test_chunk_bounds_remainder() {
    // 10 output rows over 3 workers: 3 + 3 + 4; the last chunk absorbs
    // the remainder, and the sizes add up to the output dimension.
    assert_eq!(chunk_bounds(10, 3, 0), (0, 3));
    assert_eq!(chunk_bounds(10, 3, 1), (3, 6));
    assert_eq!(chunk_bounds(10, 3, 2), (6, 10));
    let total: usize = (0..3).map(|i| {
        let (b, e) = chunk_bounds(10, 3, i);
        e - b
    }).sum();
    assert_eq!(total, 10);
}

#[test]
fn test_slice_range() {
    let v = vec![10u32, 11, 12, 13, 14];
    assert_eq!(slice_range(&v, 1, 4), vec![11, 12, 13]);
    assert_eq!(slice_range(&v, 2, 2), Vec::<u32>::new());
}

#[test]
fn test_slice_codes_layout() {
    // out_dim 4, in_group_dim 1: layout is [g0b0: o0..o4, g0b1: o0..o4].
    let codes: Vec<u8> = vec![0, 1, 2, 3, 10, 11, 12, 13];
    // The shard of outputs [2, 4) keeps both codebook slabs, restricted
    // to its own output range.
    let shard = slice_codes(&codes, 4, 1, 2, 4);
    assert_eq!(shard, vec![2, 3, 12, 13]);
    let first = slice_codes(&codes, 4, 1, 0, 2);
    assert_eq!(first, vec![0, 1, 10, 11]);
}

#[test]
fn test_aqlm_install_requests() {
    let op = ParallelAQLMLinear::new(b"layer.q_proj.".to_vec(), 4, 1, 2);
    let codebooks: Vec<u32> = (0..4096u32).collect();
    let scales: Vec<u32> = vec![100, 101, 102, 103];
    let codes: Vec<u8> = vec![0, 1, 2, 3, 10, 11, 12, 13];
    let reqs = op.install_requests(&codebooks, &scales, &codes);
    assert_eq!(reqs.len(), 2);
    for (idx, req) in reqs.iter().enumerate() {
        match req {
            Request::AddAQLMRequest(q) => {
                assert_eq!(q.name, b"layer.q_proj.".to_vec());
                assert_eq!(q.codebooks, codebooks);
                assert_eq!(q.in_group_dim, 1);
                assert_eq!(q.out_dim, 2);
                if idx == 0 {
                    assert_eq!(q.scales, vec![100, 101]);
                    assert_eq!(q.codes, vec![0, 1, 10, 11]);
                } else {
                    assert_eq!(q.scales, vec![102, 103]);
                    assert_eq!(q.codes, vec![2, 3, 12, 13]);
                }
            },
            _ => panic!("expected an AddAQLM request"),
        }
    }
}

#[test]
fn test_aqlm_forward_and_remove_requests() {
    let op = ParallelAQLMLinear::new(b"op".to_vec(), 4, 1, 2);
    assert_eq!(op.shape(), (4, 8));
    let x: Vec<u32> = (0..8u32).collect();
    match op.forward_request(&x) {
        Request::AQLMForwardRequest(q) => {
            assert_eq!(q.name, b"op".to_vec());
            assert_eq!(q.other.shape, (1, 8));
            assert_eq!(q.other.data, x);
        },
        _ => panic!("expected an AQLMForward request"),
    }
    let removes = op.remove_requests();
    assert_eq!(removes.len(), 2);
    for req in removes {
        match req {
            Request::RemoveAQLMRequest(q) => assert_eq!(q.name, b"op".to_vec()),
            _ => panic!("expected a RemoveAQLM request"),
        }
    }
}

#[test]
fn test_int8_install_requests() {
    let op = ParallelINT8Linear::new(b"lm_head.".to_vec(), 4, 2);
    assert_eq!(op.shape(), (4, 2));
    let max_values: Vec<u32> = vec![5, 6];
    let int8_values: Vec<i8> = vec![0, 1, 2, 3, 4, 5, 6, 7];
    let reqs = op.install_requests(&max_values, &int8_values, 2);
    assert_eq!(reqs.len(), 2);
    match &reqs[0] {
        Request::AddINT8Request(q) => {
            assert_eq!(q.max_values, max_values);
            assert_eq!(q.int8_values, vec![0, 1, 2, 3]);
        },
        _ => panic!("expected an AddINT8 request"),
    }
    match &reqs[1] {
        Request::AddINT8Request(q) => {
            assert_eq!(q.int8_values, vec![4, 5, 6, 7]);
        },
        _ => panic!("expected an AddINT8 request"),
    }
}

#[test]
fn test_two_shard_fanout_concatenates_in_handle_order() {
    // Two mock shard replies with known chunks: the collected output is
    // their concatenation, in handle order.
    let chunk0: Vec<u32> = vec![1.0f32.to_bits(), 2.0f32.to_bits()];
    let chunk1: Vec<u32> = vec![3.0f32.to_bits(), 4.0f32.to_bits(), 5.0f32.to_bits()];
    let replies = vec![
        Response::AQLMForwardResponse(AQLMForwardResponse {
            output: SerdeMatrix { data: chunk0.clone(), shape: (1, 2) },
        }),
        Response::AQLMForwardResponse(AQLMForwardResponse {
            output: SerdeMatrix { data: chunk1.clone(), shape: (1, 3) },
        }),
    ];
    let out = collect_aqlm_outputs(&replies).unwrap();
    assert_eq!(out.shape(), (1, 5));
    let mut expected = chunk0;
    expected.extend(chunk1);
    assert_eq!(out.data(), &expected);
}

#[test]
fn test_collect_aqlm_outputs_rejects_wrong_kind() {
    let replies = vec![Response::AddAQLMResponse];
    assert_eq!(collect_aqlm_outputs(&replies).unwrap_err(), EngineError::ProtocolFailed);
}

#[test]
fn test_collect_aqlm_outputs_rejects_bad_shape() {
    let replies = vec![Response::AQLMForwardResponse(AQLMForwardResponse {
        output: SerdeMatrix { data: vec![1, 2, 3], shape: (2, 1) },
    })];
    assert_eq!(collect_aqlm_outputs(&replies).unwrap_err(), EngineError::InvariantViolation);
}

#[test]
fn test_collect_int8_outputs() {
    let replies = vec![
        Response::INT8ForwardResponse(INT8ForwardResponse {
            output: SerdeMatrix { data: vec![7, 8], shape: (1, 2) },
        }),
        Response::INT8ForwardResponse(INT8ForwardResponse {
            output: SerdeMatrix { data: vec![9], shape: (1, 1) },
        }),
    ];
    let out = collect_int8_outputs(&replies).unwrap();
    assert_eq!(out.shape(), (1, 3));
    assert_eq!(out.data(), &vec![7u32, 8, 9]);
}
