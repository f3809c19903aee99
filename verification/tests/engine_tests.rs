use aqlm::attention::{get_proj_head, AttentionKvCaches, CachedAttentionLinear};
use aqlm::calib::{argmin, optimal_n_workers, CalibrationCache};
use aqlm::codec::{AddAQLMRequest, AddINT8Request, RemoveAQLMRequest, Request, Response};
use aqlm::error::EngineError;
use aqlm::generator::Generator;
use aqlm::matrix::Matrix;
use aqlm::registry::LocalLinearRegistry;
use aqlm::registry_rpc::RPCLinearRegistryServer;
use aqlm::tokenizer::split_delimited;

#[test]
fn test_registry_add_get_remove() {
    let mut reg = LocalLinearRegistry::new();
    reg.add_aqlm(b"a".to_vec(), vec![1, 2], vec![9, 8], vec![0, 1, 2, 3], 2, 1);
    let op = reg.get_aqlm(&b"a".to_vec()).unwrap();
    assert_eq!(op.shape(), (2, 8));
    assert_eq!(op.scales(), &vec![9, 8]);
    assert_eq!(op.codes(), &vec![0, 1, 2, 3]);
    assert!(reg.get_aqlm(&b"b".to_vec()).is_none());

    // Insert-or-replace: the newer binding wins.
    reg.add_aqlm(b"a".to_vec(), vec![1, 2], vec![7, 6], vec![3, 2, 1, 0], 2, 1);
    let op = reg.get_aqlm(&b"a".to_vec()).unwrap();
    assert_eq!(op.scales(), &vec![7, 6]);

    assert!(reg.remove_aqlm(&b"a".to_vec()));
    assert!(reg.get_aqlm(&b"a".to_vec()).is_none());
    assert!(!reg.remove_aqlm(&b"a".to_vec()));

    reg.add_int8(b"head".to_vec(), vec![1, 2], vec![1, 2, 3, 4, 5, 6]);
    let op = reg.get_int8(&b"head".to_vec()).unwrap();
    assert_eq!(op.shape(), (3, 2));
}

#[test]
fn test_registry_echo() {
    let mut reg = LocalLinearRegistry::new();
    assert_eq!(reg.echo(b"ping".to_vec()), b"ping".to_vec());
}

#[test]
fn test_serve_control() {
    let mut server = RPCLinearRegistryServer::new();
    let ok = server.serve_control(Request::AddAQLMRequest(AddAQLMRequest {
        name: b"op".to_vec(),
        codebooks: vec![0; 16],
        scales: vec![1, 2],
        codes: vec![0, 1, 2, 3],
        out_dim: 2,
        in_group_dim: 1,
    }));
    assert!(matches!(ok, Ok(Response::AddAQLMResponse)));

    // Inconsistent sizes break the shape invariant.
    let bad = server.serve_control(Request::AddAQLMRequest(AddAQLMRequest {
        name: b"op2".to_vec(),
        codebooks: vec![0; 16],
        scales: vec![1, 2],
        codes: vec![0, 1, 2],
        out_dim: 2,
        in_group_dim: 1,
    }));
    assert_eq!(bad.unwrap_err(), EngineError::InvariantViolation);

    let ok = server.serve_control(Request::AddINT8Request(AddINT8Request {
        name: b"head".to_vec(),
        max_values: vec![1, 2],
        int8_values: vec![1, 2, 3, 4],
    }));
    assert!(matches!(ok, Ok(Response::AddINT8Response)));

    let ok = server.serve_control(Request::RemoveAQLMRequest(RemoveAQLMRequest {
        name: b"op".to_vec(),
    }));
    assert!(matches!(ok, Ok(Response::RemoveAQLMResponse)));

    // Removing an operator that is not installed is a logic error.
    let bad = server.serve_control(Request::RemoveAQLMRequest(RemoveAQLMRequest {
        name: b"op".to_vec(),
    }));
    assert_eq!(bad.unwrap_err(), EngineError::InvariantViolation);
}

#[test]
fn test_generator_set_tokens_prefix() {
    let mut g = Generator::new();
    let fwd = g.set_tokens(&vec![5, 6, 7]).unwrap();
    // Processing warms the caches for every token but the last.
    assert_eq!(fwd, vec![5, 6]);
    assert_eq!(g.tokens(), &vec![5, 6, 7]);
    assert_eq!(g.n_processed(), 2);

    // Extending the sequence only processes the suffix.
    let fwd = g.set_tokens(&vec![5, 6, 7, 8, 9]).unwrap();
    assert_eq!(fwd, vec![7, 8]);
    assert_eq!(g.tokens(), &vec![5, 6, 7, 8, 9]);
    assert_eq!(g.n_processed(), 4);
}

#[test]
fn test_generator_set_tokens_rejects_rewrite() {
    let mut g = Generator::new();
    g.set_tokens(&vec![1, 2, 3]).unwrap();
    let err = g.set_tokens(&vec![1, 9, 3, 4]).unwrap_err();
    assert_eq!(err, EngineError::InvariantViolation);
    assert_eq!(g.tokens(), &vec![1, 2, 3]);
    let err = g.set_tokens(&vec![1, 2]).unwrap_err();
    assert_eq!(err, EngineError::InvariantViolation);
}

#[test]
fn test_generator_next_token_and_clear() {
    let mut g = Generator::new();
    g.set_tokens(&vec![1]).unwrap();
    assert_eq!(g.n_processed(), 0);
    g.record_next_token(42);
    assert_eq!(g.tokens(), &vec![1, 42]);
    assert_eq!(g.n_processed(), 1);
    g.clear();
    assert_eq!(g.tokens(), &Vec::<usize>::new());
    assert_eq!(g.n_processed(), 0);
}

#[test]
fn test_argmin_first_smallest() {
    assert_eq!(argmin(&vec![3, 1, 2, 1]), 1);
    assert_eq!(argmin(&vec![5]), 0);
    assert_eq!(argmin(&vec![2, 2, 2]), 0);
}

#[test]
fn test_calibration_picks_latency_minimum() {
    // Mock latencies a + b/n for a=10, b=100 at n = 1..=8, integer microseconds:
    // the total cost keeps falling, so the largest fan-out
    // wins.
    let timings: Vec<u64> = (1..=8u64).map(|n| 10 + 100 / n).collect();
    assert_eq!(optimal_n_workers(&timings), 8);
    // With a high per-worker overhead the sweet spot is in the middle.
    let timings: Vec<u64> = vec![110, 80, 90, 120];
    assert_eq!(optimal_n_workers(&timings), 2);
}

#[test]
fn test_calibration_cache() {
    let mut cache = CalibrationCache::new();
    assert_eq!(cache.get(4096, 512), None);
    cache.store(4096, 512, 3);
    cache.store(128256, 512, 8);
    assert_eq!(cache.get(4096, 512), Some(3));
    assert_eq!(cache.get(128256, 512), Some(8));
    assert_eq!(cache.get(4096, 128), None);
}

#[test]
fn test_kv_caches_stay_in_step() {
    let mut caches = AttentionKvCaches::new(4);
    assert_eq!(caches.n_cached_tokens(), 0);
    let k0 = Matrix::from_vec((1, 4), vec![1u32, 2, 3, 4]);
    let v0 = Matrix::from_vec((1, 4), vec![5u32, 6, 7, 8]);
    caches.record_forward(&k0, &v0);
    assert_eq!(caches.n_cached_tokens(), 1);
    caches.record_forward(&k0, &v0);
    assert_eq!(caches.n_cached_tokens(), 2);
    caches.clear_cache();
    assert_eq!(caches.n_cached_tokens(), 0);
}

#[test]
fn test_cached_linear_append() {
    let mut cache = CachedAttentionLinear::new(2);
    let rows = Matrix::from_vec((2, 2), vec![1u32, 2, 3, 4]);
    cache.append_rows(&rows);
    assert_eq!(cache.n_cached_tokens(), 2);
    let m = cache.as_matrix();
    assert_eq!(m.shape(), (2, 2));
    assert_eq!(m.data(), &vec![1u32, 2, 3, 4]);
    cache.clear();
    assert_eq!(cache.n_cached_tokens(), 0);
}

#[test]
fn test_get_proj_head() {
    // Two heads of width 2 over 2 tokens; head 1 reads columns 2..4.
    let proj = Matrix::from_vec((2, 4), (0..8u32).collect());
    let head = get_proj_head(&proj, 2, 1);
    assert_eq!(head.shape(), (2, 2));
    assert_eq!(head.data(), &vec![2u32, 3, 6, 7]);
}

#[test]
fn test_rotate_half() {
    let x = aqlm::matrix::Matrix::from_vec((1, 4), vec![1.0f32, 2.0, 3.0, 4.0]);
    let r = aqlm::attention::rotate_half(&x, |v: f32| -v);
    assert_eq!(r.shape(), (1, 4));
    assert_eq!(r.data(), &vec![-3.0f32, -4.0, 1.0, 2.0]);
}

#[test]
fn test_split_delimited() {
    let segs = split_delimited(&vec![1, 9, 2, 3, 9, 4], 9);
    assert_eq!(segs, vec![vec![1], vec![9, 2, 3], vec![9, 4]]);
    let segs = split_delimited(&vec![9, 1, 2], 9);
    assert_eq!(segs, vec![vec![9, 1, 2]]);
    let segs = split_delimited(&Vec::new(), 9);
    assert_eq!(segs, Vec::<Vec<usize>>::new());
}

#[test]
fn test_error_describe() {
    assert_eq!(EngineError::TransportFailed.describe(), "transport failed");
    assert_eq!(EngineError::SamplerDegenerate.describe(), "sampler degenerate");
}
