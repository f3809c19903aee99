//! Verified core of a sharded, quantized transformer inference engine.
//!
//! The crate holds the structural logic of the engine: row-major matrix
//! views, the binary RPC codec that carries operator installation and
//! forward requests between the coordinator and its workers, the
//! partitioning of quantized operators into per-worker shards, the
//! worker-side operator registry, KV-cache bookkeeping, the token
//! sequence of the generator, and the latency-driven shard-count
//! calibration. Floating-point arithmetic itself (the numeric kernels)
//! is outside what the verifier can reason about and lives with the
//! unverified shell; every value-moving step around it is specified and
//! proved here.

pub mod error;
pub mod matrix;
pub mod transpose;
pub mod sample;
pub mod binary_operations;
pub mod scalar_operations;
pub mod functional;
pub mod wire;
pub mod codec;
pub mod shard;
pub mod linear_aqlm;
pub mod matrix_int8;
pub mod linear_int8;
pub mod embedding;
pub mod registry;
pub mod parallel_aqlm;
pub mod parallel_int8;
pub mod registry_rpc;
pub mod generator;
pub mod calib;
pub mod attention;
pub mod state_dict;
pub mod tokenizer;

