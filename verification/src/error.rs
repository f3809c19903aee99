use vstd::prelude::*;

verus! {

/// The failure kinds of the engine.
///
/// `LoadFailed`: a required blob could not be fetched after retries.
/// `ParseFailed`: a blob did not match its expected tensor dtype or shape.
/// `TransportFailed`: a worker request could not be sent or got no reply.
/// `ProtocolFailed`: a response kind did not match its request kind.
/// `InvariantViolation`: internal consistency (shape, cache, prefix) broken.
/// `SamplerDegenerate`: softmax produced no finite probability.
#[derive(Clone, Copy, Debug, PartialEq, Eq, Structural)]
pub enum EngineError {
    LoadFailed,
    ParseFailed,
    TransportFailed,
    ProtocolFailed,
    InvariantViolation,
    SamplerDegenerate,
}

impl EngineError {
    /// A short human-readable name for the error kind.
    pub fn describe(&self) -> (r: &'static str)
        ensures
            r@ =~= match self {
                EngineError::LoadFailed => "load failed"@,
                EngineError::ParseFailed => "parse failed"@,
                EngineError::TransportFailed => "transport failed"@,
                EngineError::ProtocolFailed => "protocol failed"@,
                EngineError::InvariantViolation => "invariant violation"@,
                EngineError::SamplerDegenerate => "sampler degenerate"@,
            },
    {
        match self {
            EngineError::LoadFailed => "load failed",
            EngineError::ParseFailed => "parse failed",
            EngineError::TransportFailed => "transport failed",
            EngineError::ProtocolFailed => "protocol failed",
            EngineError::InvariantViolation => "invariant violation",
            EngineError::SamplerDegenerate => "sampler degenerate",
        }
    }
}

} // verus!
