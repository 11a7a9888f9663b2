use vstd::prelude::*;

verus! {

/// Errors surfaced by admission validation and blockspace selection.
#[derive(Clone, Copy, Debug, PartialEq, Eq, Structural)]
pub enum PbhError {
    /// The cryptographic proof check failed.
    InvalidProof,
    /// The proof's merkle root is recognized but near expiry, and policy
    /// disallows near-expiry roots.
    StaleRoot,
    /// The proof's merkle root is not in the recognized root window.
    UnknownRoot,
    /// The identity has exhausted its verification quota for the current
    /// time window.
    QuotaExceeded,
    /// A bundle's aggregated signature does not match the structure
    /// expected by the configured aggregator.
    AggregationMismatch,
    /// The candidate transaction does not fit in the remaining gas budget
    /// (selection-time, not an admission error).
    InsufficientGas,
    /// The pool partition is at capacity.
    PoolFull,
}

impl PbhError {
    /// A short human-readable name for the error.
    pub fn describe(&self) -> (r: &'static str)
        ensures
            r@.len() > 0,
    {
        let s = match self {
            PbhError::InvalidProof => "invalid proof",
            PbhError::StaleRoot => "stale root",
            PbhError::UnknownRoot => "unknown root",
            PbhError::QuotaExceeded => "quota exceeded",
            PbhError::AggregationMismatch => "aggregation mismatch",
            PbhError::InsufficientGas => "insufficient gas",
            PbhError::PoolFull => "pool full",
        };
        proof {
            reveal_strlit("invalid proof");
            reveal_strlit("stale root");
            reveal_strlit("unknown root");
            reveal_strlit("quota exceeded");
            reveal_strlit("aggregation mismatch");
            reveal_strlit("insufficient gas");
            reveal_strlit("pool full");
        }
        s
    }
}

} // verus!
