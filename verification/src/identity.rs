use vstd::prelude::*;

use crate::error::PbhError;
use crate::roots::RootSet;

verus! {

/// A human-verification proof attached to a transaction or bundle:
/// the declared merkle root, the one-time nullifier derived from the
/// proof, the quota bucket key scoping it to an action and a time window,
/// the signal bound by the proof, and the opaque proof bytes themselves.
/// Immutable once constructed.
#[derive(Clone, Debug)]
pub struct PbhPayload {
    /// Merkle root the proof was generated against.
    pub root: u64,
    /// One-time token preventing reuse of the proof beyond quota.
    pub nullifier_hash: u64,
    /// Quota bucket key (action and time window).
    pub external_nullifier: u64,
    /// Hash of the signal the proof commits to.
    pub signal_hash: u64,
    /// Raw bytes of the zero-knowledge proof, consumed only by the
    /// external proof system.
    pub proof_bytes: Vec<u8>,
}

/// What `verify` returns: root membership is checked first (unknown before
/// stale), then the cryptographic verdict.
pub open spec fn spec_verify(
    payload: PbhPayload,
    roots: RootSet,
    proof_check_passed: bool,
    allow_stale: bool,
) -> Result<(), PbhError> {
    if !roots.recognized(payload.root) {
        Err(PbhError::UnknownRoot)
    } else if !roots.fresh(payload.root) && !allow_stale {
        Err(PbhError::StaleRoot)
    } else if !proof_check_passed {
        Err(PbhError::InvalidProof)
    } else {
        Ok(())
    }
}

/// Validates a payload against the recognized root window and the verdict
/// of the underlying proof system.
///
/// The zero-knowledge proof system is an opaque external primitive: the
/// embedding runs it on `payload.proof_bytes` and the public inputs and
/// hands its verdict in as `proof_check_passed`; this function decides
/// admission for every possible verdict. `allow_stale` is the policy on
/// near-expiry roots. Pure; no side effects; idempotent.
pub fn verify(
    payload: &PbhPayload,
    roots: &RootSet,
    proof_check_passed: bool,
    allow_stale: bool,
) -> (r: Result<(), PbhError>)
    requires
        roots.wf(),
    ensures
        r == spec_verify(*payload, *roots, proof_check_passed, allow_stale),
{
    let status = roots.status(payload.root);
    match status {
        crate::roots::RootStatus::Unknown => Err(PbhError::UnknownRoot),
        crate::roots::RootStatus::NearExpiry => {
            if !allow_stale {
                Err(PbhError::StaleRoot)
            } else if !proof_check_passed {
                Err(PbhError::InvalidProof)
            } else {
                Ok(())
            }
        },
        crate::roots::RootStatus::Fresh => {
            if !proof_check_passed {
                Err(PbhError::InvalidProof)
            } else {
                Ok(())
            }
        },
    }
}

} // verus!
