use vstd::prelude::*;

use crate::args::addr_eq;
use crate::error::PbhError;
use crate::identity::PbhPayload;

verus! {

/// One user operation inside an ERC-4337-style bundle, modelled by the
/// fields the core reads: its identifying hash and the aggregator it
/// declares.
#[derive(Clone, Copy, Debug)]
pub struct UserOperation {
    /// Identifying hash of the operation.
    pub op_hash: u64,
    /// Aggregator contract the operation opted into.
    pub aggregator: [u8; 20],
}

/// The single aggregated signature covering all operations of a bundle.
#[derive(Clone, Debug)]
pub struct AggregatedSignature {
    /// Aggregator contract that produced the signature.
    pub aggregator: [u8; 20],
    /// Tag of the aggregation scheme used.
    pub scheme_tag: u8,
    /// Number of operations the signature covers, in bundle order.
    pub op_count: usize,
    /// Opaque signature bytes, consumed only by the on-chain aggregator.
    pub signature_bytes: Vec<u8>,
}

/// A batch of user operations sharing one aggregated signature, together
/// with the human-verification proof attached to the bundle.
#[derive(Clone, Debug)]
pub struct Bundle {
    /// The operations, in the order the signature covers them.
    pub ops: Vec<UserOperation>,
    /// The bundle's single aggregated signature.
    pub signature: AggregatedSignature,
    /// The human-verification proof attached to the bundle.
    pub payload: PbhPayload,
}

/// A bundle is well-aggregated for the configured aggregator when it is
/// non-empty, its signature was produced by that aggregator with the
/// expected scheme, the signature covers exactly the bundle's operations
/// in their order, and every operation opted into that aggregator.
pub open spec fn spec_bundle_ok(b: Bundle, aggregator: Seq<u8>, scheme_tag: u8) -> bool {
    &&& b.ops@.len() > 0
    &&& b.signature.op_count == b.ops@.len()
    &&& b.signature.scheme_tag == scheme_tag
    &&& b.signature.aggregator@ == aggregator
    &&& forall|i: int| 0 <= i < b.ops@.len() ==> #[trigger] b.ops@[i].aggregator@ == aggregator
}

/// Checks that a bundle's combined signature matches the structure the
/// configured aggregator produces. Pure validation; no state.
pub fn validate_bundle(b: &Bundle, aggregator: &[u8; 20], scheme_tag: u8) -> (r: Result<
    (),
    PbhError,
>)
    ensures
        r == if spec_bundle_ok(*b, aggregator@, scheme_tag) {
            Ok::<(), PbhError>(())
        } else {
            Err::<(), PbhError>(PbhError::AggregationMismatch)
        },
{
    if b.ops.len() == 0 {
        return Err(PbhError::AggregationMismatch);
    }
    if b.signature.op_count != b.ops.len() {
        return Err(PbhError::AggregationMismatch);
    }
    if b.signature.scheme_tag != scheme_tag {
        return Err(PbhError::AggregationMismatch);
    }
    if !addr_eq(&b.signature.aggregator, aggregator) {
        return Err(PbhError::AggregationMismatch);
    }
    let mut i: usize = 0;
    while i < b.ops.len()
        invariant
            i <= b.ops@.len(),
            forall|j: int| 0 <= j < i ==> #[trigger] b.ops@[j].aggregator@ == aggregator@,
        decreases b.ops@.len() - i,
    {
        if !addr_eq(&b.ops[i].aggregator, aggregator) {
            return Err(PbhError::AggregationMismatch);
        }
        i += 1;
    }
    Ok(())
}

} // verus!
