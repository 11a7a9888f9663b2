use vstd::prelude::*;

verus! {

/// Process-level configuration for the priority-blockspace builder.
///
/// Loaded once at startup and immutable for the builder's lifetime;
/// every component receives it (or the fields it reads) explicitly at
/// construction, never through ambient global state. Contract addresses
/// are carried as their 20 raw bytes.
#[derive(Clone, Copy, Debug, PartialEq, Eq)]
pub struct WorldChainArgs {
    /// Allowed verified transactions per identity per time window.
    pub num_pbh_txs: u8,
    /// Percentage of the block gas limit reserved as a target for verified
    /// traffic, in `0..=100`. When verified supply falls short of the
    /// target, the shortfall is filled with regular transactions.
    pub verified_blockspace_capacity: u8,
    /// ERC-4337 EntryPoint proxy contract address (executes bundles).
    pub pbh_entrypoint: [u8; 20],
    /// Identity-registry (WorldID) contract address, the source of the
    /// recognized merkle roots.
    pub world_id: [u8; 20],
    /// Signature-aggregator contract address; a bundle aggregated by it is
    /// eligible for priority inclusion.
    pub signature_aggregator: [u8; 20],
    /// Whether nullifier state is cleared on restart rather than persisted.
    pub clear_nullifiers: bool,
}

impl WorldChainArgs {
    /// The capacity percentage is a percentage.
    pub open spec fn wf(self) -> bool {
        self.verified_blockspace_capacity <= 100
    }

    /// Builds a configuration value from its parts.
    pub fn new(
        num_pbh_txs: u8,
        verified_blockspace_capacity: u8,
        pbh_entrypoint: [u8; 20],
        world_id: [u8; 20],
        signature_aggregator: [u8; 20],
        clear_nullifiers: bool,
    ) -> (r: WorldChainArgs)
        requires
            verified_blockspace_capacity <= 100,
        ensures
            r.wf(),
            r.num_pbh_txs == num_pbh_txs,
            r.verified_blockspace_capacity == verified_blockspace_capacity,
            r.pbh_entrypoint == pbh_entrypoint,
            r.world_id == world_id,
            r.signature_aggregator == signature_aggregator,
            r.clear_nullifiers == clear_nullifiers,
    {
        WorldChainArgs {
            num_pbh_txs,
            verified_blockspace_capacity,
            pbh_entrypoint,
            world_id,
            signature_aggregator,
            clear_nullifiers,
        }
    }
}

/// Byte-wise equality of two contract addresses.
pub fn addr_eq(a: &[u8; 20], b: &[u8; 20]) -> (r: bool)
    ensures
        r == (a@ == b@),
{
    let mut i: usize = 0;
    while i < 20
        invariant
            i <= 20,
            forall|j: int| 0 <= j < i ==> a@[j] == b@[j],
        decreases 20 - i,
    {
        if a[i] != b[i] {
            return false;
        }
        i += 1;
    }
    proof {
        assert(a@ =~= b@);
    }
    true
}

} // verus!
