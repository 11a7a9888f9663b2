use vstd::prelude::*;

use crate::args::WorldChainArgs;
use crate::nullifier::NullifierRegistry;
use crate::payload::compute_target_verified_gas;
use crate::payload::spec_target;
use crate::pool::PbhPool;
use crate::roots::RootSet;

verus! {

/// Entry point of the core: holds the process configuration and constructs
/// the components from it by explicit dependency injection.
#[derive(Clone, Copy, Debug)]
pub struct WorldChainBuilder {
    /// The builder's configuration.
    pub args: WorldChainArgs,
}

impl WorldChainBuilder {
    /// Wraps a validated configuration.
    pub fn new(args: WorldChainArgs) -> (r: WorldChainBuilder)
        requires
            args.wf(),
        ensures
            r.args == args,
            r.args.wf(),
    {
        WorldChainBuilder { args }
    }

    /// Constructs the nullifier registry component: the configured quota
    /// per window, starting in the given window, empty — or to be
    /// repopulated by the embedding when nullifier state is persisted
    /// across restarts.
    pub fn nullifier_registry(&self, window: u64) -> (r: NullifierRegistry)
        ensures
            r.wf(),
            r.quota == self.args.num_pbh_txs,
            r.window == window,
            r.tickets@.len() == 0,
    {
        NullifierRegistry::new(self.args.num_pbh_txs as u64, window)
    }

    /// Constructs the admission pool component.
    pub fn pbh_pool(&self, max_pool_size: usize) -> (r: PbhPool)
        ensures
            r.wf(),
            r.verified@.len() == 0,
            r.regular@.len() == 0,
            r.max_pool_size == max_pool_size,
    {
        PbhPool::new(max_pool_size)
    }

    /// Constructs an empty root window, to be filled from the identity
    /// registry contract.
    pub fn root_set(&self, capacity: usize) -> (r: RootSet)
        requires
            capacity >= 1,
        ensures
            r.wf(),
            r.roots@.len() == 0,
            r.capacity == capacity,
    {
        RootSet::new(capacity)
    }

    /// The verified-gas target for a block with the given gas limit,
    /// under the configured capacity percentage.
    pub fn target_verified_gas(&self, gas_limit: u64) -> (r: u64)
        requires
            self.args.wf(),
        ensures
            r == spec_target(self.args.verified_blockspace_capacity, gas_limit),
            r <= gas_limit,
    {
        compute_target_verified_gas(self.args.verified_blockspace_capacity, gas_limit)
    }
}

} // verus!
