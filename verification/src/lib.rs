//! Admission-control and block-assembly core for a block builder that gives
//! priority blockspace to transactions proven to originate from
//! verified-unique humans, while packing the remaining capacity with
//! ordinary transactions.
//!
//! The core covers validation and quota tracking of human-verification
//! proofs, the nullifier registry that bounds how often a proof may be
//! reused per time window, and the blockspace-partitioning policy that the
//! payload assembler uses to select transactions under a gas budget split
//! between verified and regular traffic.
//!
//! - [`args`]: the process-level configuration value.
//! - [`builder`]: dependency-injected construction of the components.
//! - [`roots`] and [`identity`]: the recognized merkle-root window and the
//!   identity verifier over it.
//! - [`bundle`]: the aggregated-signature validator for bundles.
//! - [`nullifier`]: the speculative/committed reservation registry.
//! - [`pool`]: the admission gate and the two priority-ordered partitions.
//! - [`payload`]: the blockspace allocator and the build-job state machine.
//! - [`error`]: the error taxonomy shared by all of them.

pub mod args;
pub mod builder;
pub mod bundle;
pub mod error;
pub mod identity;
pub mod nullifier;
pub mod payload;
pub mod pool;
pub mod roots;
