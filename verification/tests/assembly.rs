use world_chain_builder::args::WorldChainArgs;
use world_chain_builder::builder::WorldChainBuilder;
use world_chain_builder::error::PbhError;
use world_chain_builder::identity::PbhPayload;
use world_chain_builder::nullifier::NullifierRegistry;
use world_chain_builder::payload::BuildJob;
use world_chain_builder::payload::BuildJobState;
use world_chain_builder::payload::build_payload;
use world_chain_builder::payload::compute_target_verified_gas;
use world_chain_builder::payload::try_reserve_gas;
use world_chain_builder::pool::PbhPool;
use world_chain_builder::pool::RawTransaction;
use world_chain_builder::roots::RootSet;

fn tx(tx_id: u64, gas_limit: u64, priority_fee: u64) -> RawTransaction {
    RawTransaction { tx_id, gas_limit, priority_fee }
}

fn payload(root: u64, nullifier_hash: u64, external_nullifier: u64) -> PbhPayload {
    PbhPayload {
        root,
        nullifier_hash,
        external_nullifier,
        signal_hash: 5,
        proof_bytes: vec![1],
    }
}

fn submit_verified(
    pool: &mut PbhPool,
    reg: &mut NullifierRegistry,
    roots: &RootSet,
    t: RawTransaction,
    nh: u64,
    en: u64,
) {
    pool.submit_verified(t, &payload(10, nh, en), reg, roots, false, true).unwrap();
}

#[test]
fn target_is_the_floored_percentage() {
    assert_eq!(compute_target_verified_gas(70, 30_000_000), 21_000_000);
    assert_eq!(compute_target_verified_gas(0, 30_000_000), 0);
    assert_eq!(compute_target_verified_gas(100, 30_000_000), 30_000_000);
    assert_eq!(compute_target_verified_gas(33, 100), 33);
    assert_eq!(compute_target_verified_gas(33, 10), 3);
    assert_eq!(compute_target_verified_gas(100, u64::MAX), u64::MAX);
}

#[test]
fn gas_reservation_reports_insufficient_gas() {
    assert_eq!(try_reserve_gas(10, 4), Ok(6));
    assert_eq!(try_reserve_gas(4, 4), Ok(0));
    assert_eq!(try_reserve_gas(3, 4), Err(PbhError::InsufficientGas));
}

#[test]
fn shortfall_on_the_verified_side_is_filled_with_regular_traffic() {
    // capacity 70%, gas limit 30,000,000: target_verified_gas 21,000,000.
    // The verified partition offers only 10,000,000 gas, so the block
    // takes 10,000,000 verified and packs regular transactions up to the
    // full 30,000,000.
    let mut pool = PbhPool::new(64);
    let mut reg = NullifierRegistry::new(30, 1);
    let mut roots = RootSet::new(4);
    roots.push_root(10);
    for k in 0..5u64 {
        submit_verified(&mut pool, &mut reg, &roots, tx(k, 2_000_000, 50 - k), 100 + k, k);
    }
    for k in 0..12u64 {
        pool.submit_regular(tx(100 + k, 2_000_000, 40 - k)).unwrap();
    }
    let p = build_payload(&pool, 70, 30_000_000);
    assert_eq!(p.target_verified_gas, 21_000_000);
    assert_eq!(p.verified_gas_used, 10_000_000);
    assert_eq!(p.regular_gas_used, 20_000_000);
    assert_eq!(p.transactions.len(), 15);
    assert_eq!(p.verified_tickets.len(), 5);
    // verified prefix first, in priority order, then the regular prefix
    let ids: Vec<u64> = p.transactions.iter().map(|t| t.tx_id).collect();
    assert_eq!(ids[..5], [0, 1, 2, 3, 4]);
    assert_eq!(ids[5..], [100, 101, 102, 103, 104, 105, 106, 107, 108, 109]);
}

#[test]
fn verified_gas_stops_at_the_target() {
    // 70% of 10,000 is 7,000: three 2,500-gas verified transactions fit
    // (7,500 would exceed the target), and regular traffic fills the rest.
    let mut pool = PbhPool::new(64);
    let mut reg = NullifierRegistry::new(30, 1);
    let mut roots = RootSet::new(4);
    roots.push_root(10);
    for k in 0..4u64 {
        submit_verified(&mut pool, &mut reg, &roots, tx(k, 2_500, 50 - k), 100 + k, k);
    }
    for k in 0..4u64 {
        pool.submit_regular(tx(100 + k, 1_000, 40 - k)).unwrap();
    }
    let p = build_payload(&pool, 70, 10_000);
    assert_eq!(p.target_verified_gas, 7_000);
    assert_eq!(p.verified_gas_used, 5_000);
    assert_eq!(p.regular_gas_used, 4_000);
    assert!(p.verified_gas_used + p.regular_gas_used <= 10_000);
}

#[test]
fn selection_is_deterministic_across_identical_snapshots() {
    let mut pool = PbhPool::new(64);
    let mut reg = NullifierRegistry::new(30, 1);
    let mut roots = RootSet::new(4);
    roots.push_root(10);
    for k in 0..4u64 {
        submit_verified(&mut pool, &mut reg, &roots, tx(k, 2_500, 50 - k), 100 + k, k);
        pool.submit_regular(tx(100 + k, 1_000, 40 - k)).unwrap();
    }
    let p1 = build_payload(&pool, 70, 10_000);
    let p2 = build_payload(&pool, 70, 10_000);
    let ids1: Vec<u64> = p1.transactions.iter().map(|t| t.tx_id).collect();
    let ids2: Vec<u64> = p2.transactions.iter().map(|t| t.tx_id).collect();
    assert_eq!(ids1, ids2);
    assert_eq!(p1.verified_gas_used, p2.verified_gas_used);
    assert_eq!(p1.regular_gas_used, p2.regular_gas_used);
    assert_eq!(p1.verified_tickets, p2.verified_tickets);
}

#[test]
fn empty_pool_builds_an_empty_payload() {
    let pool = PbhPool::new(8);
    let p = build_payload(&pool, 70, 30_000_000);
    assert_eq!(p.transactions.len(), 0);
    assert_eq!(p.verified_gas_used, 0);
    assert_eq!(p.regular_gas_used, 0);
}

#[test]
fn finalize_commits_included_and_releases_dropped() {
    let mut pool = PbhPool::new(64);
    let mut reg = NullifierRegistry::new(30, 1);
    let mut roots = RootSet::new(4);
    roots.push_root(10);
    for k in 0..3u64 {
        submit_verified(&mut pool, &mut reg, &roots, tx(k, 100, 50 - k), 100 + k, 7);
    }
    assert_eq!(reg.used(7), 3);
    let mut job = BuildJob::new();
    assert_eq!(job.state, BuildJobState::Idle);
    job.collect(&pool, 100, 1_000);
    assert_eq!(job.state, BuildJobState::Collecting);
    job.start_finalizing();
    assert_eq!(job.state, BuildJobState::Finalizing);
    // the middle transaction reverts during execution and is dropped
    job.complete(&mut reg, &vec![true, false, true]);
    assert_eq!(job.state, BuildJobState::Committed);
    assert!(reg.is_nullifier_committed(100));
    assert!(!reg.is_nullifier_committed(101));
    assert!(reg.is_nullifier_committed(102));
    // the dropped transaction's quota usage was given back
    assert_eq!(reg.used(7), 2);
}

#[test]
fn aborted_job_returns_every_reservation() {
    // A build job reserves tickets for 5 verified transactions and is
    // aborted before finalize: all 5 return to their pre-reservation
    // state, shown by a subsequent full-quota reservation run succeeding.
    let mut pool = PbhPool::new(64);
    let mut reg = NullifierRegistry::new(5, 1);
    let mut roots = RootSet::new(4);
    roots.push_root(10);
    for k in 0..5u64 {
        submit_verified(&mut pool, &mut reg, &roots, tx(k, 100, 50 - k), 100 + k, 7);
    }
    assert_eq!(reg.used(7), 5);
    assert_eq!(reg.reserve(7, 999), Err(PbhError::QuotaExceeded));
    let mut job = BuildJob::new();
    job.collect(&pool, 100, 1_000);
    job.abort(&mut reg);
    assert_eq!(job.state, BuildJobState::Aborted);
    assert_eq!(reg.used(7), 0);
    for k in 0..5u64 {
        assert!(reg.reserve(7, 200 + k).is_ok());
    }
    assert_eq!(reg.reserve(7, 300), Err(PbhError::QuotaExceeded));
}

#[test]
fn two_jobs_race_for_the_same_nullifier() {
    // Concurrent attempts resolve first-committer-wins: the losing job's
    // reservation ends released, not committed.
    let mut reg = NullifierRegistry::new(30, 1);
    let a = reg.reserve(7, 555).unwrap();
    let b = reg.reserve(7, 555).unwrap();
    assert!(reg.commit(&a));
    assert!(!reg.commit(&b));
    assert!(reg.is_nullifier_committed(555));
    assert_eq!(reg.used(7), 1);
}

#[test]
fn builder_constructs_configured_components() {
    let args = WorldChainArgs::new(30, 70, [1; 20], [2; 20], [3; 20], false);
    let builder = WorldChainBuilder::new(args);
    assert_eq!(builder.args.num_pbh_txs, 30);
    assert_eq!(builder.args.verified_blockspace_capacity, 70);
    let reg = builder.nullifier_registry(1);
    assert_eq!(reg.quota, 30);
    assert_eq!(reg.window, 1);
    let pool = builder.pbh_pool(128);
    assert_eq!(pool.max_pool_size, 128);
    assert_eq!(builder.target_verified_gas(30_000_000), 21_000_000);
    let roots = builder.root_set(16);
    assert_eq!(roots.capacity, 16);
}

#[test]
fn error_descriptions_are_distinct() {
    let errors = [
        PbhError::InvalidProof,
        PbhError::StaleRoot,
        PbhError::UnknownRoot,
        PbhError::QuotaExceeded,
        PbhError::AggregationMismatch,
        PbhError::InsufficientGas,
        PbhError::PoolFull,
    ];
    for (i, a) in errors.iter().enumerate() {
        assert!(!a.describe().is_empty());
        for b in errors.iter().skip(i + 1) {
            assert_ne!(a.describe(), b.describe());
        }
    }
}
