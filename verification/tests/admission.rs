use world_chain_builder::bundle::AggregatedSignature;
use world_chain_builder::bundle::Bundle;
use world_chain_builder::bundle::UserOperation;
use world_chain_builder::bundle::validate_bundle;
use world_chain_builder::error::PbhError;
use world_chain_builder::identity::PbhPayload;
use world_chain_builder::identity::verify;
use world_chain_builder::nullifier::NullifierRegistry;
use world_chain_builder::pool::PbhPool;
use world_chain_builder::pool::RawTransaction;
use world_chain_builder::roots::RootSet;
use world_chain_builder::roots::RootStatus;

const AGGREGATOR: [u8; 20] = [0xAA; 20];

fn payload(root: u64, nullifier_hash: u64, external_nullifier: u64) -> PbhPayload {
    PbhPayload {
        root,
        nullifier_hash,
        external_nullifier,
        signal_hash: 5,
        proof_bytes: vec![1, 2, 3],
    }
}

fn tx(tx_id: u64, gas_limit: u64, priority_fee: u64) -> RawTransaction {
    RawTransaction { tx_id, gas_limit, priority_fee }
}

fn roots_with(fresh: &[u64]) -> RootSet {
    let mut roots = RootSet::new(16);
    for r in fresh {
        roots.push_root(*r);
    }
    roots
}

#[test]
fn root_window_classifies_roots() {
    let mut roots = roots_with(&[10, 11, 12]);
    assert_eq!(roots.status(11), RootStatus::Fresh);
    assert_eq!(roots.status(99), RootStatus::Unknown);
    roots.mark_stale(2);
    assert_eq!(roots.status(10), RootStatus::NearExpiry);
    assert_eq!(roots.status(11), RootStatus::NearExpiry);
    assert_eq!(roots.status(12), RootStatus::Fresh);
}

#[test]
fn root_window_is_bounded() {
    let mut roots = RootSet::new(2);
    roots.push_root(1);
    roots.push_root(2);
    roots.push_root(3);
    // the oldest root fell out of the window
    assert_eq!(roots.status(1), RootStatus::Unknown);
    assert_eq!(roots.status(2), RootStatus::Fresh);
    assert_eq!(roots.status(3), RootStatus::Fresh);
}

#[test]
fn verify_accepts_a_fresh_root() {
    let roots = roots_with(&[10]);
    assert_eq!(verify(&payload(10, 1, 2), &roots, true, false), Ok(()));
}

#[test]
fn verify_rejects_an_unknown_root() {
    let roots = roots_with(&[10]);
    assert_eq!(verify(&payload(99, 1, 2), &roots, true, false), Err(PbhError::UnknownRoot));
    // even a cryptographically valid proof is rejected fail-closed
    assert_eq!(verify(&payload(99, 1, 2), &roots, true, true), Err(PbhError::UnknownRoot));
}

#[test]
fn verify_applies_the_stale_root_policy() {
    let mut roots = roots_with(&[10, 11]);
    roots.mark_stale(1);
    assert_eq!(verify(&payload(10, 1, 2), &roots, true, false), Err(PbhError::StaleRoot));
    assert_eq!(verify(&payload(10, 1, 2), &roots, true, true), Ok(()));
}

#[test]
fn verify_rejects_a_failed_proof_check() {
    let roots = roots_with(&[10]);
    assert_eq!(verify(&payload(10, 1, 2), &roots, false, false), Err(PbhError::InvalidProof));
}

fn good_bundle() -> Bundle {
    Bundle {
        ops: vec![
            UserOperation { op_hash: 1, aggregator: AGGREGATOR },
            UserOperation { op_hash: 2, aggregator: AGGREGATOR },
        ],
        signature: AggregatedSignature {
            aggregator: AGGREGATOR,
            scheme_tag: 3,
            op_count: 2,
            signature_bytes: vec![9, 9],
        },
        payload: payload(10, 1, 2),
    }
}

#[test]
fn bundle_validation_accepts_a_well_aggregated_bundle() {
    assert_eq!(validate_bundle(&good_bundle(), &AGGREGATOR, 3), Ok(()));
}

#[test]
fn bundle_validation_rejects_mismatches() {
    let mut b = good_bundle();
    b.signature.op_count = 1;
    assert_eq!(validate_bundle(&b, &AGGREGATOR, 3), Err(PbhError::AggregationMismatch));

    let mut b = good_bundle();
    b.signature.scheme_tag = 4;
    assert_eq!(validate_bundle(&b, &AGGREGATOR, 3), Err(PbhError::AggregationMismatch));

    let mut b = good_bundle();
    b.signature.aggregator = [0xBB; 20];
    assert_eq!(validate_bundle(&b, &AGGREGATOR, 3), Err(PbhError::AggregationMismatch));

    let mut b = good_bundle();
    b.ops[1].aggregator = [0xBB; 20];
    assert_eq!(validate_bundle(&b, &AGGREGATOR, 3), Err(PbhError::AggregationMismatch));

    let mut b = good_bundle();
    b.ops.clear();
    b.signature.op_count = 0;
    assert_eq!(validate_bundle(&b, &AGGREGATOR, 3), Err(PbhError::AggregationMismatch));
}

#[test]
fn regular_partition_orders_by_fee_then_arrival() {
    let mut pool = PbhPool::new(16);
    pool.submit_regular(tx(1, 100, 5)).unwrap();
    pool.submit_regular(tx(2, 100, 10)).unwrap();
    pool.submit_regular(tx(3, 100, 7)).unwrap();
    pool.submit_regular(tx(4, 100, 10)).unwrap();
    let order: Vec<u64> = pool.regular.iter().map(|e| e.tx.tx_id).collect();
    // descending fee; the two fee-10 entries keep arrival order
    assert_eq!(order, vec![2, 4, 3, 1]);
}

#[test]
fn regular_partition_rejects_overflow() {
    let mut pool = PbhPool::new(2);
    pool.submit_regular(tx(1, 100, 5)).unwrap();
    pool.submit_regular(tx(2, 100, 5)).unwrap();
    assert_eq!(pool.submit_regular(tx(3, 100, 5)), Err(PbhError::PoolFull));
    assert_eq!(pool.regular.len(), 2);
}

#[test]
fn unknown_root_never_reaches_a_partition() {
    // A proof whose root is outside the recognized window is rejected at
    // admission and mutates nothing: no pool entry, no reservation.
    let mut pool = PbhPool::new(16);
    let mut reg = NullifierRegistry::new(30, 1);
    let roots = roots_with(&[10]);
    let r = pool.submit_verified(tx(1, 100, 5), &payload(99, 1, 2), &mut reg, &roots, false, true);
    assert_eq!(r, Err(PbhError::UnknownRoot));
    assert_eq!(pool.verified.len(), 0);
    assert_eq!(pool.regular.len(), 0);
    assert_eq!(reg.used(2), 0);
}

#[test]
fn verified_admission_reserves_and_orders() {
    let mut pool = PbhPool::new(16);
    let mut reg = NullifierRegistry::new(30, 1);
    let roots = roots_with(&[10]);
    pool.submit_verified(tx(1, 100, 5), &payload(10, 100, 7), &mut reg, &roots, false, true)
        .unwrap();
    pool.submit_verified(tx(2, 100, 9), &payload(10, 101, 7), &mut reg, &roots, false, true)
        .unwrap();
    pool.submit_verified(tx(3, 100, 9), &payload(10, 102, 8), &mut reg, &roots, false, true)
        .unwrap();
    let order: Vec<u64> = pool.verified.iter().map(|e| e.tx.tx_id).collect();
    assert_eq!(order, vec![2, 3, 1]);
    assert_eq!(reg.used(7), 2);
    assert_eq!(reg.used(8), 1);
}

#[test]
fn quota_exceeded_admission_mutates_nothing() {
    let mut pool = PbhPool::new(16);
    let mut reg = NullifierRegistry::new(1, 1);
    let roots = roots_with(&[10]);
    pool.submit_verified(tx(1, 100, 5), &payload(10, 100, 7), &mut reg, &roots, false, true)
        .unwrap();
    let r = pool.submit_verified(tx(2, 100, 9), &payload(10, 101, 7), &mut reg, &roots, false, true);
    assert_eq!(r, Err(PbhError::QuotaExceeded));
    assert_eq!(pool.verified.len(), 1);
    assert_eq!(reg.used(7), 1);
}

#[test]
fn bundle_admission_validates_aggregation_first() {
    let mut pool = PbhPool::new(16);
    let mut reg = NullifierRegistry::new(30, 1);
    let roots = roots_with(&[10]);
    let mut bad = good_bundle();
    bad.signature.scheme_tag = 4;
    let r = pool.submit_bundle(
        tx(1, 100, 5),
        &bad,
        &mut reg,
        &roots,
        &AGGREGATOR,
        3,
        false,
        true,
    );
    assert_eq!(r, Err(PbhError::AggregationMismatch));
    assert_eq!(pool.verified.len(), 0);
    assert_eq!(reg.used(2), 0);

    let r = pool.submit_bundle(
        tx(1, 100, 5),
        &good_bundle(),
        &mut reg,
        &roots,
        &AGGREGATOR,
        3,
        false,
        true,
    );
    assert!(r.is_ok());
    assert_eq!(pool.verified.len(), 1);
    assert_eq!(reg.used(2), 1);
}

#[test]
fn bundle_admission_runs_the_identity_verifier_first() {
    // A bundle that fails both checks reports the identity verifier's
    // error: validation order is identity, then aggregation.
    let mut pool = PbhPool::new(16);
    let mut reg = NullifierRegistry::new(30, 1);
    let roots = roots_with(&[10]);
    let mut bad = good_bundle();
    bad.payload.root = 99;
    bad.signature.scheme_tag = 4;
    let r = pool.submit_bundle(
        tx(1, 100, 5),
        &bad,
        &mut reg,
        &roots,
        &AGGREGATOR,
        3,
        false,
        true,
    );
    assert_eq!(r, Err(PbhError::UnknownRoot));
    assert_eq!(pool.verified.len(), 0);
}

#[test]
fn evicting_a_verified_entry_releases_its_reservation() {
    let mut pool = PbhPool::new(16);
    let mut reg = NullifierRegistry::new(30, 1);
    let roots = roots_with(&[10]);
    pool.submit_verified(tx(1, 100, 5), &payload(10, 100, 7), &mut reg, &roots, false, true)
        .unwrap();
    assert_eq!(reg.used(7), 1);
    assert!(pool.evict_verified(1, &mut reg));
    assert_eq!(pool.verified.len(), 0);
    assert_eq!(reg.used(7), 0);
    assert!(!pool.evict_verified(1, &mut reg));
}

#[test]
fn evicting_a_regular_entry() {
    let mut pool = PbhPool::new(16);
    pool.submit_regular(tx(1, 100, 5)).unwrap();
    pool.submit_regular(tx(2, 100, 6)).unwrap();
    assert!(pool.evict_regular(1));
    assert!(!pool.evict_regular(1));
    let order: Vec<u64> = pool.regular.iter().map(|e| e.tx.tx_id).collect();
    assert_eq!(order, vec![2]);
}

#[test]
fn rollover_flush_drops_stale_entries_and_releases_them() {
    let mut pool = PbhPool::new(16);
    let mut reg = NullifierRegistry::new(30, 1);
    let roots = roots_with(&[10]);
    pool.submit_verified(tx(1, 100, 5), &payload(10, 100, 7), &mut reg, &roots, false, true)
        .unwrap();
    pool.submit_verified(tx(2, 100, 6), &payload(10, 101, 7), &mut reg, &roots, false, true)
        .unwrap();
    reg.observe_window(2);
    pool.submit_verified(tx(3, 100, 4), &payload(10, 102, 7), &mut reg, &roots, false, true)
        .unwrap();
    assert_eq!(reg.count_used(7, 1), 2);
    pool.clear_stale(&mut reg);
    let order: Vec<u64> = pool.verified.iter().map(|e| e.tx.tx_id).collect();
    assert_eq!(order, vec![3]);
    // the stale window-1 reservations were released; the current one stays
    assert_eq!(reg.count_used(7, 1), 0);
    assert_eq!(reg.used(7), 1);
}
