use world_chain_builder::error::PbhError;
use world_chain_builder::nullifier::NullifierRegistry;
use world_chain_builder::nullifier::Ticket;

fn reserve_ok(reg: &mut NullifierRegistry, en: u64, nh: u64) -> Ticket {
    match reg.reserve(en, nh) {
        Ok(t) => t,
        Err(e) => panic!("reserve unexpectedly failed: {:?}", e),
    }
}

#[test]
fn fresh_registry_is_empty() {
    let reg = NullifierRegistry::new(30, 1);
    assert_eq!(reg.quota, 30);
    assert_eq!(reg.window, 1);
    assert_eq!(reg.used(42), 0);
}

#[test]
fn reserve_increments_usage() {
    let mut reg = NullifierRegistry::new(30, 1);
    let t = reserve_ok(&mut reg, 7, 100);
    assert_eq!(t.id, 0);
    assert_eq!(t.external_nullifier, 7);
    assert_eq!(t.nullifier_hash, 100);
    assert_eq!(t.window_id, 1);
    assert_eq!(reg.used(7), 1);
    assert_eq!(reg.used(8), 0);
}

#[test]
fn quota_exhaustion_then_next_window_succeeds() {
    // An identity with used_count == quota == 30 submits a 31st
    // reservation in the same window: rejected with QuotaExceeded; the
    // same identity's first reservation in the next window succeeds.
    let mut reg = NullifierRegistry::new(30, 1);
    for k in 0..30u64 {
        let t = reserve_ok(&mut reg, 7, 1000 + k);
        assert!(reg.commit(&t));
    }
    assert_eq!(reg.used(7), 30);
    assert_eq!(reg.reserve(7, 2000), Err(PbhError::QuotaExceeded));
    assert_eq!(reg.used(7), 30);
    // another identity is unaffected
    reserve_ok(&mut reg, 8, 3000);
    // window rollover: prior records freeze, the bucket starts afresh
    reg.observe_window(2);
    let t = reserve_ok(&mut reg, 7, 4000);
    assert_eq!(t.window_id, 2);
    assert_eq!(reg.used(7), 1);
}

#[test]
fn release_then_reserve_restores_count() {
    // Release-then-reserve on the same external nullifier restores the
    // exact pre-reservation count.
    let mut reg = NullifierRegistry::new(30, 1);
    reserve_ok(&mut reg, 7, 100);
    reserve_ok(&mut reg, 7, 101);
    assert_eq!(reg.used(7), 2);
    let t = reserve_ok(&mut reg, 7, 102);
    assert_eq!(reg.used(7), 3);
    reg.release(&t);
    assert_eq!(reg.used(7), 2);
    let t2 = reserve_ok(&mut reg, 7, 103);
    assert_eq!(reg.used(7), 3);
    reg.release(&t2);
    assert_eq!(reg.used(7), 2);
}

#[test]
fn no_nullifier_hash_commits_twice() {
    // Concurrent speculative reservations of the same nullifier hash
    // resolve to exactly one commit; the loser is released.
    let mut reg = NullifierRegistry::new(30, 1);
    let a = reserve_ok(&mut reg, 7, 555);
    let b = reserve_ok(&mut reg, 9, 555);
    assert!(reg.commit(&a));
    assert!(reg.is_nullifier_committed(555));
    assert!(!reg.commit(&b));
    // the losing reservation no longer counts against its bucket
    assert_eq!(reg.used(9), 0);
    assert_eq!(reg.used(7), 1);
}

#[test]
fn commit_is_idempotent() {
    let mut reg = NullifierRegistry::new(30, 1);
    let t = reserve_ok(&mut reg, 7, 100);
    assert!(reg.commit(&t));
    assert!(reg.commit(&t));
    assert_eq!(reg.used(7), 1);
}

#[test]
fn release_after_commit_is_a_noop() {
    // Commit wins the race: a later release does not give the usage back.
    let mut reg = NullifierRegistry::new(30, 1);
    let t = reserve_ok(&mut reg, 7, 100);
    assert!(reg.commit(&t));
    reg.release(&t);
    assert_eq!(reg.used(7), 1);
    assert!(reg.is_nullifier_committed(100));
}

#[test]
fn release_is_idempotent() {
    let mut reg = NullifierRegistry::new(30, 1);
    let t = reserve_ok(&mut reg, 7, 100);
    reg.release(&t);
    reg.release(&t);
    assert_eq!(reg.used(7), 0);
    // a released reservation cannot be committed any more
    assert!(!reg.commit(&t));
    assert!(!reg.is_nullifier_committed(100));
}

#[test]
fn uncommit_reconciles_a_reorg() {
    // A reorg that un-canonicalizes a block releases the committed
    // reservation back to a free state.
    let mut reg = NullifierRegistry::new(30, 1);
    let t = reserve_ok(&mut reg, 7, 100);
    assert!(reg.commit(&t));
    assert!(reg.is_nullifier_committed(100));
    reg.uncommit(&t);
    assert!(!reg.is_nullifier_committed(100));
    assert_eq!(reg.used(7), 0);
    // the nullifier can be spent again afterwards
    let t2 = reserve_ok(&mut reg, 7, 100);
    assert!(reg.commit(&t2));
}

#[test]
fn clear_drops_all_state() {
    let mut reg = NullifierRegistry::new(30, 1);
    for k in 0..5u64 {
        reserve_ok(&mut reg, 7, k);
    }
    assert_eq!(reg.used(7), 5);
    reg.clear();
    assert_eq!(reg.used(7), 0);
    assert_eq!(reg.quota, 30);
    assert_eq!(reg.window, 1);
}
