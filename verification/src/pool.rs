use vstd::prelude::*;

use crate::bundle::Bundle;
use crate::bundle::spec_bundle_ok;
use crate::bundle::validate_bundle;
use crate::error::PbhError;
use crate::identity::PbhPayload;
use crate::identity::spec_verify;
use crate::identity::verify;
use crate::nullifier::NullifierRegistry;
use crate::nullifier::Ticket;
use crate::nullifier::TicketRecord;
use crate::nullifier::TicketState;
use crate::nullifier::released;
use crate::nullifier::used_count;
use crate::roots::RootSet;

verus! {

/// A raw transaction as the core reads it: an identifying hash, its gas
/// limit, and its fee-derived priority score.
#[derive(Clone, Copy, Debug)]
pub struct RawTransaction {
    /// Identifying hash of the transaction.
    pub tx_id: u64,
    /// Gas the transaction may consume.
    pub gas_limit: u64,
    /// Effective priority fee; higher is served first.
    pub priority_fee: u64,
}

/// An admitted verified transaction together with the quota reservation it
/// holds and its arrival sequence number.
#[derive(Clone, Copy, Debug)]
pub struct VerifiedEntry {
    /// The transaction itself.
    pub tx: RawTransaction,
    /// The speculative reservation taken for it at admission.
    pub ticket: Ticket,
    /// Arrival sequence number; breaks priority ties deterministically.
    pub seq: u64,
}

/// An admitted regular transaction with its arrival sequence number.
#[derive(Clone, Copy, Debug)]
pub struct RegularEntry {
    /// The transaction itself.
    pub tx: RawTransaction,
    /// Arrival sequence number; breaks priority ties deterministically.
    pub seq: u64,
}

/// Strict ordering of pool entries: descending priority fee, ties broken
/// by arrival order (never by value), so that replay over an identical
/// pool state is deterministic.
pub open spec fn precedes(pa: u64, sa: u64, pb: u64, sb: u64) -> bool {
    pa > pb || (pa == pb && sa < sb)
}

/// The verified partition is strictly ordered.
pub open spec fn verified_sorted(s: Seq<VerifiedEntry>) -> bool {
    forall|i: int, j: int|
        0 <= i < j < s.len() ==> precedes(
            #[trigger] s[i].tx.priority_fee,
            s[i].seq,
            #[trigger] s[j].tx.priority_fee,
            s[j].seq,
        )
}

/// The regular partition is strictly ordered.
pub open spec fn regular_sorted(s: Seq<RegularEntry>) -> bool {
    forall|i: int, j: int|
        0 <= i < j < s.len() ==> precedes(
            #[trigger] s[i].tx.priority_fee,
            s[i].seq,
            #[trigger] s[j].tx.priority_fee,
            s[j].seq,
        )
}

/// Inserting between the entries that precede it and those it precedes
/// keeps the verified partition ordered.
proof fn lemma_verified_insert_sorted(s: Seq<VerifiedEntry>, k: int, e: VerifiedEntry)
    requires
        verified_sorted(s),
        0 <= k <= s.len(),
        forall|i: int|
            0 <= i < k ==> precedes(
                #[trigger] s[i].tx.priority_fee,
                s[i].seq,
                e.tx.priority_fee,
                e.seq,
            ),
        forall|j: int|
            k <= j < s.len() ==> precedes(
                e.tx.priority_fee,
                e.seq,
                #[trigger] s[j].tx.priority_fee,
                s[j].seq,
            ),
    ensures
        verified_sorted(s.insert(k, e)),
{
    s.insert_ensures(k, e);
    let t = s.insert(k, e);
    assert forall|i: int, j: int|
        0 <= i < j < t.len() implies precedes(
        t[i].tx.priority_fee,
        t[i].seq,
        t[j].tx.priority_fee,
        t[j].seq,
    ) by {
        if i > k {
            assert(t[i] == s[i - 1]);
        }
        if j > k {
            assert(t[j] == s[j - 1]);
        }
    }
}

/// Inserting between the entries that precede it and those it precedes
/// keeps the regular partition ordered.
proof fn lemma_regular_insert_sorted(s: Seq<RegularEntry>, k: int, e: RegularEntry)
    requires
        regular_sorted(s),
        0 <= k <= s.len(),
        forall|i: int|
            0 <= i < k ==> precedes(
                #[trigger] s[i].tx.priority_fee,
                s[i].seq,
                e.tx.priority_fee,
                e.seq,
            ),
        forall|j: int|
            k <= j < s.len() ==> precedes(
                e.tx.priority_fee,
                e.seq,
                #[trigger] s[j].tx.priority_fee,
                s[j].seq,
            ),
    ensures
        regular_sorted(s.insert(k, e)),
{
    s.insert_ensures(k, e);
    let t = s.insert(k, e);
    assert forall|i: int, j: int|
        0 <= i < j < t.len() implies precedes(
        t[i].tx.priority_fee,
        t[i].seq,
        t[j].tx.priority_fee,
        t[j].seq,
    ) by {
        if i > k {
            assert(t[i] == s[i - 1]);
        }
        if j > k {
            assert(t[j] == s[j - 1]);
        }
    }
}

/// Removing an entry keeps the verified partition ordered.
proof fn lemma_verified_remove_sorted(s: Seq<VerifiedEntry>, k: int)
    requires
        verified_sorted(s),
        0 <= k < s.len(),
    ensures
        verified_sorted(s.remove(k)),
{
    s.remove_ensures(k);
    let t = s.remove(k);
    assert forall|i: int, j: int|
        0 <= i < j < t.len() implies precedes(
        t[i].tx.priority_fee,
        t[i].seq,
        t[j].tx.priority_fee,
        t[j].seq,
    ) by {
        if i >= k {
            assert(t[i] == s[i + 1]);
        }
        if j >= k {
            assert(t[j] == s[j + 1]);
        }
    }
}

/// Removing an entry keeps the regular partition ordered.
proof fn lemma_regular_remove_sorted(s: Seq<RegularEntry>, k: int)
    requires
        regular_sorted(s),
        0 <= k < s.len(),
    ensures
        regular_sorted(s.remove(k)),
{
    s.remove_ensures(k);
    let t = s.remove(k);
    assert forall|i: int, j: int|
        0 <= i < j < t.len() implies precedes(
        t[i].tx.priority_fee,
        t[i].seq,
        t[j].tx.priority_fee,
        t[j].seq,
    ) by {
        if i >= k {
            assert(t[i] == s[i + 1]);
        }
        if j >= k {
            assert(t[j] == s[j + 1]);
        }
    }
}

/// The verified entries whose reservation belongs to window `w`, in their
/// original order: what a rollover flush keeps.
pub open spec fn retained(s: Seq<VerifiedEntry>, w: u64) -> Seq<VerifiedEntry>
    decreases s.len(),
{
    if s.len() == 0 {
        Seq::empty()
    } else if s.last().ticket.window_id == w {
        retained(s.drop_last(), w).push(s.last())
    } else {
        retained(s.drop_last(), w)
    }
}

/// `retained` peeled from the front instead of the back.
proof fn lemma_retained_front(s: Seq<VerifiedEntry>, w: u64)
    requires
        s.len() > 0,
    ensures
        retained(s, w) == if s[0].ticket.window_id == w {
            seq![s[0]] + retained(s.drop_first(), w)
        } else {
            retained(s.drop_first(), w)
        },
    decreases s.len(),
{
    if s.len() == 1 {
        assert(s.drop_last() =~= Seq::<VerifiedEntry>::empty());
        assert(s.drop_first() =~= Seq::<VerifiedEntry>::empty());
        assert(s.last() == s[0]);
        if s[0].ticket.window_id == w {
            assert(retained(s, w) =~= seq![s[0]] + retained(s.drop_first(), w));
        }
    } else {
        let s1 = s.drop_last();
        lemma_retained_front(s1, w);
        assert(s1[0] == s[0]);
        assert(s1.drop_first() =~= s.drop_first().drop_last());
        assert(s.drop_first().last() == s.last());
        if s[0].ticket.window_id == w {
            assert((seq![s[0]] + retained(s1.drop_first(), w)).push(s.last()) =~= seq![s[0]]
                + retained(s1.drop_first(), w).push(s.last()));
        }
    }
}

/// Everything `retained` keeps comes from the original sequence.
proof fn lemma_retained_membership(s: Seq<VerifiedEntry>, w: u64)
    ensures
        forall|i: int|
            0 <= i < retained(s, w).len() ==> s.contains(#[trigger] retained(s, w)[i]),
    decreases s.len(),
{
    if s.len() > 0 {
        lemma_retained_membership(s.drop_last(), w);
        let s1 = s.drop_last();
        let r1 = retained(s1, w);
        let r = retained(s, w);
        assert forall|i: int| 0 <= i < r.len() implies s.contains(r[i]) by {
            if i < r1.len() {
                assert(r[i] == r1[i]);
                assert(s1.contains(r1[i]));
                let k = choose|k: int| 0 <= k < s1.len() && s1[k] == r1[i];
                assert(s[k] == r1[i]);
            } else {
                assert(r[i] == s.last());
                assert(s[s.len() - 1] == s.last());
            }
        }
    }
}

/// A rollover flush keeps the partition ordered.
proof fn lemma_retained_sorted(s: Seq<VerifiedEntry>, w: u64)
    requires
        verified_sorted(s),
    ensures
        verified_sorted(retained(s, w)),
    decreases s.len(),
{
    if s.len() > 0 {
        let s1 = s.drop_last();
        assert forall|i: int, j: int|
            0 <= i < j < s1.len() implies precedes(
            s1[i].tx.priority_fee,
            s1[i].seq,
            s1[j].tx.priority_fee,
            s1[j].seq,
        ) by {
            assert(s1[i] == s[i]);
            assert(s1[j] == s[j]);
        }
        lemma_retained_sorted(s1, w);
        lemma_retained_membership(s1, w);
        let r1 = retained(s1, w);
        let r = retained(s, w);
        if s.last().ticket.window_id == w {
            assert forall|i: int, j: int|
                0 <= i < j < r.len() implies precedes(
                r[i].tx.priority_fee,
                r[i].seq,
                r[j].tx.priority_fee,
                r[j].seq,
            ) by {
                if j < r1.len() {
                    assert(r[i] == r1[i]);
                    assert(r[j] == r1[j]);
                } else {
                    assert(r[j] == s.last());
                    assert(r[i] == r1[i]);
                    assert(s1.contains(r1[i]));
                    let k = choose|k: int| 0 <= k < s1.len() && s1[k] == r1[i];
                    assert(s[k] == r1[i]);
                    assert(precedes(
                        s[k].tx.priority_fee,
                        s[k].seq,
                        s[s.len() - 1].tx.priority_fee,
                        s[s.len() - 1].seq,
                    ));
                }
            }
        }
    }
}

/// Admission layer over the generic transaction pool: classifies incoming
/// items as verified or regular and maintains the two priority-ordered
/// partitions the payload assembler selects from.
#[derive(Clone, Debug)]
pub struct PbhPool {
    /// Transactions admitted with a valid proof and a quota reservation,
    /// in selection order.
    pub verified: Vec<VerifiedEntry>,
    /// Ordinary transactions, in selection order.
    pub regular: Vec<RegularEntry>,
    /// Next arrival sequence number.
    pub next_seq: u64,
    /// Bound on the size of each partition.
    pub max_pool_size: usize,
}

impl PbhPool {
    /// Pool invariant: both partitions strictly ordered, every arrival
    /// number already handed out, and no reservation referenced twice.
    pub open spec fn wf(self) -> bool {
        &&& verified_sorted(self.verified@)
        &&& regular_sorted(self.regular@)
        &&& forall|i: int|
            0 <= i < self.verified@.len() ==> #[trigger] self.verified@[i].seq < self.next_seq
        &&& forall|i: int|
            0 <= i < self.regular@.len() ==> #[trigger] self.regular@[i].seq < self.next_seq
        &&& forall|i: int, j: int|
            0 <= i < j < self.verified@.len() ==> #[trigger] self.verified@[i].ticket.id
                != #[trigger] self.verified@[j].ticket.id
    }

    /// Every reservation the verified partition references was issued by
    /// `reg` and still carries the same identifying fields there.
    pub open spec fn tickets_valid(self, reg: NullifierRegistry) -> bool {
        forall|i: int|
            0 <= i < self.verified@.len() ==> reg.holds_ticket(
                #[trigger] self.verified@[i].ticket,
            )
    }

    /// An empty pool accepting up to `max_pool_size` entries per partition.
    pub fn new(max_pool_size: usize) -> (r: PbhPool)
        ensures
            r.wf(),
            r.verified@.len() == 0,
            r.regular@.len() == 0,
            r.next_seq == 0,
            r.max_pool_size == max_pool_size,
    {
        PbhPool { verified: Vec::new(), regular: Vec::new(), next_seq: 0, max_pool_size }
    }

    /// Admits an ordinary transaction into the regular partition, in
    /// priority order with ties broken by arrival.
    pub fn submit_regular(&mut self, tx: RawTransaction) -> (r: Result<(), PbhError>)
        requires
            old(self).wf(),
            old(self).next_seq < u64::MAX,
        ensures
            final(self).wf(),
            final(self).max_pool_size == old(self).max_pool_size,
            final(self).verified@ == old(self).verified@,
            match r {
                Ok(()) => {
                    &&& old(self).regular@.len() < old(self).max_pool_size
                    &&& final(self).next_seq == old(self).next_seq + 1
                    &&& exists|k: int|
                        0 <= k <= old(self).regular@.len() && final(self).regular@ == old(
                            self,
                        ).regular@.insert(
                            k,
                            (RegularEntry { tx, seq: old(self).next_seq }),
                        ) && (forall|i: int|
                            0 <= i < k ==> old(self).regular@[i].tx.priority_fee
                                >= tx.priority_fee) && (k == old(self).regular@.len() || old(
                            self,
                        ).regular@[k].tx.priority_fee < tx.priority_fee)
                },
                Err(e) => {
                    &&& e == PbhError::PoolFull
                    &&& old(self).regular@.len() >= old(self).max_pool_size
                    &&& *final(self) == *old(self)
                },
            },
    {
        if self.regular.len() >= self.max_pool_size {
            return Err(PbhError::PoolFull);
        }
        let entry = RegularEntry { tx, seq: self.next_seq };
        let mut k: usize = 0;
        while k < self.regular.len() && self.regular[k].tx.priority_fee >= tx.priority_fee
            invariant
                k <= self.regular@.len(),
                forall|i: int|
                    0 <= i < k ==> #[trigger] self.regular@[i].tx.priority_fee
                        >= tx.priority_fee,
            decreases self.regular@.len() - k,
        {
            k += 1;
        }
        let ghost old_seq = self.regular@;
        let ghost pos = k as int;
        proof {
            lemma_regular_insert_sorted(old_seq, pos, entry);
        }
        self.regular.insert(k, entry);
        self.next_seq = self.next_seq + 1;
        proof {
            assert(final(self).regular@ == old_seq.insert(pos, entry));
        }
        Ok(())
    }

    /// Admission gate for a proof-carrying transaction: validates the
    /// proof against the root window and the proof system's verdict, takes
    /// a speculative quota reservation, and only then inserts into the
    /// verified partition — so a rejection never mutates any state.
    pub fn submit_verified(
        &mut self,
        tx: RawTransaction,
        payload: &PbhPayload,
        registry: &mut NullifierRegistry,
        roots: &RootSet,
        allow_stale: bool,
        proof_check_passed: bool,
    ) -> (r: Result<Ticket, PbhError>)
        requires
            old(self).wf(),
            old(registry).wf(),
            old(self).tickets_valid(*old(registry)),
            roots.wf(),
            old(self).next_seq < u64::MAX,
        ensures
            final(self).wf(),
            final(registry).wf(),
            final(self).tickets_valid(*final(registry)),
            final(self).max_pool_size == old(self).max_pool_size,
            final(registry).quota == old(registry).quota,
            final(registry).window == old(registry).window,
            match r {
                Ok(t) => {
                    &&& old(self).verified@.len() < old(self).max_pool_size
                    &&& spec_verify(*payload, *roots, proof_check_passed, allow_stale)
                        == Ok::<(), PbhError>(())
                    &&& used_count(
                        old(registry).tickets@,
                        payload.external_nullifier,
                        old(registry).window,
                    ) < old(registry).quota
                    &&& t.id == old(registry).tickets@.len()
                    &&& t.external_nullifier == payload.external_nullifier
                    &&& t.nullifier_hash == payload.nullifier_hash
                    &&& t.window_id == old(registry).window
                    &&& final(registry).tickets@ == old(registry).tickets@.push(
                        (TicketRecord {
                            external_nullifier: payload.external_nullifier,
                            nullifier_hash: payload.nullifier_hash,
                            window_id: old(registry).window,
                            state: TicketState::Speculative,
                        }),
                    )
                    &&& final(self).regular@ == old(self).regular@
                    &&& final(self).next_seq == old(self).next_seq + 1
                    &&& exists|k: int|
                        0 <= k <= old(self).verified@.len() && final(self).verified@ == old(
                            self,
                        ).verified@.insert(
                            k,
                            (VerifiedEntry { tx, ticket: t, seq: old(self).next_seq }),
                        ) && (forall|i: int|
                            0 <= i < k ==> old(self).verified@[i].tx.priority_fee
                                >= tx.priority_fee) && (k == old(self).verified@.len() || old(
                            self,
                        ).verified@[k].tx.priority_fee < tx.priority_fee)
                },
                Err(e) => {
                    &&& *final(self) == *old(self)
                    &&& *final(registry) == *old(registry)
                    &&& ({
                        let vr = spec_verify(*payload, *roots, proof_check_passed, allow_stale);
                        if old(self).verified@.len() >= old(self).max_pool_size {
                            e == PbhError::PoolFull
                        } else if vr != Ok::<(), PbhError>(()) {
                            vr == Err::<(), PbhError>(e)
                        } else {
                            e == PbhError::QuotaExceeded && used_count(
                                old(registry).tickets@,
                                payload.external_nullifier,
                                old(registry).window,
                            ) >= old(registry).quota
                        }
                    })
                },
            },
    {
        if self.verified.len() >= self.max_pool_size {
            return Err(PbhError::PoolFull);
        }
        match verify(payload, roots, proof_check_passed, allow_stale) {
            Err(e) => {
                return Err(e);
            },
            Ok(()) => {},
        }
        let t = match registry.reserve(payload.external_nullifier, payload.nullifier_hash) {
            Err(e) => {
                return Err(e);
            },
            Ok(t) => t,
        };
        let entry = VerifiedEntry { tx, ticket: t, seq: self.next_seq };
        let mut k: usize = 0;
        while k < self.verified.len() && self.verified[k].tx.priority_fee >= tx.priority_fee
            invariant
                k <= self.verified@.len(),
                forall|i: int|
                    0 <= i < k ==> #[trigger] self.verified@[i].tx.priority_fee
                        >= tx.priority_fee,
            decreases self.verified@.len() - k,
        {
            k += 1;
        }
        let ghost old_pool = self.verified@;
        let ghost pos = k as int;
        proof {
            lemma_verified_insert_sorted(old_pool, pos, entry);
            assert forall|i: int|
                0 <= i < old_pool.len() implies #[trigger] old_pool[i].ticket.id
                != entry.ticket.id by {
                assert(old(registry).holds_ticket(old_pool[i].ticket));
            }
        }
        self.verified.insert(k, entry);
        self.next_seq = self.next_seq + 1;
        proof {
            old_pool.insert_ensures(pos, entry);
            assert(final(self).verified@ == old_pool.insert(pos, entry));
            assert forall|i: int|
                0 <= i < self.verified@.len() implies registry.holds_ticket(
                #[trigger] self.verified@[i].ticket,
            ) by {
                let e = self.verified@[i];
                if i < pos {
                    assert(e == old_pool[i]);
                    assert(old(registry).holds_ticket(e.ticket));
                } else if i == pos {
                    assert(e == entry);
                } else {
                    assert(e == old_pool[i - 1]);
                    assert(old(registry).holds_ticket(e.ticket));
                }
            }
        }
        Ok(t)
    }

    /// Admission gate for an ERC-4337-style bundle: runs the identity
    /// verifier on the bundle's payload, then the aggregator validator,
    /// then follows the proof-carrying admission path.
    pub fn submit_bundle(
        &mut self,
        tx: RawTransaction,
        bundle: &Bundle,
        registry: &mut NullifierRegistry,
        roots: &RootSet,
        aggregator: &[u8; 20],
        scheme_tag: u8,
        allow_stale: bool,
        proof_check_passed: bool,
    ) -> (r: Result<Ticket, PbhError>)
        requires
            old(self).wf(),
            old(registry).wf(),
            old(self).tickets_valid(*old(registry)),
            roots.wf(),
            old(self).next_seq < u64::MAX,
        ensures
            final(self).wf(),
            final(registry).wf(),
            final(self).tickets_valid(*final(registry)),
            final(self).max_pool_size == old(self).max_pool_size,
            final(registry).quota == old(registry).quota,
            final(registry).window == old(registry).window,
            match r {
                Ok(t) => {
                    &&& spec_bundle_ok(*bundle, aggregator@, scheme_tag)
                    &&& old(self).verified@.len() < old(self).max_pool_size
                    &&& spec_verify(bundle.payload, *roots, proof_check_passed, allow_stale)
                        == Ok::<(), PbhError>(())
                    &&& used_count(
                        old(registry).tickets@,
                        bundle.payload.external_nullifier,
                        old(registry).window,
                    ) < old(registry).quota
                    &&& t.id == old(registry).tickets@.len()
                    &&& t.external_nullifier == bundle.payload.external_nullifier
                    &&& t.nullifier_hash == bundle.payload.nullifier_hash
                    &&& t.window_id == old(registry).window
                    &&& final(registry).tickets@ == old(registry).tickets@.push(
                        (TicketRecord {
                            external_nullifier: bundle.payload.external_nullifier,
                            nullifier_hash: bundle.payload.nullifier_hash,
                            window_id: old(registry).window,
                            state: TicketState::Speculative,
                        }),
                    )
                    &&& final(self).regular@ == old(self).regular@
                    &&& final(self).next_seq == old(self).next_seq + 1
                },
                Err(e) => {
                    &&& *final(self) == *old(self)
                    &&& *final(registry) == *old(registry)
                    &&& ({
                        let vr = spec_verify(
                            bundle.payload,
                            *roots,
                            proof_check_passed,
                            allow_stale,
                        );
                        if old(self).verified@.len() >= old(self).max_pool_size {
                            e == PbhError::PoolFull
                        } else if vr != Ok::<(), PbhError>(()) {
                            vr == Err::<(), PbhError>(e)
                        } else if !spec_bundle_ok(*bundle, aggregator@, scheme_tag) {
                            e == PbhError::AggregationMismatch
                        } else {
                            e == PbhError::QuotaExceeded && used_count(
                                old(registry).tickets@,
                                bundle.payload.external_nullifier,
                                old(registry).window,
                            ) >= old(registry).quota
                        }
                    })
                },
            },
    {
        if self.verified.len() >= self.max_pool_size {
            return Err(PbhError::PoolFull);
        }
        match verify(&bundle.payload, roots, proof_check_passed, allow_stale) {
            Err(e) => {
                return Err(e);
            },
            Ok(()) => {},
        }
        match validate_bundle(bundle, aggregator, scheme_tag) {
            Err(e) => {
                return Err(e);
            },
            Ok(()) => {},
        }
        self.submit_verified(tx, &bundle.payload, registry, roots, allow_stale, proof_check_passed)
    }

    /// Whether the verified partition holds a transaction with this hash.
    pub open spec fn has_verified_tx(self, tx_id: u64) -> bool {
        exists|i: int| 0 <= i < self.verified@.len() && self.verified@[i].tx.tx_id == tx_id
    }

    /// Evicts a verified transaction (replacement, overflow or expiry),
    /// releasing the quota reservation it held.
    pub fn evict_verified(&mut self, tx_id: u64, registry: &mut NullifierRegistry) -> (r: bool)
        requires
            old(self).wf(),
            old(registry).wf(),
            old(self).tickets_valid(*old(registry)),
        ensures
            final(self).wf(),
            final(registry).wf(),
            final(self).tickets_valid(*final(registry)),
            final(self).max_pool_size == old(self).max_pool_size,
            final(self).next_seq == old(self).next_seq,
            final(self).regular@ == old(self).regular@,
            final(registry).quota == old(registry).quota,
            final(registry).window == old(registry).window,
            r == old(self).has_verified_tx(tx_id),
            !r ==> *final(self) == *old(self) && *final(registry) == *old(registry),
            r ==> exists|i: int|
                {
                    &&& 0 <= i < old(self).verified@.len()
                    &&& (#[trigger] old(self).verified@[i]).tx.tx_id == tx_id
                    &&& (forall|j: int| 0 <= j < i ==> old(self).verified@[j].tx.tx_id != tx_id)
                    &&& final(self).verified@ == old(self).verified@.remove(i)
                    &&& final(registry).tickets@ == ({
                        let tk = old(self).verified@[i].ticket;
                        let rec = old(registry).tickets@[tk.id as int];
                        if rec.state == TicketState::Speculative {
                            old(registry).tickets@.update(
                                tk.id as int,
                                (TicketRecord { state: TicketState::Released, ..rec }),
                            )
                        } else {
                            old(registry).tickets@
                        }
                    })
                },
    {
        let mut i: usize = 0;
        while i < self.verified.len() && self.verified[i].tx.tx_id != tx_id
            invariant
                i <= self.verified@.len(),
                forall|j: int| 0 <= j < i ==> #[trigger] self.verified@[j].tx.tx_id != tx_id,
            decreases self.verified@.len() - i,
        {
            i += 1;
        }
        if i == self.verified.len() {
            proof {
                assert(!self.has_verified_tx(tx_id));
            }
            return false;
        }
        let entry = self.verified[i];
        let ghost old_pool = self.verified@;
        let ghost pos = i as int;
        registry.release(&entry.ticket);
        proof {
            lemma_verified_remove_sorted(old_pool, pos);
            old_pool.remove_ensures(pos);
        }
        self.verified.remove(i);
        proof {
            assert forall|m: int|
                0 <= m < self.verified@.len() implies registry.holds_ticket(
                #[trigger] self.verified@[m].ticket,
            ) by {
                if m < pos {
                    assert(self.verified@[m] == old_pool[m]);
                    assert(old(registry).holds_ticket(old_pool[m].ticket));
                } else {
                    assert(self.verified@[m] == old_pool[m + 1]);
                    assert(old(registry).holds_ticket(old_pool[m + 1].ticket));
                }
            }
            assert(old(self).has_verified_tx(tx_id));
        }
        true
    }

    /// Whether the regular partition holds a transaction with this hash.
    pub open spec fn has_regular_tx(self, tx_id: u64) -> bool {
        exists|i: int| 0 <= i < self.regular@.len() && self.regular@[i].tx.tx_id == tx_id
    }

    /// Evicts a regular transaction (replacement, overflow or expiry).
    pub fn evict_regular(&mut self, tx_id: u64) -> (r: bool)
        requires
            old(self).wf(),
        ensures
            final(self).wf(),
            final(self).max_pool_size == old(self).max_pool_size,
            final(self).next_seq == old(self).next_seq,
            final(self).verified@ == old(self).verified@,
            r == old(self).has_regular_tx(tx_id),
            !r ==> *final(self) == *old(self),
            r ==> exists|i: int|
                {
                    &&& 0 <= i < old(self).regular@.len()
                    &&& (#[trigger] old(self).regular@[i]).tx.tx_id == tx_id
                    &&& (forall|j: int| 0 <= j < i ==> old(self).regular@[j].tx.tx_id != tx_id)
                    &&& final(self).regular@ == old(self).regular@.remove(i)
                },
    {
        let mut i: usize = 0;
        while i < self.regular.len() && self.regular[i].tx.tx_id != tx_id
            invariant
                i <= self.regular@.len(),
                forall|j: int| 0 <= j < i ==> #[trigger] self.regular@[j].tx.tx_id != tx_id,
            decreases self.regular@.len() - i,
        {
            i += 1;
        }
        if i == self.regular.len() {
            proof {
                assert(!self.has_regular_tx(tx_id));
            }
            return false;
        }
        let ghost old_pool = self.regular@;
        let ghost pos = i as int;
        proof {
            lemma_regular_remove_sorted(old_pool, pos);
            old_pool.remove_ensures(pos);
        }
        self.regular.remove(i);
        proof {
            assert(old(self).has_regular_tx(tx_id));
        }
        true
    }

    /// Rollover flush: drops every verified entry whose reservation
    /// belongs to a window other than the registry's current one,
    /// releasing each reservation it still holds. Committed reservations
    /// are never touched.
    #[verifier::loop_isolation(false)]
    pub fn clear_stale(&mut self, registry: &mut NullifierRegistry)
        requires
            old(self).wf(),
            old(registry).wf(),
            old(self).tickets_valid(*old(registry)),
        ensures
            final(self).wf(),
            final(registry).wf(),
            final(self).tickets_valid(*final(registry)),
            final(self).max_pool_size == old(self).max_pool_size,
            final(self).next_seq == old(self).next_seq,
            final(self).regular@ == old(self).regular@,
            final(registry).quota == old(registry).quota,
            final(registry).window == old(registry).window,
            final(registry).tickets@.len() == old(registry).tickets@.len(),
            final(self).verified@ == retained(old(self).verified@, old(registry).window),
            forall|j: int|
                0 <= j < old(registry).tickets@.len() ==> #[trigger] final(registry).tickets@[j]
                    == old(registry).tickets@[j] || final(registry).tickets@[j] == released(
                    old(registry).tickets@[j],
                ),
            forall|j: int|
                0 <= j < old(registry).tickets@.len() && old(registry).tickets@[j].state
                    != TicketState::Speculative ==> #[trigger] final(registry).tickets@[j] == old(
                    registry,
                ).tickets@[j],
    {
        let w = registry.window;
        let ghost olds = old(self).verified@;
        let ghost olen = olds.len() as int;
        let mut i: usize = self.verified.len();
        proof {
            assert(olds.subrange(0, olen) =~= olds);
            assert(self.verified@ =~= olds.subrange(0, olen) + retained(
                olds.subrange(olen, olen),
                w,
            ));
        }
        while i > 0
            invariant
                i <= olen,
                self.verified@ == olds.subrange(0, i as int) + retained(
                    olds.subrange(i as int, olen),
                    w,
                ),
                self.regular@ == old(self).regular@,
                self.next_seq == old(self).next_seq,
                self.max_pool_size == old(self).max_pool_size,
                registry.wf(),
                registry.quota == old(registry).quota,
                registry.window == w,
                registry.tickets@.len() == old(registry).tickets@.len(),
                forall|j: int|
                    0 <= j < old(registry).tickets@.len() ==> {
                        &&& (#[trigger] registry.tickets@[j]).external_nullifier == old(
                            registry,
                        ).tickets@[j].external_nullifier
                        &&& registry.tickets@[j].nullifier_hash == old(
                            registry,
                        ).tickets@[j].nullifier_hash
                        &&& registry.tickets@[j].window_id == old(registry).tickets@[j].window_id
                    },
                forall|j: int|
                    0 <= j < old(registry).tickets@.len() ==> #[trigger] registry.tickets@[j]
                        == old(registry).tickets@[j] || registry.tickets@[j] == released(
                        old(registry).tickets@[j],
                    ),
                forall|j: int|
                    0 <= j < old(registry).tickets@.len() && old(registry).tickets@[j].state
                        != TicketState::Speculative ==> #[trigger] registry.tickets@[j] == old(
                        registry,
                    ).tickets@[j],
            decreases i,
        {
            let idx = i - 1;
            proof {
                assert(olds.subrange(0, i as int)[idx as int] == olds[idx as int]);
            }
            let entry = self.verified[idx];
            let ghost tail = olds.subrange(idx as int, olen);
            proof {
                lemma_retained_front(tail, w);
                assert(tail[0] == olds[idx as int]);
                assert(tail.drop_first() =~= olds.subrange(i as int, olen));
            }
            if entry.ticket.window_id != w {
                proof {
                    assert(old(registry).holds_ticket(olds[idx as int].ticket));
                    assert(registry.holds_ticket(entry.ticket));
                }
                registry.release(&entry.ticket);
                self.verified.remove(idx);
                proof {
                    assert(self.verified@ =~= olds.subrange(0, idx as int) + retained(
                        olds.subrange(idx as int, olen),
                        w,
                    ));
                }
            } else {
                proof {
                    assert(self.verified@ =~= olds.subrange(0, idx as int) + retained(
                        olds.subrange(idx as int, olen),
                        w,
                    ));
                }
            }
            i = idx;
        }
        proof {
            assert(olds.subrange(0, 0) =~= Seq::<VerifiedEntry>::empty());
            assert(olds.subrange(0, olen) =~= olds);
            assert(self.verified@ =~= retained(olds, w));
            let r = retained(olds, w);
            lemma_retained_sorted(olds, w);
            lemma_retained_membership(olds, w);
            assert forall|a: int| 0 <= a < r.len() implies (#[trigger] r[a]).seq < self.next_seq
                by {
                let k = choose|k: int| 0 <= k < olds.len() && olds[k] == r[a];
                assert(olds[k].seq < old(self).next_seq);
            }
            assert forall|a: int, b: int|
                0 <= a < b < r.len() implies (#[trigger] r[a]).ticket.id
                != (#[trigger] r[b]).ticket.id by {
                assert(precedes(r[a].tx.priority_fee, r[a].seq, r[b].tx.priority_fee, r[b].seq));
                assert(r[a] != r[b]);
                let k1 = choose|k: int| 0 <= k < olds.len() && olds[k] == r[a];
                let k2 = choose|k: int| 0 <= k < olds.len() && olds[k] == r[b];
                assert(k1 != k2);
                if k1 < k2 {
                    assert(olds[k1].ticket.id != olds[k2].ticket.id);
                } else {
                    assert(olds[k2].ticket.id != olds[k1].ticket.id);
                }
            }
            assert forall|a: int|
                0 <= a < r.len() implies registry.holds_ticket((#[trigger] r[a]).ticket) by {
                let k = choose|k: int| 0 <= k < olds.len() && olds[k] == r[a];
                assert(old(registry).holds_ticket(olds[k].ticket));
            }
        }
    }
}

} // verus!
