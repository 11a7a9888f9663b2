use vstd::prelude::*;

use crate::error::PbhError;

verus! {

/// Lifecycle state of a quota reservation.
#[derive(Clone, Copy, Debug, PartialEq, Eq, Structural)]
pub enum TicketState {
    /// Reserved at pool-admission time; counts toward the window quota but
    /// is not yet spent.
    Speculative,
    /// Finalized: the transaction entered a canonical block.
    Committed,
    /// Cancelled, or rolled back by a reorg; no longer counts.
    Released,
}

/// One reservation as recorded by the registry.
#[derive(Clone, Copy, Debug)]
pub struct TicketRecord {
    /// Quota bucket key the reservation counts against.
    pub external_nullifier: u64,
    /// The proof's one-time nullifier.
    pub nullifier_hash: u64,
    /// Window the reservation was taken in.
    pub window_id: u64,
    /// Current lifecycle state.
    pub state: TicketState,
}

/// Handle returned by `reserve`, identifying a reservation to `commit`,
/// `release` and `uncommit`.
#[derive(Clone, Copy, Debug, PartialEq, Eq, Structural)]
pub struct Ticket {
    /// Index of the reservation's record in the registry.
    pub id: usize,
    /// Quota bucket key the reservation counts against.
    pub external_nullifier: u64,
    /// The proof's one-time nullifier.
    pub nullifier_hash: u64,
    /// Window the reservation was taken in.
    pub window_id: u64,
}

/// Whether a record counts toward the quota of `en` in window `w`:
/// speculative and committed reservations both count, so that concurrent
/// speculative holders cannot overdraw the bucket.
pub open spec fn counts_toward_quota(t: TicketRecord, en: u64, w: u64) -> bool {
    t.external_nullifier == en && t.window_id == w && t.state != TicketState::Released
}

/// Number of records counting toward the quota of `en` in window `w`.
pub open spec fn used_count(s: Seq<TicketRecord>, en: u64, w: u64) -> nat
    decreases s.len(),
{
    if s.len() == 0 {
        0
    } else {
        used_count(s.drop_last(), en, w) + if counts_toward_quota(s.last(), en, w) {
            1nat
        } else {
            0nat
        }
    }
}

/// Number of committed records for `en` in window `w`.
pub open spec fn committed_count(s: Seq<TicketRecord>, en: u64, w: u64) -> nat
    decreases s.len(),
{
    if s.len() == 0 {
        0
    } else {
        committed_count(s.drop_last(), en, w) + if s.last().external_nullifier == en
            && s.last().window_id == w && s.last().state == TicketState::Committed {
            1nat
        } else {
            0nat
        }
    }
}

/// Number of committed records carrying the nullifier `nh`, over all
/// windows and buckets.
pub open spec fn committed_hash_count(s: Seq<TicketRecord>, nh: u64) -> nat
    decreases s.len(),
{
    if s.len() == 0 {
        0
    } else {
        committed_hash_count(s.drop_last(), nh) + if s.last().nullifier_hash == nh
            && s.last().state == TicketState::Committed {
            1nat
        } else {
            0nat
        }
    }
}

/// Appending a record adds its contribution to a usage count.
pub proof fn lemma_used_push(s: Seq<TicketRecord>, t: TicketRecord, en: u64, w: u64)
    ensures
        used_count(s.push(t), en, w) == used_count(s, en, w) + if counts_toward_quota(t, en, w) {
            1nat
        } else {
            0nat
        },
{
    assert(s.push(t).drop_last() =~= s);
    assert(s.push(t).last() == t);
}

/// Replacing the record at `i` exchanges its contribution in a usage count.
pub proof fn lemma_used_update(s: Seq<TicketRecord>, i: int, t: TicketRecord, en: u64, w: u64)
    requires
        0 <= i < s.len(),
    ensures
        used_count(s.update(i, t), en, w) + (if counts_toward_quota(s[i], en, w) {
            1nat
        } else {
            0nat
        }) == used_count(s, en, w) + if counts_toward_quota(t, en, w) {
            1nat
        } else {
            0nat
        },
    decreases s.len(),
{
    if i == s.len() - 1 {
        assert(s.update(i, t).drop_last() =~= s.drop_last());
        assert(s.update(i, t).last() == t);
    } else {
        assert(s.update(i, t).drop_last() =~= s.drop_last().update(i, t));
        assert(s.update(i, t).last() == s.last());
        lemma_used_update(s.drop_last(), i, t, en, w);
        assert(s.drop_last()[i] == s[i]);
    }
}

/// Appending a record adds its contribution to a committed-nullifier count.
pub proof fn lemma_hash_push(s: Seq<TicketRecord>, t: TicketRecord, nh: u64)
    ensures
        committed_hash_count(s.push(t), nh) == committed_hash_count(s, nh) + if t.nullifier_hash
            == nh && t.state == TicketState::Committed {
            1nat
        } else {
            0nat
        },
{
    assert(s.push(t).drop_last() =~= s);
    assert(s.push(t).last() == t);
}

/// Replacing the record at `i` exchanges its contribution in a
/// committed-nullifier count.
pub proof fn lemma_hash_update(s: Seq<TicketRecord>, i: int, t: TicketRecord, nh: u64)
    requires
        0 <= i < s.len(),
    ensures
        committed_hash_count(s.update(i, t), nh) + (if s[i].nullifier_hash == nh
            && s[i].state == TicketState::Committed {
            1nat
        } else {
            0nat
        }) == committed_hash_count(s, nh) + if t.nullifier_hash == nh
            && t.state == TicketState::Committed {
            1nat
        } else {
            0nat
        },
    decreases s.len(),
{
    if i == s.len() - 1 {
        assert(s.update(i, t).drop_last() =~= s.drop_last());
        assert(s.update(i, t).last() == t);
    } else {
        assert(s.update(i, t).drop_last() =~= s.drop_last().update(i, t));
        assert(s.update(i, t).last() == s.last());
        lemma_hash_update(s.drop_last(), i, t, nh);
        assert(s.drop_last()[i] == s[i]);
    }
}

/// One step of counting usage from the front.
proof fn lemma_used_subrange_step(s: Seq<TicketRecord>, i: int, en: u64, w: u64)
    requires
        0 <= i < s.len(),
    ensures
        used_count(s.subrange(0, i + 1), en, w) == used_count(s.subrange(0, i), en, w)
            + if counts_toward_quota(s[i], en, w) {
            1nat
        } else {
            0nat
        },
{
    let t = s.subrange(0, i + 1);
    assert(t.drop_last() =~= s.subrange(0, i));
    assert(t.last() == s[i]);
}

/// One step of counting a committed nullifier from the front.
proof fn lemma_hash_subrange_step(s: Seq<TicketRecord>, i: int, nh: u64)
    requires
        0 <= i < s.len(),
    ensures
        committed_hash_count(s.subrange(0, i + 1), nh) == committed_hash_count(
            s.subrange(0, i),
            nh,
        ) + if s[i].nullifier_hash == nh && s[i].state == TicketState::Committed {
            1nat
        } else {
            0nat
        },
{
    let t = s.subrange(0, i + 1);
    assert(t.drop_last() =~= s.subrange(0, i));
    assert(t.last() == s[i]);
}

/// Committed reservations are among those counting toward the quota.
pub proof fn lemma_committed_le_used(s: Seq<TicketRecord>, en: u64, w: u64)
    ensures
        committed_count(s, en, w) <= used_count(s, en, w),
    decreases s.len(),
{
    if s.len() > 0 {
        lemma_committed_le_used(s.drop_last(), en, w);
    }
}

/// Per-identity, per-window quota accounting for verification proofs.
///
/// A reservation is speculative from pool admission until the block that
/// carries it becomes canonical (`commit`) or the attempt is given up
/// (`release`). Speculative and committed reservations both count toward
/// the quota; released ones never do. Records of past windows freeze
/// automatically: `reserve` only writes the current window.
///
/// The registry is the one structure shared by pool admission and
/// concurrent build jobs; the embedding serializes access to it (per
/// bucket or coarser), and each operation here is a single atomic step of
/// that serialization.
#[derive(Clone, Debug)]
pub struct NullifierRegistry {
    /// Allowed reservations per external nullifier per window.
    pub quota: u64,
    /// The current window id, driven by the epoch source.
    pub window: u64,
    /// Every reservation ever taken, in reservation order; a `Ticket`'s
    /// `id` is its index here.
    pub tickets: Vec<TicketRecord>,
}

impl NullifierRegistry {
    /// Registry invariant: no bucket of any window is overdrawn, and no
    /// nullifier hash is committed twice.
    pub open spec fn wf(self) -> bool {
        &&& forall|en: u64, w: u64| #[trigger] used_count(self.tickets@, en, w) <= self.quota
        &&& forall|nh: u64| #[trigger] committed_hash_count(self.tickets@, nh) <= 1
    }

    /// The ticket is a handle the registry itself issued: its record
    /// exists and carries the same identifying fields.
    pub open spec fn holds_ticket(self, t: Ticket) -> bool {
        &&& t.id < self.tickets@.len()
        &&& self.tickets@[t.id as int].external_nullifier == t.external_nullifier
        &&& self.tickets@[t.id as int].nullifier_hash == t.nullifier_hash
        &&& self.tickets@[t.id as int].window_id == t.window_id
    }

    /// An empty registry for the given quota, starting in window `window`.
    pub fn new(quota: u64, window: u64) -> (r: NullifierRegistry)
        ensures
            r.wf(),
            r.quota == quota,
            r.window == window,
            r.tickets@.len() == 0,
    {
        let r = NullifierRegistry { quota, window, tickets: Vec::new() };
        proof {
            assert forall|en: u64, w: u64| #[trigger]
                used_count(r.tickets@, en, w) <= r.quota by {
                assert(used_count(r.tickets@, en, w) == 0);
            }
            assert forall|nh: u64| #[trigger] committed_hash_count(r.tickets@, nh) <= 1 by {
                assert(committed_hash_count(r.tickets@, nh) == 0);
            }
        }
        r
    }

    /// Counts the reservations held against `en` in window `w`.
    pub fn count_used(&self, en: u64, w: u64) -> (r: u64)
        ensures
            r == used_count(self.tickets@, en, w),
    {
        let mut i: usize = 0;
        let mut acc: u64 = 0;
        proof {
            assert(self.tickets@.subrange(0, 0) =~= Seq::<TicketRecord>::empty());
        }
        while i < self.tickets.len()
            invariant
                i <= self.tickets@.len(),
                acc <= i,
                acc == used_count(self.tickets@.subrange(0, i as int), en, w),
            decreases self.tickets@.len() - i,
        {
            proof {
                lemma_used_subrange_step(self.tickets@, i as int, en, w);
            }
            let t = self.tickets[i];
            if t.external_nullifier == en && t.window_id == w && t.state != TicketState::Released {
                acc = acc + 1;
            }
            i += 1;
        }
        proof {
            assert(self.tickets@.subrange(0, self.tickets@.len() as int) =~= self.tickets@);
        }
        acc
    }

    /// Counts the committed reservations carrying the nullifier `nh`.
    pub fn count_committed_hash(&self, nh: u64) -> (r: u64)
        ensures
            r == committed_hash_count(self.tickets@, nh),
    {
        let mut i: usize = 0;
        let mut acc: u64 = 0;
        proof {
            assert(self.tickets@.subrange(0, 0) =~= Seq::<TicketRecord>::empty());
        }
        while i < self.tickets.len()
            invariant
                i <= self.tickets@.len(),
                acc <= i,
                acc == committed_hash_count(self.tickets@.subrange(0, i as int), nh),
            decreases self.tickets@.len() - i,
        {
            proof {
                lemma_hash_subrange_step(self.tickets@, i as int, nh);
            }
            let t = self.tickets[i];
            if t.nullifier_hash == nh && t.state == TicketState::Committed {
                acc = acc + 1;
            }
            i += 1;
        }
        proof {
            assert(self.tickets@.subrange(0, self.tickets@.len() as int) =~= self.tickets@);
        }
        acc
    }

    /// Reservations currently counting against `en` in the current window.
    pub fn used(&self, en: u64) -> (r: u64)
        ensures
            r == used_count(self.tickets@, en, self.window),
    {
        self.count_used(en, self.window)
    }

    /// Whether the nullifier `nh` has been committed.
    pub fn is_nullifier_committed(&self, nh: u64) -> (r: bool)
        ensures
            r == (committed_hash_count(self.tickets@, nh) > 0),
    {
        self.count_committed_hash(nh) > 0
    }

    /// Atomically checks the bucket's remaining quota for the current
    /// window and records a speculative reservation.
    pub fn reserve(&mut self, external_nullifier: u64, nullifier_hash: u64) -> (r: Result<
        Ticket,
        PbhError,
    >)
        requires
            old(self).wf(),
        ensures
            final(self).wf(),
            final(self).quota == old(self).quota,
            final(self).window == old(self).window,
            match r {
                Ok(t) => {
                    &&& used_count(old(self).tickets@, external_nullifier, old(self).window)
                        < old(self).quota
                    &&& t.id == old(self).tickets@.len()
                    &&& t.external_nullifier == external_nullifier
                    &&& t.nullifier_hash == nullifier_hash
                    &&& t.window_id == old(self).window
                    &&& final(self).tickets@ == old(self).tickets@.push(
                        (TicketRecord {
                            external_nullifier,
                            nullifier_hash,
                            window_id: old(self).window,
                            state: TicketState::Speculative,
                        }),
                    )
                    &&& final(self).holds_ticket(t)
                },
                Err(e) => {
                    &&& e == PbhError::QuotaExceeded
                    &&& used_count(old(self).tickets@, external_nullifier, old(self).window)
                        >= old(self).quota
                    &&& *final(self) == *old(self)
                },
            },
    {
        let used = self.count_used(external_nullifier, self.window);
        if used >= self.quota {
            return Err(PbhError::QuotaExceeded);
        }
        let rec = TicketRecord {
            external_nullifier,
            nullifier_hash,
            window_id: self.window,
            state: TicketState::Speculative,
        };
        let id = self.tickets.len();
        let ghost old_seq = self.tickets@;
        self.tickets.push(rec);
        proof {
            assert forall|en: u64, w: u64| #[trigger]
                used_count(self.tickets@, en, w) <= self.quota by {
                lemma_used_push(old_seq, rec, en, w);
            }
            assert forall|nh: u64| #[trigger] committed_hash_count(self.tickets@, nh) <= 1 by {
                lemma_hash_push(old_seq, rec, nh);
            }
        }
        Ok(Ticket { id, external_nullifier, nullifier_hash, window_id: self.window })
    }

    /// Finalizes a reservation once its block became canonical: first
    /// committer of a nullifier hash wins; a losing or already-cancelled
    /// reservation is released instead. Idempotent on a ticket that is
    /// already committed. Returns whether the ticket is committed.
    pub fn commit(&mut self, ticket: &Ticket) -> (r: bool)
        requires
            old(self).wf(),
            old(self).holds_ticket(*ticket),
        ensures
            final(self).wf(),
            final(self).quota == old(self).quota,
            final(self).window == old(self).window,
            final(self).tickets@.len() == old(self).tickets@.len(),
            final(self).holds_ticket(*ticket),
            ({
                let rec = old(self).tickets@[ticket.id as int];
                if rec.state == TicketState::Committed {
                    final(self).tickets@ == old(self).tickets@ && r == true
                } else if rec.state == TicketState::Released {
                    final(self).tickets@ == old(self).tickets@ && r == false
                } else if committed_hash_count(old(self).tickets@, ticket.nullifier_hash) == 0 {
                    final(self).tickets@ == old(self).tickets@.update(
                        ticket.id as int,
                        (TicketRecord { state: TicketState::Committed, ..rec }),
                    ) && r == true
                } else {
                    final(self).tickets@ == old(self).tickets@.update(
                        ticket.id as int,
                        (TicketRecord { state: TicketState::Released, ..rec }),
                    ) && r == false
                }
            }),
    {
        let rec = self.tickets[ticket.id];
        match rec.state {
            TicketState::Committed => true,
            TicketState::Released => false,
            TicketState::Speculative => {
                let ghost old_seq = self.tickets@;
                let already = self.count_committed_hash(ticket.nullifier_hash);
                if already == 0 {
                    let new_rec = TicketRecord { state: TicketState::Committed, ..rec };
                    self.tickets[ticket.id] = new_rec;
                    proof {
                        assert forall|en: u64, w: u64| #[trigger]
                            used_count(self.tickets@, en, w) <= self.quota by {
                            lemma_used_update(old_seq, ticket.id as int, new_rec, en, w);
                        }
                        assert forall|nh: u64| #[trigger]
                            committed_hash_count(self.tickets@, nh) <= 1 by {
                            lemma_hash_update(old_seq, ticket.id as int, new_rec, nh);
                        }
                    }
                    true
                } else {
                    let new_rec = TicketRecord { state: TicketState::Released, ..rec };
                    self.tickets[ticket.id] = new_rec;
                    proof {
                        assert forall|en: u64, w: u64| #[trigger]
                            used_count(self.tickets@, en, w) <= self.quota by {
                            lemma_used_update(old_seq, ticket.id as int, new_rec, en, w);
                        }
                        assert forall|nh: u64| #[trigger]
                            committed_hash_count(self.tickets@, nh) <= 1 by {
                            lemma_hash_update(old_seq, ticket.id as int, new_rec, nh);
                        }
                    }
                    false
                }
            },
        }
    }

    /// Cancels a speculative reservation, giving the usage back to the
    /// bucket. A no-op on a committed ticket (commit wins the race) and on
    /// an already-released one.
    pub fn release(&mut self, ticket: &Ticket)
        requires
            old(self).wf(),
            old(self).holds_ticket(*ticket),
        ensures
            final(self).wf(),
            final(self).quota == old(self).quota,
            final(self).window == old(self).window,
            final(self).tickets@.len() == old(self).tickets@.len(),
            final(self).holds_ticket(*ticket),
            ({
                let rec = old(self).tickets@[ticket.id as int];
                if rec.state == TicketState::Speculative {
                    final(self).tickets@ == old(self).tickets@.update(
                        ticket.id as int,
                        (TicketRecord { state: TicketState::Released, ..rec }),
                    )
                } else {
                    final(self).tickets@ == old(self).tickets@
                }
            }),
    {
        let rec = self.tickets[ticket.id];
        match rec.state {
            TicketState::Speculative => {
                let ghost old_seq = self.tickets@;
                let new_rec = TicketRecord { state: TicketState::Released, ..rec };
                self.tickets[ticket.id] = new_rec;
                proof {
                    assert forall|en: u64, w: u64| #[trigger]
                        used_count(self.tickets@, en, w) <= self.quota by {
                        lemma_used_update(old_seq, ticket.id as int, new_rec, en, w);
                    }
                    assert forall|nh: u64| #[trigger]
                        committed_hash_count(self.tickets@, nh) <= 1 by {
                        lemma_hash_update(old_seq, ticket.id as int, new_rec, nh);
                    }
                }
            },
            TicketState::Committed => {},
            TicketState::Released => {},
        }
    }

    /// Reorg reconciliation: a committed reservation whose block was
    /// un-canonicalized returns to a free state. A no-op otherwise.
    pub fn uncommit(&mut self, ticket: &Ticket)
        requires
            old(self).wf(),
            old(self).holds_ticket(*ticket),
        ensures
            final(self).wf(),
            final(self).quota == old(self).quota,
            final(self).window == old(self).window,
            final(self).tickets@.len() == old(self).tickets@.len(),
            final(self).holds_ticket(*ticket),
            ({
                let rec = old(self).tickets@[ticket.id as int];
                if rec.state == TicketState::Committed {
                    final(self).tickets@ == old(self).tickets@.update(
                        ticket.id as int,
                        (TicketRecord { state: TicketState::Released, ..rec }),
                    )
                } else {
                    final(self).tickets@ == old(self).tickets@
                }
            }),
    {
        let rec = self.tickets[ticket.id];
        match rec.state {
            TicketState::Committed => {
                let ghost old_seq = self.tickets@;
                let new_rec = TicketRecord { state: TicketState::Released, ..rec };
                self.tickets[ticket.id] = new_rec;
                proof {
                    assert forall|en: u64, w: u64| #[trigger]
                        used_count(self.tickets@, en, w) <= self.quota by {
                        lemma_used_update(old_seq, ticket.id as int, new_rec, en, w);
                    }
                    assert forall|nh: u64| #[trigger]
                        committed_hash_count(self.tickets@, nh) <= 1 by {
                        lemma_hash_update(old_seq, ticket.id as int, new_rec, nh);
                    }
                }
            },
            TicketState::Speculative => {},
            TicketState::Released => {},
        }
    }

    /// Observes a window rollover from the epoch source. Records of prior
    /// windows freeze automatically, since `reserve` only writes the
    /// current window.
    pub fn observe_window(&mut self, window_id: u64)
        requires
            old(self).wf(),
        ensures
            final(self).wf(),
            final(self).quota == old(self).quota,
            final(self).window == window_id,
            final(self).tickets@ == old(self).tickets@,
    {
        self.window = window_id;
    }

    /// Drops all nullifier state; used when the builder is configured to
    /// clear rather than persist it across restarts.
    pub fn clear(&mut self)
        requires
            old(self).wf(),
        ensures
            final(self).wf(),
            final(self).quota == old(self).quota,
            final(self).window == old(self).window,
            final(self).tickets@.len() == 0,
    {
        self.tickets.clear();
        proof {
            assert forall|en: u64, w: u64| #[trigger]
                used_count(self.tickets@, en, w) <= self.quota by {
                assert(used_count(self.tickets@, en, w) == 0);
            }
            assert forall|nh: u64| #[trigger] committed_hash_count(self.tickets@, nh) <= 1 by {
                assert(committed_hash_count(self.tickets@, nh) == 0);
            }
        }
    }
}

/// For every identity and every time window, committed usages of that
/// identity's external nullifier never exceed the window quota.
pub proof fn lemma_committed_within_quota(r: NullifierRegistry, en: u64, w: u64)
    requires
        r.wf(),
    ensures
        committed_count(r.tickets@, en, w) <= r.quota,
{
    lemma_committed_le_used(r.tickets@, en, w);
    assert(used_count(r.tickets@, en, w) <= r.quota);
}

/// No nullifier hash is ever committed twice.
pub proof fn lemma_no_double_commit(r: NullifierRegistry, nh: u64)
    requires
        r.wf(),
    ensures
        committed_hash_count(r.tickets@, nh) <= 1,
{
}

/// The record a released reservation leaves behind.
pub open spec fn released(rec: TicketRecord) -> TicketRecord {
    TicketRecord { state: TicketState::Released, ..rec }
}

/// The record a committed reservation leaves behind.
pub open spec fn committed(rec: TicketRecord) -> TicketRecord {
    TicketRecord { state: TicketState::Committed, ..rec }
}

/// Releasing a reservation right after taking it restores every usage
/// count of every bucket and window to its pre-reservation value: the
/// reserve/release pair is neutral.
pub proof fn lemma_release_restores_counts(
    s: Seq<TicketRecord>,
    rec: TicketRecord,
    en: u64,
    w: u64,
)
    requires
        rec.state == TicketState::Speculative,
    ensures
        used_count(s.push(rec).update(s.len() as int, released(rec)), en, w) == used_count(
            s,
            en,
            w,
        ),
{
    lemma_used_push(s, rec, en, w);
    lemma_used_update(s.push(rec), s.len() as int, released(rec), en, w);
}

} // verus!
