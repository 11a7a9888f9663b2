use vstd::prelude::*;

use crate::error::PbhError;
use crate::nullifier::NullifierRegistry;
use crate::nullifier::Ticket;
use crate::nullifier::TicketRecord;
use crate::nullifier::TicketState;
use crate::nullifier::committed;
use crate::nullifier::committed_hash_count;
use crate::nullifier::released;
use crate::pool::PbhPool;
use crate::pool::RawTransaction;
use crate::pool::RegularEntry;
use crate::pool::VerifiedEntry;

verus! {

/// The verified-gas target: `floor(capacity_percent * gas_limit / 100)`.
/// A target floor, not a hard cap: capacity left unused by the verified
/// side is filled with regular traffic.
pub open spec fn spec_target(capacity: u8, gas_limit: u64) -> int {
    (capacity as int) * (gas_limit as int) / 100
}

/// Gas of the first `k` entries of the verified partition.
pub open spec fn verified_prefix_gas(s: Seq<VerifiedEntry>, k: int) -> int
    decreases k,
{
    if k <= 0 {
        0
    } else {
        verified_prefix_gas(s, k - 1) + s[k - 1].tx.gas_limit
    }
}

/// Gas of the first `k` entries of the regular partition.
pub open spec fn regular_prefix_gas(s: Seq<RegularEntry>, k: int) -> int
    decreases k,
{
    if k <= 0 {
        0
    } else {
        regular_prefix_gas(s, k - 1) + s[k - 1].tx.gas_limit
    }
}

/// How many verified entries greedy selection takes: entries are pulled
/// in partition order until the next candidate exceeds the remaining
/// budget or the partition is exhausted.
pub open spec fn verified_fit_len(s: Seq<VerifiedEntry>, budget: int) -> nat
    decreases s.len(),
{
    if s.len() == 0 || s[0].tx.gas_limit > budget {
        0
    } else {
        1 + verified_fit_len(s.drop_first(), budget - s[0].tx.gas_limit)
    }
}

/// How many regular entries greedy selection takes.
pub open spec fn regular_fit_len(s: Seq<RegularEntry>, budget: int) -> nat
    decreases s.len(),
{
    if s.len() == 0 || s[0].tx.gas_limit > budget {
        0
    } else {
        1 + regular_fit_len(s.drop_first(), budget - s[0].tx.gas_limit)
    }
}

/// An assembled payload: the ordered transaction list (verified entries
/// first, then regular), the tickets of the included verified
/// transactions in the same order, and the achieved gas split.
#[derive(Clone, Debug)]
pub struct BuiltPayload {
    /// Selected transactions: the verified prefix, then the regular one.
    pub transactions: Vec<RawTransaction>,
    /// Tickets of the included verified transactions, in inclusion order.
    pub verified_tickets: Vec<Ticket>,
    /// The verified-gas target the selection ran against.
    pub target_verified_gas: u64,
    /// Gas claimed by the selected verified transactions.
    pub verified_gas_used: u64,
    /// Gas claimed by the selected regular transactions.
    pub regular_gas_used: u64,
}

/// Full description of what `build_payload` assembles from a pool
/// snapshot: selection is a pure function of the partition contents, so
/// two jobs over identical snapshots produce identical output.
pub open spec fn payload_matches(
    p: BuiltPayload,
    verified: Seq<VerifiedEntry>,
    regular: Seq<RegularEntry>,
    capacity: u8,
    gas_limit: u64,
) -> bool {
    let target = spec_target(capacity, gas_limit);
    let k = verified_fit_len(verified, target) as int;
    let m = regular_fit_len(regular, gas_limit - verified_prefix_gas(verified, k)) as int;
    &&& p.target_verified_gas == target
    &&& p.verified_gas_used == verified_prefix_gas(verified, k)
    &&& p.regular_gas_used == regular_prefix_gas(regular, m)
    &&& p.verified_gas_used <= target
    &&& p.verified_gas_used + p.regular_gas_used <= gas_limit
    &&& p.verified_tickets@.len() == k
    &&& p.transactions@.len() == k + m
    &&& forall|i: int| 0 <= i < k ==> #[trigger] p.transactions@[i] == verified[i].tx
    &&& forall|i: int| 0 <= i < k ==> #[trigger] p.verified_tickets@[i] == verified[i].ticket
    &&& forall|i: int| 0 <= i < m ==> #[trigger] p.transactions@[k + i] == regular[i].tx
    &&& (k == verified.len() || verified_prefix_gas(verified, k) + verified[k].tx.gas_limit
        > target)
    &&& (m == regular.len() || p.verified_gas_used + regular_prefix_gas(regular, m)
        + regular[m].tx.gas_limit > gas_limit)
}

/// Computes the verified-gas target without overflow.
pub fn compute_target_verified_gas(capacity: u8, gas_limit: u64) -> (r: u64)
    requires
        capacity <= 100,
    ensures
        r == spec_target(capacity, gas_limit),
        r <= gas_limit,
{
    proof {
        assert((capacity as int) * (gas_limit as int) <= 100 * (u64::MAX as int))
            by (nonlinear_arith)
            requires
                capacity <= 100,
                gas_limit <= u64::MAX,
        ;
    }
    let wide: u128 = (capacity as u128) * (gas_limit as u128);
    let t: u128 = wide / 100;
    proof {
        assert((capacity as int) * (gas_limit as int) / 100 <= gas_limit as int)
            by (nonlinear_arith)
            requires
                capacity <= 100,
                gas_limit <= u64::MAX,
        ;
    }
    t as u64
}

/// Selection-time gas check: the remaining budget after taking a
/// candidate, or `InsufficientGas` if it does not fit.
pub fn try_reserve_gas(remaining_gas: u64, tx_gas: u64) -> (r: Result<u64, PbhError>)
    ensures
        r == if tx_gas <= remaining_gas {
            Ok::<u64, PbhError>((remaining_gas - tx_gas) as u64)
        } else {
            Err::<u64, PbhError>(PbhError::InsufficientGas)
        },
{
    if tx_gas <= remaining_gas {
        Ok(remaining_gas - tx_gas)
    } else {
        Err(PbhError::InsufficientGas)
    }
}

/// Assembles an ordered transaction list from a pool snapshot under a gas
/// budget split between verified and regular traffic: the verified
/// partition is drawn down first toward the target, then regular
/// transactions fill all remaining gas — including any shortfall the
/// verified side left unused.
#[verifier::loop_isolation(false)]
pub fn build_payload(pool: &PbhPool, capacity: u8, gas_limit: u64) -> (p: BuiltPayload)
    requires
        capacity <= 100,
    ensures
        payload_matches(p, pool.verified@, pool.regular@, capacity, gas_limit),
{
    let target = compute_target_verified_gas(capacity, gas_limit);
    let ghost vs = pool.verified@;
    let ghost rs = pool.regular@;

    let mut transactions: Vec<RawTransaction> = Vec::new();
    let mut verified_tickets: Vec<Ticket> = Vec::new();
    let mut i: usize = 0;
    let mut vgas: u64 = 0;
    let mut stopped = false;
    proof {
        assert(vs.subrange(0, vs.len() as int) =~= vs);
    }
    while !stopped && i < pool.verified.len()
        invariant
            i <= vs.len(),
            vgas <= target,
            vgas == verified_prefix_gas(vs, i as int),
            verified_fit_len(vs, target as int) == i + verified_fit_len(
                vs.subrange(i as int, vs.len() as int),
                target - vgas,
            ),
            stopped ==> i < vs.len() && vs[i as int].tx.gas_limit > target - vgas,
            transactions@.len() == i,
            verified_tickets@.len() == i,
            forall|j: int| 0 <= j < i ==> #[trigger] transactions@[j] == vs[j].tx,
            forall|j: int| 0 <= j < i ==> #[trigger] verified_tickets@[j] == vs[j].ticket,
        decreases vs.len() - i, 1int - if stopped { 1int } else { 0int },
    {
        let entry = pool.verified[i];
        let ghost tail = vs.subrange(i as int, vs.len() as int);
        proof {
            assert(tail[0] == vs[i as int]);
            assert(tail.drop_first() =~= vs.subrange(i as int + 1, vs.len() as int));
        }
        match try_reserve_gas(target - vgas, entry.tx.gas_limit) {
            Ok(_) => {
                transactions.push(entry.tx);
                verified_tickets.push(entry.ticket);
                vgas = vgas + entry.tx.gas_limit;
                i += 1;
            },
            Err(_) => {
                stopped = true;
            },
        }
    }
    proof {
        if !stopped {
            assert(vs.subrange(i as int, vs.len() as int) =~= Seq::<VerifiedEntry>::empty());
        }
        assert(verified_fit_len(vs, target as int) == i);
    }
    let ghost k = i as int;

    let mut m: usize = 0;
    let mut rgas: u64 = 0;
    let mut stopped_r = false;
    proof {
        assert(rs.subrange(0, rs.len() as int) =~= rs);
    }
    while !stopped_r && m < pool.regular.len()
        invariant
            m <= rs.len(),
            rgas <= gas_limit - vgas,
            rgas == regular_prefix_gas(rs, m as int),
            regular_fit_len(rs, gas_limit - vgas) == m + regular_fit_len(
                rs.subrange(m as int, rs.len() as int),
                gas_limit - vgas - rgas,
            ),
            stopped_r ==> m < rs.len() && rs[m as int].tx.gas_limit > gas_limit - vgas - rgas,
            transactions@.len() == k + m,
            forall|j: int| 0 <= j < k ==> #[trigger] transactions@[j] == vs[j].tx,
            forall|j: int| 0 <= j < m ==> #[trigger] transactions@[k + j] == rs[j].tx,
        decreases rs.len() - m, 1int - if stopped_r { 1int } else { 0int },
    {
        let entry = pool.regular[m];
        let ghost tail = rs.subrange(m as int, rs.len() as int);
        proof {
            assert(tail[0] == rs[m as int]);
            assert(tail.drop_first() =~= rs.subrange(m as int + 1, rs.len() as int));
        }
        match try_reserve_gas(gas_limit - vgas - rgas, entry.tx.gas_limit) {
            Ok(_) => {
                transactions.push(entry.tx);
                rgas = rgas + entry.tx.gas_limit;
                m += 1;
            },
            Err(_) => {
                stopped_r = true;
            },
        }
    }
    proof {
        if !stopped_r {
            assert(rs.subrange(m as int, rs.len() as int) =~= Seq::<RegularEntry>::empty());
        }
        assert(regular_fit_len(rs, gas_limit - vgas) == m);
    }

    BuiltPayload {
        transactions,
        verified_tickets,
        target_verified_gas: target,
        verified_gas_used: vgas,
        regular_gas_used: rgas,
    }
}

/// For every assembled payload: verified gas never exceeds the target;
/// total gas never exceeds the block gas limit; and when gas is left on
/// the table it is only because no further candidate fits — a shortfall
/// on the verified side is filled from the regular partition rather than
/// left empty.
pub proof fn lemma_blockspace_partition(
    p: BuiltPayload,
    verified: Seq<VerifiedEntry>,
    regular: Seq<RegularEntry>,
    capacity: u8,
    gas_limit: u64,
)
    requires
        payload_matches(p, verified, regular, capacity, gas_limit),
    ensures
        p.verified_gas_used <= spec_target(capacity, gas_limit),
        p.verified_gas_used + p.regular_gas_used <= gas_limit,
        ({
            let m = regular_fit_len(
                regular,
                gas_limit - verified_prefix_gas(
                    verified,
                    verified_fit_len(verified, spec_target(capacity, gas_limit)) as int,
                ),
            ) as int;
            m == regular.len() || p.verified_gas_used + p.regular_gas_used
                + regular[m].tx.gas_limit > gas_limit
        }),
{
}

/// Selection is deterministic: two payloads assembled from identical
/// partition snapshots under the same capacity and gas limit are
/// identical in every selected transaction, ticket, and gas figure.
pub proof fn lemma_selection_deterministic(
    p1: BuiltPayload,
    p2: BuiltPayload,
    verified: Seq<VerifiedEntry>,
    regular: Seq<RegularEntry>,
    capacity: u8,
    gas_limit: u64,
)
    requires
        payload_matches(p1, verified, regular, capacity, gas_limit),
        payload_matches(p2, verified, regular, capacity, gas_limit),
    ensures
        p1.transactions@ == p2.transactions@,
        p1.verified_tickets@ == p2.verified_tickets@,
        p1.target_verified_gas == p2.target_verified_gas,
        p1.verified_gas_used == p2.verified_gas_used,
        p1.regular_gas_used == p2.regular_gas_used,
{
    let target = spec_target(capacity, gas_limit);
    let k = verified_fit_len(verified, target) as int;
    assert forall|i: int|
        0 <= i < p1.transactions@.len() implies p1.transactions@[i] == p2.transactions@[i] by {
        if i >= k {
            assert(p1.transactions@[k + (i - k)] == regular[i - k].tx);
            assert(p2.transactions@[k + (i - k)] == regular[i - k].tx);
        }
    }
    assert(p1.transactions@ =~= p2.transactions@);
    assert(p1.verified_tickets@ =~= p2.verified_tickets@);
}

/// Lifecycle of a payload-build attempt.
#[derive(Clone, Copy, Debug, PartialEq, Eq, Structural)]
pub enum BuildJobState {
    /// No work started yet.
    Idle,
    /// Holds a selection drawn from a pool snapshot.
    Collecting,
    /// The selection is with the external execution engine.
    Finalizing,
    /// Included reservations committed, dropped ones released.
    Committed,
    /// Superseded or shut down; every reservation was given back.
    Aborted,
}

/// Every job ticket was issued by `reg` and still matches its record.
pub open spec fn tickets_held(tks: Seq<Ticket>, reg: NullifierRegistry) -> bool {
    forall|i: int| 0 <= i < tks.len() ==> reg.holds_ticket(#[trigger] tks[i])
}

/// No reservation appears twice among the job's tickets.
pub open spec fn tickets_distinct(tks: Seq<Ticket>) -> bool {
    forall|i: int, j: int|
        0 <= i < j < tks.len() ==> (#[trigger] tks[i]).id != (#[trigger] tks[j]).id
}

/// Whether `id` is the record index of one of the first `n` tickets.
pub open spec fn id_among(tks: Seq<Ticket>, n: int, id: int) -> bool {
    exists|i: int| 0 <= i < n && (#[trigger] tks[i]).id == id
}

/// No other job ticket carries the same nullifier hash as ticket `i`.
pub open spec fn hash_unique(tks: Seq<Ticket>, i: int) -> bool {
    forall|j: int|
        0 <= j < tks.len() && j != i ==> (#[trigger] tks[j]).nullifier_hash
            != tks[i].nullifier_hash
}

/// How finalization resolves the record of job ticket `i`: a reservation
/// already settled stays as it is; a dropped speculative one is released;
/// an included speculative one ends committed unless another commit of
/// the same nullifier hash won the race, in which case it ends released —
/// and when no such rival exists, committing is guaranteed.
pub open spec fn finalize_resolves(
    tks: Seq<Ticket>,
    i: int,
    succeeded: Seq<bool>,
    before: Seq<TicketRecord>,
    after: Seq<TicketRecord>,
) -> bool {
    let id = tks[i].id as int;
    let rec = before[id];
    &&& (rec.state != TicketState::Speculative ==> after[id] == rec)
    &&& (rec.state == TicketState::Speculative && !succeeded[i] ==> after[id] == released(rec))
    &&& (rec.state == TicketState::Speculative && succeeded[i] ==> after[id] == committed(rec)
        || after[id] == released(rec))
    &&& (rec.state == TicketState::Speculative && succeeded[i] && committed_hash_count(
        before,
        tks[i].nullifier_hash,
    ) == 0 && hash_unique(tks, i) ==> after[id] == committed(rec))
}

/// A payload-build attempt: a state machine from idle through collection
/// and finalization to committed or aborted. Many jobs may run against
/// the same registry; each is single-threaded and deterministic given its
/// pool snapshot.
#[derive(Clone, Debug)]
pub struct BuildJob {
    /// Where the attempt stands.
    pub state: BuildJobState,
    /// The selection drawn during collection, if any yet.
    pub payload: Option<BuiltPayload>,
}

impl BuildJob {
    /// The job's tickets: those of its selected verified transactions.
    pub open spec fn spec_tickets(self) -> Seq<Ticket> {
        match self.payload {
            Some(p) => p.verified_tickets@,
            None => Seq::empty(),
        }
    }

    /// A fresh, idle job.
    pub fn new() -> (r: BuildJob)
        ensures
            r.state == BuildJobState::Idle,
            r.payload is None,
    {
        BuildJob { state: BuildJobState::Idle, payload: None }
    }

    /// Starts the job against a pool snapshot and a gas limit, drawing
    /// the selection described by `payload_matches`.
    pub fn collect(&mut self, pool: &PbhPool, capacity: u8, gas_limit: u64)
        requires
            old(self).state == BuildJobState::Idle,
            capacity <= 100,
        ensures
            final(self).state == BuildJobState::Collecting,
            final(self).payload matches Some(p) && payload_matches(
                p,
                pool.verified@,
                pool.regular@,
                capacity,
                gas_limit,
            ),
    {
        let p = build_payload(pool, capacity, gas_limit);
        self.payload = Some(p);
        self.state = BuildJobState::Collecting;
    }

    /// Hands the selection to the external execution engine.
    pub fn start_finalizing(&mut self)
        requires
            old(self).state == BuildJobState::Collecting,
        ensures
            final(self).state == BuildJobState::Finalizing,
            final(self).payload == old(self).payload,
    {
        self.state = BuildJobState::Finalizing;
    }

    /// Cancels the job before finalization completes (superseded parent
    /// state, shutdown, timeout): every speculative reservation taken
    /// during collection is given back, and no commit occurs — so
    /// repeated, ultimately-discarded attempts never starve an identity's
    /// quota.
    #[verifier::loop_isolation(false)]
    pub fn abort(&mut self, registry: &mut NullifierRegistry)
        requires
            old(self).state == BuildJobState::Collecting || old(self).state
                == BuildJobState::Finalizing,
            old(registry).wf(),
            tickets_held(old(self).spec_tickets(), *old(registry)),
            tickets_distinct(old(self).spec_tickets()),
        ensures
            final(self).state == BuildJobState::Aborted,
            final(self).payload == old(self).payload,
            final(registry).wf(),
            final(registry).quota == old(registry).quota,
            final(registry).window == old(registry).window,
            final(registry).tickets@.len() == old(registry).tickets@.len(),
            ({
                let tks = old(self).spec_tickets();
                let n = tks.len() as int;
                forall|j: int|
                    0 <= j < old(registry).tickets@.len()
                        ==> #[trigger] final(registry).tickets@[j] == if id_among(tks, n, j)
                        && old(registry).tickets@[j].state == TicketState::Speculative {
                        released(old(registry).tickets@[j])
                    } else {
                        old(registry).tickets@[j]
                    }
            }),
    {
        let ghost tks = old(self).spec_tickets();
        let ghost old_reg = old(registry).tickets@;
        match &self.payload {
            None => {},
            Some(p) => {
                let n = p.verified_tickets.len();
                let mut i: usize = 0;
                while i < n
                    invariant
                        i <= n,
                        n == tks.len(),
                        p.verified_tickets@ == tks,
                        registry.wf(),
                        registry.quota == old(registry).quota,
                        registry.window == old(registry).window,
                        registry.tickets@.len() == old_reg.len(),
                        forall|j: int|
                            0 <= j < old_reg.len() ==> #[trigger] registry.tickets@[j]
                                == if id_among(tks, i as int, j) && old_reg[j].state
                                == TicketState::Speculative {
                                released(old_reg[j])
                            } else {
                                old_reg[j]
                            },
                    decreases n - i,
                {
                    let tk = p.verified_tickets[i];
                    proof {
                        if id_among(tks, i as int, tk.id as int) {
                            let i2 = choose|i2: int|
                                0 <= i2 < i && (#[trigger] tks[i2]).id == tk.id;
                            assert(tks[i2].id == tks[i as int].id);
                            assert(false);
                        }
                        assert(old(registry).holds_ticket(tks[i as int]));
                        assert(registry.tickets@[tk.id as int] == old_reg[tk.id as int]);
                    }
                    let ghost pre = registry.tickets@;
                    registry.release(&tk);
                    proof {
                        assert forall|j: int| 0 <= j < old_reg.len() implies #[trigger] registry
                            .tickets@[j] == if id_among(tks, i as int + 1, j) && old_reg[j].state
                            == TicketState::Speculative {
                            released(old_reg[j])
                        } else {
                            old_reg[j]
                        } by {
                            if j == tk.id as int {
                                assert(tks[i as int].id == j);
                                assert(id_among(tks, i as int + 1, j));
                            } else {
                                assert(registry.tickets@[j] == pre[j]);
                                if id_among(tks, i as int + 1, j) {
                                    let i2 = choose|i2: int|
                                        0 <= i2 < i + 1 && (#[trigger] tks[i2]).id == j;
                                    assert(i2 != i as int);
                                    assert(id_among(tks, i as int, j));
                                }
                            }
                        }
                    }
                    i += 1;
                }
            },
        }
        self.state = BuildJobState::Aborted;
    }

    /// Finalizes an executed job. The external engine reports, for each
    /// selected verified transaction in order, whether it executed
    /// successfully; included transactions have their reservation
    /// committed (first committer of a nullifier hash wins), dropped ones
    /// have it released. Reservations the job never touched are left
    /// exactly as they were.
    #[verifier::loop_isolation(false)]
    pub fn complete(&mut self, registry: &mut NullifierRegistry, succeeded: &Vec<bool>)
        requires
            old(self).state == BuildJobState::Finalizing,
            old(registry).wf(),
            tickets_held(old(self).spec_tickets(), *old(registry)),
            tickets_distinct(old(self).spec_tickets()),
            succeeded@.len() == old(self).spec_tickets().len(),
        ensures
            final(self).state == BuildJobState::Committed,
            final(self).payload == old(self).payload,
            final(registry).wf(),
            final(registry).quota == old(registry).quota,
            final(registry).window == old(registry).window,
            final(registry).tickets@.len() == old(registry).tickets@.len(),
            ({
                let tks = old(self).spec_tickets();
                let n = tks.len() as int;
                &&& forall|j: int|
                    0 <= j < old(registry).tickets@.len() && !id_among(tks, n, j)
                        ==> #[trigger] final(registry).tickets@[j] == old(registry).tickets@[j]
                &&& forall|i: int|
                    0 <= i < n ==> #[trigger] finalize_resolves(
                        tks,
                        i,
                        succeeded@,
                        old(registry).tickets@,
                        final(registry).tickets@,
                    )
            }),
    {
        let ghost tks = old(self).spec_tickets();
        let ghost old_reg = old(registry).tickets@;
        match &self.payload {
            None => {},
            Some(p) => {
                let n = p.verified_tickets.len();
                let mut i: usize = 0;
                while i < n
                    invariant
                        i <= n,
                        n == tks.len(),
                        p.verified_tickets@ == tks,
                        registry.wf(),
                        registry.quota == old(registry).quota,
                        registry.window == old(registry).window,
                        registry.tickets@.len() == old_reg.len(),
                        forall|j: int|
                            0 <= j < old_reg.len() ==> {
                                &&& (#[trigger] registry.tickets@[j]).external_nullifier
                                    == old_reg[j].external_nullifier
                                &&& registry.tickets@[j].nullifier_hash
                                    == old_reg[j].nullifier_hash
                                &&& registry.tickets@[j].window_id == old_reg[j].window_id
                            },
                        forall|j: int|
                            0 <= j < old_reg.len() && !id_among(tks, i as int, j)
                                ==> #[trigger] registry.tickets@[j] == old_reg[j],
                        forall|i2: int|
                            0 <= i2 < i ==> #[trigger] finalize_resolves(
                                tks,
                                i2,
                                succeeded@,
                                old_reg,
                                registry.tickets@,
                            ),
                        forall|i2: int|
                            i <= i2 < n && committed_hash_count(
                                old_reg,
                                (#[trigger] tks[i2]).nullifier_hash,
                            ) == 0 && hash_unique(tks, i2) ==> committed_hash_count(
                                registry.tickets@,
                                tks[i2].nullifier_hash,
                            ) == 0,
                    decreases n - i,
                {
                    let tk = p.verified_tickets[i];
                    proof {
                        if id_among(tks, i as int, tk.id as int) {
                            let i2 = choose|i2: int|
                                0 <= i2 < i && (#[trigger] tks[i2]).id == tk.id;
                            assert(tks[i2].id == tks[i as int].id);
                            assert(false);
                        }
                        assert(old(registry).holds_ticket(tks[i as int]));
                        assert(registry.tickets@[tk.id as int] == old_reg[tk.id as int]);
                    }
                    let ghost pre = registry.tickets@;
                    if succeeded[i] {
                        registry.commit(&tk);
                    } else {
                        registry.release(&tk);
                    }
                    proof {
                        let id = tk.id as int;
                        let rec = old_reg[id];
                        assert(rec.nullifier_hash == tk.nullifier_hash);
                        // records other than the one at `id` are untouched
                        assert forall|j: int|
                            0 <= j < old_reg.len() && j != id implies registry.tickets@[j]
                            == pre[j] by {}
                        // the untouched-records invariant
                        assert forall|j: int|
                            0 <= j < old_reg.len() && !id_among(tks, i as int + 1, j)
                                implies #[trigger] registry.tickets@[j] == old_reg[j] by {
                            assert(j != id) by {
                                assert(tks[i as int].id == tk.id);
                            }
                            assert(!id_among(tks, i as int, j));
                        }
                        // previously processed tickets stay resolved
                        assert forall|i2: int|
                            0 <= i2 < i + 1 implies #[trigger] finalize_resolves(
                            tks,
                            i2,
                            succeeded@,
                            old_reg,
                            registry.tickets@,
                        ) by {
                            if i2 < i {
                                assert(tks[i2].id != tks[i as int].id);
                                assert(registry.tickets@[tks[i2].id as int]
                                    == pre[tks[i2].id as int]);
                                assert(finalize_resolves(tks, i2, succeeded@, old_reg, pre));
                            } else {
                                // the ticket processed in this iteration
                                if rec.state == TicketState::Speculative && succeeded@[i as int]
                                    && committed_hash_count(old_reg, tk.nullifier_hash) == 0
                                    && hash_unique(tks, i as int) {
                                    assert(committed_hash_count(pre, tk.nullifier_hash) == 0);
                                }
                            }
                        }
                        // hash counts of still-unprocessed unique tickets are untouched
                        assert forall|i2: int|
                            i + 1 <= i2 < n && committed_hash_count(
                                old_reg,
                                (#[trigger] tks[i2]).nullifier_hash,
                            ) == 0 && hash_unique(tks, i2) implies committed_hash_count(
                            registry.tickets@,
                            tks[i2].nullifier_hash,
                        ) == 0 by {
                            let nh2 = tks[i2].nullifier_hash;
                            assert(committed_hash_count(pre, nh2) == 0);
                            assert(tk.nullifier_hash != nh2);
                            assert(registry.tickets@ =~= pre.update(id, registry.tickets@[id]));
                            assert(pre[id].nullifier_hash != nh2);
                            assert(registry.tickets@[id].nullifier_hash != nh2);
                            crate::nullifier::lemma_hash_update(
                                pre,
                                id,
                                registry.tickets@[id],
                                nh2,
                            );
                        }
                    }
                    i += 1;
                }
            },
        }
        self.state = BuildJobState::Committed;
    }
}

} // verus!

