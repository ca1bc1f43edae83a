//! The claims queue: per-owner unbond entitlements, appended by
//! unbonding, drained oldest-eligible-first by claim settlement up to
//! whatever the contract can currently afford to pay.

use vstd::prelude::*;

verus! {

/// A matured-but-unpaid entitlement to native settlement funds.
#[derive(Clone, Copy, Debug, PartialEq, Eq, Structural)]
pub struct ClaimEntry {
    pub owner: u64,
    pub amount: u128,
    /// The entry may be consumed once `release_time <= now`.
    pub release_time: u64,
}

/// Sum of all amounts queued, over every owner.
pub open spec fn claim_total_of(s: Seq<ClaimEntry>) -> int
    decreases s.len(),
{
    if s.len() == 0 {
        0
    } else {
        s[0].amount + claim_total_of(s.drop_first())
    }
}

/// Sum of the amounts that `owner` could claim at time `now`.
pub open spec fn matured_of(s: Seq<ClaimEntry>, owner: u64, now: u64) -> int
    decreases s.len(),
{
    if s.len() == 0 {
        0
    } else {
        (if s[0].owner == owner && s[0].release_time <= now {
            s[0].amount as int
        } else {
            0
        }) + matured_of(s.drop_first(), owner, now)
    }
}

/// Amount paid out by draining `owner`'s matured entries in order, not
/// exceeding `cap`; the final entry reached is consumed only partially
/// when `cap` runs out inside it.
pub open spec fn drain_paid(s: Seq<ClaimEntry>, owner: u64, now: u64, cap: u128) -> int
    decreases s.len(),
{
    if s.len() == 0 {
        0
    } else {
        let e = s[0];
        if e.owner == owner && e.release_time <= now && cap > 0 {
            if e.amount <= cap {
                e.amount + drain_paid(s.drop_first(), owner, now, (cap - e.amount) as u128)
            } else {
                cap as int
            }
        } else {
            drain_paid(s.drop_first(), owner, now, cap)
        }
    }
}

/// The queue left behind by the drain that pays [`drain_paid`]: consumed
/// entries are removed, a partially consumed entry keeps its remainder
/// in place, and nothing is re-ordered.
pub open spec fn drain_rest(s: Seq<ClaimEntry>, owner: u64, now: u64, cap: u128) -> Seq<ClaimEntry>
    decreases s.len(),
{
    if s.len() == 0 {
        Seq::empty()
    } else {
        let e = s[0];
        if e.owner == owner && e.release_time <= now && cap > 0 {
            if e.amount <= cap {
                drain_rest(s.drop_first(), owner, now, (cap - e.amount) as u128)
            } else {
                seq![ClaimEntry { owner: e.owner, amount: (e.amount - cap) as u128, release_time: e.release_time }]
                    + drain_rest(s.drop_first(), owner, now, 0)
            }
        } else {
            seq![e] + drain_rest(s.drop_first(), owner, now, cap)
        }
    }
}

/// Queued amounts are non-negative in sum.
pub proof fn lemma_claim_total_nonneg(s: Seq<ClaimEntry>)
    ensures
        claim_total_of(s) >= 0,
    decreases s.len(),
{
    if s.len() > 0 {
        lemma_claim_total_nonneg(s.drop_first());
    }
}

/// Matured amounts are non-negative in sum.
pub proof fn lemma_matured_nonneg(s: Seq<ClaimEntry>, owner: u64, now: u64)
    ensures
        matured_of(s, owner, now) >= 0,
    decreases s.len(),
{
    if s.len() > 0 {
        lemma_matured_nonneg(s.drop_first(), owner, now);
    }
}

/// What an owner can claim now is part of what is queued in total.
pub proof fn lemma_matured_le_total(s: Seq<ClaimEntry>, owner: u64, now: u64)
    ensures
        matured_of(s, owner, now) <= claim_total_of(s),
    decreases s.len(),
{
    if s.len() > 0 {
        lemma_matured_le_total(s.drop_first(), owner, now);
        lemma_claim_total_nonneg(s.drop_first());
    }
}

/// Draining with nothing to spend pays nothing and keeps the queue.
proof fn lemma_drain_zero_cap(s: Seq<ClaimEntry>, owner: u64, now: u64)
    ensures
        drain_paid(s, owner, now, 0) == 0,
        drain_rest(s, owner, now, 0) =~= s,
    decreases s.len(),
{
    if s.len() > 0 {
        lemma_drain_zero_cap(s.drop_first(), owner, now);
        assert(drain_rest(s, owner, now, 0) =~= seq![s[0]] + s.drop_first());
        assert(seq![s[0]] + s.drop_first() =~= s);
    }
}

/// Partial settlement is explicit policy: a drain pays exactly the
/// smaller of the available cap and the owner's matured total.
pub proof fn lemma_drain_paid_is_min(s: Seq<ClaimEntry>, owner: u64, now: u64, cap: u128)
    ensures
        drain_paid(s, owner, now, cap) == if cap <= matured_of(s, owner, now) {
            cap as int
        } else {
            matured_of(s, owner, now)
        },
    decreases s.len(),
{
    lemma_matured_nonneg(s, owner, now);
    if s.len() > 0 {
        lemma_matured_nonneg(s.drop_first(), owner, now);
        let e = s[0];
        if e.owner == owner && e.release_time <= now && cap > 0 {
            if e.amount <= cap {
                lemma_drain_paid_is_min(s.drop_first(), owner, now, (cap - e.amount) as u128);
            }
        } else {
            lemma_drain_paid_is_min(s.drop_first(), owner, now, cap);
        }
    }
}

/// After a drain, the owner's matured total has gone down by exactly
/// the amount paid.
pub proof fn lemma_drain_matured(s: Seq<ClaimEntry>, owner: u64, now: u64, cap: u128)
    ensures
        matured_of(drain_rest(s, owner, now, cap), owner, now) == matured_of(s, owner, now)
            - drain_paid(s, owner, now, cap),
    decreases s.len(),
{
    if s.len() > 0 {
        let e = s[0];
        if e.owner == owner && e.release_time <= now && cap > 0 {
            if e.amount <= cap {
                lemma_drain_matured(s.drop_first(), owner, now, (cap - e.amount) as u128);
            } else {
                lemma_drain_zero_cap(s.drop_first(), owner, now);
                let part = ClaimEntry { owner: e.owner, amount: (e.amount - cap) as u128, release_time: e.release_time };
                let r = seq![part] + drain_rest(s.drop_first(), owner, now, 0);
                assert(r.drop_first() =~= drain_rest(s.drop_first(), owner, now, 0));
                assert(r[0] == part);
            }
        } else {
            lemma_drain_matured(s.drop_first(), owner, now, cap);
            let r = seq![e] + drain_rest(s.drop_first(), owner, now, cap);
            assert(r.drop_first() =~= drain_rest(s.drop_first(), owner, now, cap));
            assert(r[0] == e);
        }
    }
}

/// A drain removes exactly what it pays from the queue's grand total.
pub proof fn lemma_drain_total(s: Seq<ClaimEntry>, owner: u64, now: u64, cap: u128)
    ensures
        claim_total_of(drain_rest(s, owner, now, cap)) == claim_total_of(s)
            - drain_paid(s, owner, now, cap),
    decreases s.len(),
{
    if s.len() > 0 {
        let e = s[0];
        if e.owner == owner && e.release_time <= now && cap > 0 {
            if e.amount <= cap {
                lemma_drain_total(s.drop_first(), owner, now, (cap - e.amount) as u128);
            } else {
                lemma_drain_zero_cap(s.drop_first(), owner, now);
                let part = ClaimEntry { owner: e.owner, amount: (e.amount - cap) as u128, release_time: e.release_time };
                let r = seq![part] + drain_rest(s.drop_first(), owner, now, 0);
                assert(r.drop_first() =~= drain_rest(s.drop_first(), owner, now, 0));
                assert(r[0] == part);
            }
        } else {
            lemma_drain_total(s.drop_first(), owner, now, cap);
            let r = seq![e] + drain_rest(s.drop_first(), owner, now, cap);
            assert(r.drop_first() =~= drain_rest(s.drop_first(), owner, now, cap));
            assert(r[0] == e);
        }
    }
}

/// Appending an entry adds its amount to the grand total.
pub proof fn lemma_claim_total_push(s: Seq<ClaimEntry>, e: ClaimEntry)
    ensures
        claim_total_of(s.push(e)) == claim_total_of(s) + e.amount,
    decreases s.len(),
{
    let t = s.push(e);
    if s.len() == 0 {
        assert(t.len() == 1 && t[0] == e);
        assert(t.drop_first() =~= Seq::<ClaimEntry>::empty());
        assert(claim_total_of(t.drop_first()) == 0);
    } else {
        assert(t[0] == s[0]);
        assert(t.drop_first() =~= s.drop_first().push(e));
        lemma_claim_total_push(s.drop_first(), e);
        assert(claim_total_of(t) == t[0].amount + claim_total_of(t.drop_first()));
    }
}

/// Appending an entry adds to an owner's matured total exactly when it
/// belongs to that owner and is already released.
pub proof fn lemma_matured_push(s: Seq<ClaimEntry>, e: ClaimEntry, owner: u64, now: u64)
    ensures
        matured_of(s.push(e), owner, now) == matured_of(s, owner, now)
            + (if e.owner == owner && e.release_time <= now {
                e.amount as int
            } else {
                0
            }),
    decreases s.len(),
{
    let t = s.push(e);
    if s.len() == 0 {
        assert(t.len() == 1 && t[0] == e);
        assert(t.drop_first() =~= Seq::<ClaimEntry>::empty());
        assert(matured_of(t.drop_first(), owner, now) == 0);
    } else {
        assert(t[0] == s[0]);
        assert(t.drop_first() =~= s.drop_first().push(e));
        lemma_matured_push(s.drop_first(), e, owner, now);
        assert(matured_of(t, owner, now) == (if t[0].owner == owner && t[0].release_time <= now { t[0].amount as int } else { 0 }) + matured_of(t.drop_first(), owner, now));
    }
}

/// The entries belonging to `owner`, oldest first.
pub open spec fn owner_entries(s: Seq<ClaimEntry>, owner: u64) -> Seq<ClaimEntry>
    decreases s.len(),
{
    if s.len() == 0 {
        Seq::empty()
    } else if s[0].owner == owner {
        seq![s[0]] + owner_entries(s.drop_first(), owner)
    } else {
        owner_entries(s.drop_first(), owner)
    }
}

/// Append-only per-owner queue of unbond entitlements.
#[derive(Debug)]
pub struct ClaimQueue {
    pub entries: Vec<ClaimEntry>,
}

impl ClaimQueue {
    pub fn new() -> (q: ClaimQueue)
        ensures
            q.entries@ =~= Seq::<ClaimEntry>::empty(),
    {
        ClaimQueue { entries: Vec::new() }
    }

    /// Record a new entitlement of `owner`, maturing at `release_time`.
    pub fn create(&mut self, owner: u64, amount: u128, release_time: u64)
        ensures
            final(self).entries@ == old(self).entries@.push(
                ClaimEntry { owner, amount, release_time },
            ),
    {
        self.entries.push(ClaimEntry { owner, amount, release_time });
    }

    /// The owner's matured total at time `now`.  The bound on the grand
    /// total (the engine keeps it equal to its claims reserve) rules out
    /// overflow of the running sum.
    pub fn matured_total(&self, owner: u64, now: u64) -> (t: u128)
        requires
            claim_total_of(self.entries@) <= u128::MAX,
        ensures
            t as int == matured_of(self.entries@, owner, now),
    {
        let s = Ghost(self.entries@);
        let n = self.entries.len();
        let mut acc: u128 = 0;
        proof {
            assert(s@.skip(0) =~= s@);
        }
        for i in 0..n
            invariant
                n == s@.len(),
                s@ == self.entries@,
                acc + matured_of(s@.skip(i as int), owner, now) == matured_of(s@, owner, now),
                claim_total_of(s@) <= u128::MAX,
        {
            proof {
                lemma_matured_nonneg(s@.skip(i as int).drop_first(), owner, now);
                lemma_matured_le_total(s@, owner, now);
                lemma_claim_total_nonneg(s@);
                assert(s@.skip(i as int)[0] == s@[i as int]);
                assert(s@.skip(i as int).drop_first() =~= s@.skip(i as int + 1));
            }
            let e = self.entries[i];
            if e.owner == owner && e.release_time <= now {
                acc = acc + e.amount;
            }
        }
        proof {
            assert(s@.skip(n as int) =~= Seq::<ClaimEntry>::empty());
        }
        acc
    }

    /// Drain the owner's matured entries oldest-first, paying out at most
    /// `cap`; a final entry that cannot be paid in full is reduced in
    /// place and keeps its position.
    pub fn drain(&mut self, owner: u64, now: u64, cap: u128) -> (paid: u128)
        requires
            claim_total_of(old(self).entries@) <= u128::MAX,
        ensures
            paid as int == drain_paid(old(self).entries@, owner, now, cap),
            final(self).entries@ == drain_rest(old(self).entries@, owner, now, cap),
            paid <= cap,
    {
        let s = Ghost(self.entries@);
        let n = self.entries.len();
        let mut kept: Vec<ClaimEntry> = Vec::new();
        let mut paid: u128 = 0;
        proof {
            assert(s@.skip(0) =~= s@);
            assert(kept@ + drain_rest(s@.skip(0), owner, now, cap) =~= drain_rest(s@, owner, now, cap));
        }
        for i in 0..n
            invariant
                n == s@.len(),
                s@ == self.entries@,
                paid <= cap,
                paid + drain_paid(s@.skip(i as int), owner, now, (cap - paid) as u128)
                    == drain_paid(s@, owner, now, cap),
                kept@ + drain_rest(s@.skip(i as int), owner, now, (cap - paid) as u128)
                    =~= drain_rest(s@, owner, now, cap),
        {
            proof {
                assert(s@.skip(i as int)[0] == s@[i as int]);
                assert(s@.skip(i as int).drop_first() =~= s@.skip(i as int + 1));
                lemma_drain_paid_is_min(s@.skip(i as int), owner, now, (cap - paid) as u128);
                lemma_matured_nonneg(s@.skip(i as int), owner, now);
            }
            let e = self.entries[i];
            let ghost rem: u128 = (cap - paid) as u128;
            if e.owner == owner && e.release_time <= now && paid < cap {
                let avail = cap - paid;
                if e.amount <= avail {
                    paid = paid + e.amount;
                    proof {
                        assert((rem - e.amount) as u128 == (cap - paid) as u128);
                    }
                } else {
                    kept.push(ClaimEntry { owner: e.owner, amount: e.amount - avail, release_time: e.release_time });
                    paid = cap;
                    proof {
                        lemma_drain_zero_cap(s@.skip(i as int + 1), owner, now);
                        assert(kept@ + drain_rest(s@.skip(i as int + 1), owner, now, 0)
                            =~= (kept@.drop_last() + seq![
                                ClaimEntry { owner: e.owner, amount: (e.amount - rem) as u128, release_time: e.release_time },
                            ]) + drain_rest(s@.skip(i as int + 1), owner, now, 0));
                        assert((kept@.drop_last() + seq![
                            ClaimEntry { owner: e.owner, amount: (e.amount - rem) as u128, release_time: e.release_time },
                        ]) + drain_rest(s@.skip(i as int + 1), owner, now, 0)
                            =~= kept@.drop_last() + (seq![
                                ClaimEntry { owner: e.owner, amount: (e.amount - rem) as u128, release_time: e.release_time },
                            ] + drain_rest(s@.skip(i as int + 1), owner, now, 0)));
                    }
                }
            } else {
                kept.push(e);
                proof {
                    assert(kept@ + drain_rest(s@.skip(i as int + 1), owner, now, rem)
                        =~= kept@.drop_last() + (seq![e] + drain_rest(s@.skip(i as int + 1), owner, now, rem)));
                }
            }
        }
        proof {
            assert(s@.skip(n as int) =~= Seq::<ClaimEntry>::empty());
            assert(kept@ + Seq::<ClaimEntry>::empty() =~= kept@);
        }
        self.entries = kept;
        paid
    }

    /// Enumerate the entries of `owner` without consuming anything.
    pub fn claims_of(&self, owner: u64) -> (r: Vec<ClaimEntry>)
        ensures
            r@ == owner_entries(self.entries@, owner),
    {
        let s = Ghost(self.entries@);
        let n = self.entries.len();
        let mut out: Vec<ClaimEntry> = Vec::new();
        proof {
            assert(s@.skip(0) =~= s@);
            assert(out@ + owner_entries(s@.skip(0), owner) =~= owner_entries(s@, owner));
        }
        for i in 0..n
            invariant
                n == s@.len(),
                s@ == self.entries@,
                out@ + owner_entries(s@.skip(i as int), owner) =~= owner_entries(s@, owner),
        {
            proof {
                assert(s@.skip(i as int)[0] == s@[i as int]);
                assert(s@.skip(i as int).drop_first() =~= s@.skip(i as int + 1));
            }
            let e = self.entries[i];
            if e.owner == owner {
                out.push(e);
                proof {
                    assert(out@ + owner_entries(s@.skip(i as int + 1), owner)
                        =~= out@.drop_last() + (seq![e] + owner_entries(s@.skip(i as int + 1), owner)));
                }
            }
        }
        proof {
            assert(s@.skip(n as int) =~= Seq::<ClaimEntry>::empty());
            assert(out@ + Seq::<ClaimEntry>::empty() =~= out@);
        }
        out
    }
}

} // verus!
