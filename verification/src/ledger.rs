//! The derivative-token balance ledger: one non-negative amount per
//! account, with the sum over all entries tracked against the recorded
//! total supply by the engine.

use vstd::prelude::*;

verus! {

/// Balance of account `a` in an entry sequence: the amount of the first
/// entry keyed by `a`, or zero when there is none.
pub open spec fn bal_of(s: Seq<(u64, u128)>, a: u64) -> u128
    decreases s.len(),
{
    if s.len() == 0 {
        0
    } else if s[0].0 == a {
        s[0].1
    } else {
        bal_of(s.drop_first(), a)
    }
}

/// Sum of all amounts in an entry sequence.
pub open spec fn sum_of(s: Seq<(u64, u128)>) -> int
    decreases s.len(),
{
    if s.len() == 0 {
        0
    } else {
        s[0].1 + sum_of(s.drop_first())
    }
}

/// The account keys of the sequence are pairwise distinct.
pub open spec fn unique_keys(s: Seq<(u64, u128)>) -> bool {
    forall|i: int, j: int|
        #![trigger s[i].0, s[j].0]
        0 <= i < j < s.len() ==> s[i].0 != s[j].0
}

/// `bal_of` reads the amount at the first index that holds the key.
proof fn lemma_bal_of_at(s: Seq<(u64, u128)>, a: u64, i: int)
    requires
        0 <= i < s.len(),
        s[i].0 == a,
        forall|j: int| 0 <= j < i ==> s[j].0 != a,
    ensures
        bal_of(s, a) == s[i].1,
    decreases i,
{
    if i > 0 {
        lemma_bal_of_at(s.drop_first(), a, i - 1);
    }
}

/// A key that appears nowhere has balance zero.
proof fn lemma_bal_of_absent(s: Seq<(u64, u128)>, a: u64)
    requires
        forall|j: int| 0 <= j < s.len() ==> s[j].0 != a,
    ensures
        bal_of(s, a) == 0,
    decreases s.len(),
{
    if s.len() > 0 {
        lemma_bal_of_absent(s.drop_first(), a);
    }
}

/// Updating the amount at index `i` moves only that key's balance.
proof fn lemma_bal_of_update(s: Seq<(u64, u128)>, i: int, v: u128, a: u64)
    requires
        0 <= i < s.len(),
        unique_keys(s),
    ensures
        bal_of(s.update(i, (s[i].0, v)), a) == if a == s[i].0 {
            v
        } else {
            bal_of(s, a)
        },
    decreases i,
{
    let t = s.update(i, (s[i].0, v));
    if i == 0 {
        if s[0].0 != a {
            assert(t.drop_first() =~= s.drop_first());
        }
    } else {
        assert(t.drop_first() =~= s.drop_first().update(i - 1, (s[i].0, v)));
        lemma_bal_of_update(s.drop_first(), i - 1, v, a);
    }
}

/// Updating the amount at index `i` changes the sum by the difference.
proof fn lemma_sum_of_update(s: Seq<(u64, u128)>, i: int, v: u128)
    requires
        0 <= i < s.len(),
    ensures
        sum_of(s.update(i, (s[i].0, v))) == sum_of(s) - s[i].1 + v,
    decreases i,
{
    let t = s.update(i, (s[i].0, v));
    if i == 0 {
        assert(t.drop_first() =~= s.drop_first());
    } else {
        assert(t.drop_first() =~= s.drop_first().update(i - 1, (s[i].0, v)));
        lemma_sum_of_update(s.drop_first(), i - 1, v);
    }
}

/// Appending an entry with a fresh key gives that key its amount and
/// leaves every other balance alone.
proof fn lemma_bal_of_push(s: Seq<(u64, u128)>, k: u64, v: u128, a: u64)
    requires
        forall|j: int| 0 <= j < s.len() ==> s[j].0 != k,
    ensures
        bal_of(s.push((k, v)), a) == if a == k {
            v
        } else {
            bal_of(s, a)
        },
    decreases s.len(),
{
    let t = s.push((k, v));
    if s.len() == 0 {
        assert(t.len() == 1 && t[0] == (k, v));
        assert(t.drop_first() =~= Seq::<(u64, u128)>::empty());
        assert(bal_of(t.drop_first(), a) == 0);
    } else {
        assert(t[0] == s[0]);
        assert(t.drop_first() =~= s.drop_first().push((k, v)));
        lemma_bal_of_push(s.drop_first(), k, v, a);
    }
}

/// Appending an entry grows the sum by its amount.
proof fn lemma_sum_of_push(s: Seq<(u64, u128)>, k: u64, v: u128)
    ensures
        sum_of(s.push((k, v))) == sum_of(s) + v,
    decreases s.len(),
{
    let t = s.push((k, v));
    if s.len() == 0 {
        assert(t.len() == 1 && t[0] == (k, v));
        assert(t.drop_first() =~= Seq::<(u64, u128)>::empty());
        assert(sum_of(t.drop_first()) == 0);
        assert(sum_of(t) == v);
    } else {
        assert(t[0] == s[0]);
        assert(t.drop_first() =~= s.drop_first().push((k, v)));
        lemma_sum_of_push(s.drop_first(), k, v);
        assert(sum_of(t) == t[0].1 + sum_of(t.drop_first()));
    }
}

/// No single balance exceeds the sum over all entries.
pub proof fn lemma_bal_le_sum(s: Seq<(u64, u128)>, a: u64)
    ensures
        bal_of(s, a) <= sum_of(s),
    decreases s.len(),
{
    if s.len() > 0 {
        lemma_bal_le_sum(s.drop_first(), a);
        lemma_sum_nonneg(s.drop_first());
    }
}

/// A sum of unsigned amounts is non-negative.
pub proof fn lemma_sum_nonneg(s: Seq<(u64, u128)>)
    ensures
        sum_of(s) >= 0,
    decreases s.len(),
{
    if s.len() > 0 {
        lemma_sum_nonneg(s.drop_first());
    }
}

/// The balance ledger: account to amount, at most one entry per account.
#[derive(Debug)]
pub struct Ledger {
    pub entries: Vec<(u64, u128)>,
}

impl Ledger {
    /// Each account holds at most one entry.
    pub open spec fn wf(self) -> bool {
        unique_keys(self.entries@)
    }

    /// Balance of account `a`; absent accounts hold zero.
    pub open spec fn bal(self, a: u64) -> u128 {
        bal_of(self.entries@, a)
    }

    /// Sum over all entries.
    pub open spec fn total(self) -> int {
        sum_of(self.entries@)
    }

    pub fn new() -> (l: Ledger)
        ensures
            l.wf(),
            l.total() == 0,
            forall|a: u64| l.bal(a) == 0,
    {
        let l = Ledger { entries: Vec::new() };
        proof {
            assert forall|a: u64| l.bal(a) == 0 by {
                lemma_bal_of_absent(l.entries@, a);
            }
        }
        l
    }

    /// Index of the entry keyed by `a`, if there is one.
    fn find(&self, a: u64) -> (r: Option<usize>)
        ensures
            match r {
                Some(i) => i < self.entries@.len() && self.entries@[i as int].0 == a
                    && (forall|j: int| 0 <= j < i ==> self.entries@[j].0 != a),
                None => forall|j: int| 0 <= j < self.entries@.len() ==> self.entries@[j].0 != a,
            },
    {
        let n = self.entries.len();
        for i in 0..n
            invariant
                n == self.entries@.len(),
                forall|j: int| 0 <= j < i ==> self.entries@[j].0 != a,
        {
            if self.entries[i].0 == a {
                return Some(i);
            }
        }
        None
    }

    /// Read the balance of account `a`.
    pub fn read(&self, a: u64) -> (r: u128)
        ensures
            r == self.bal(a),
    {
        match self.find(a) {
            Some(i) => {
                proof {
                    lemma_bal_of_at(self.entries@, a, i as int);
                }
                self.entries[i].1
            },
            None => {
                proof {
                    lemma_bal_of_absent(self.entries@, a);
                }
                0
            },
        }
    }

    /// Add `amt` to the balance of account `a`.
    pub fn credit(&mut self, a: u64, amt: u128)
        requires
            old(self).wf(),
            old(self).bal(a) + amt <= u128::MAX,
        ensures
            final(self).wf(),
            final(self).bal(a) == old(self).bal(a) + amt,
            forall|b: u64| b != a ==> final(self).bal(b) == old(self).bal(b),
            final(self).total() == old(self).total() + amt,
    {
        match self.find(a) {
            Some(i) => {
                proof {
                    lemma_bal_of_at(self.entries@, a, i as int);
                    lemma_bal_of_update(self.entries@, i as int, (self.entries@[i as int].1 + amt) as u128, a);
                    lemma_sum_of_update(self.entries@, i as int, (self.entries@[i as int].1 + amt) as u128);
                    assert forall|b: u64| b != a implies bal_of(
                        self.entries@.update(i as int, (a, (self.entries@[i as int].1 + amt) as u128)),
                        b,
                    ) == bal_of(self.entries@, b) by {
                        lemma_bal_of_update(self.entries@, i as int, (self.entries@[i as int].1 + amt) as u128, b);
                    }
                }
                let cur = self.entries[i].1;
                self.entries[i] = (a, cur + amt);
            },
            None => {
                proof {
                    lemma_bal_of_absent(self.entries@, a);
                    lemma_sum_of_push(self.entries@, a, amt);
                    assert forall|b: u64| bal_of(self.entries@.push((a, amt)), b) == (if bal_of(
                        self.entries@,
                        b,
                    ) == 0 && b == a {
                        amt
                    } else {
                        bal_of(self.entries@, b)
                    }) by {
                        lemma_bal_of_push(self.entries@, a, amt, b);
                    }
                }
                self.entries.push((a, amt));
            },
        }
    }

    /// Remove `amt` from the balance of account `a`.
    pub fn debit(&mut self, a: u64, amt: u128)
        requires
            old(self).wf(),
            old(self).bal(a) >= amt,
        ensures
            final(self).wf(),
            final(self).bal(a) == old(self).bal(a) - amt,
            forall|b: u64| b != a ==> final(self).bal(b) == old(self).bal(b),
            final(self).total() == old(self).total() - amt,
    {
        match self.find(a) {
            Some(i) => {
                proof {
                    lemma_bal_of_at(self.entries@, a, i as int);
                    lemma_bal_of_update(self.entries@, i as int, (self.entries@[i as int].1 - amt) as u128, a);
                    lemma_sum_of_update(self.entries@, i as int, (self.entries@[i as int].1 - amt) as u128);
                    assert forall|b: u64| b != a implies bal_of(
                        self.entries@.update(i as int, (a, (self.entries@[i as int].1 - amt) as u128)),
                        b,
                    ) == bal_of(self.entries@, b) by {
                        lemma_bal_of_update(self.entries@, i as int, (self.entries@[i as int].1 - amt) as u128, b);
                    }
                }
                let cur = self.entries[i].1;
                self.entries[i] = (a, cur - amt);
            },
            None => {
                proof {
                    lemma_bal_of_absent(self.entries@, a);
                }
            },
        }
    }
}

} // verus!
