//! One token's balance book and total-supply counter.
//!
//! The host's key-value store is modelled as a vector of entries, one
//! per principal ever credited, together with the supply singleton.
//! The well-formedness predicate [`Ledger::wf`] carries the
//! conservation law: the stored total always equals the sum of all
//! stored balances, and no balance is ever negative.

use vstd::prelude::*;

use crate::types::Principal;

verus! {

/// One stored balance: a principal and what it holds.
#[derive(Clone, Copy)]
pub struct Entry {
    pub owner: Principal,
    pub amount: i128,
}

/// A token ledger: the balance book plus the supply counter.
pub struct Ledger {
    pub entries: Vec<Entry>,
    pub total: i128,
}

/// The sum of all stored balances.
pub open spec fn sum_entries(s: Seq<Entry>) -> int
    decreases s.len(),
{
    if s.len() == 0 {
        0
    } else {
        sum_entries(s.drop_last()) + s.last().amount
    }
}

/// The balance stored for `p`, or 0 when `p` was never credited: a
/// zero balance is indistinguishable from an untouched principal.
pub open spec fn lookup(s: Seq<Entry>, p: Principal) -> int
    decreases s.len(),
{
    if s.len() == 0 {
        0
    } else if s.last().owner == p {
        s.last().amount as int
    } else {
        lookup(s.drop_last(), p)
    }
}

/// Each principal owns at most one entry.
pub open spec fn distinct_owners(s: Seq<Entry>) -> bool {
    forall|i: int, j: int| 0 <= i < j < s.len() ==> s[i].owner != s[j].owner
}

/// No stored balance is negative.
pub open spec fn nonnegative(s: Seq<Entry>) -> bool {
    forall|i: int| 0 <= i < s.len() ==> s[i].amount >= 0
}

/// A sum of nonnegative balances is nonnegative.
pub proof fn lemma_sum_nonneg(s: Seq<Entry>)
    requires
        nonnegative(s),
    ensures
        sum_entries(s) >= 0,
    decreases s.len(),
{
    if s.len() > 0 {
        assert(nonnegative(s.drop_last()));
        lemma_sum_nonneg(s.drop_last());
    }
}

/// Every balance lies between 0 and the sum of all balances.
pub proof fn lemma_lookup_le_sum(s: Seq<Entry>, p: Principal)
    requires
        nonnegative(s),
    ensures
        0 <= lookup(s, p),
        lookup(s, p) <= sum_entries(s),
    decreases s.len(),
{
    if s.len() > 0 {
        assert(nonnegative(s.drop_last()));
        lemma_lookup_le_sum(s.drop_last(), p);
        lemma_sum_nonneg(s.drop_last());
    }
}

/// With distinct owners, the entry at index `i` is what lookup finds
/// for its owner.
pub proof fn lemma_lookup_at(s: Seq<Entry>, i: int)
    requires
        distinct_owners(s),
        0 <= i < s.len(),
    ensures
        lookup(s, s[i].owner) == s[i].amount,
    decreases s.len(),
{
    if i < s.len() - 1 {
        assert(s.last().owner != s[i].owner);
        assert(distinct_owners(s.drop_last()));
        lemma_lookup_at(s.drop_last(), i);
    }
}

/// A principal that owns no entry looks up to 0.
pub proof fn lemma_lookup_absent(s: Seq<Entry>, p: Principal)
    requires
        forall|i: int| 0 <= i < s.len() ==> s[i].owner != p,
    ensures
        lookup(s, p) == 0,
    decreases s.len(),
{
    if s.len() > 0 {
        lemma_lookup_absent(s.drop_last(), p);
    }
}

/// Replacing one entry adjusts the sum by the difference.
pub proof fn lemma_sum_update(s: Seq<Entry>, i: int, e: Entry)
    requires
        0 <= i < s.len(),
    ensures
        sum_entries(s.update(i, e)) == sum_entries(s) - s[i].amount + e.amount,
    decreases s.len(),
{
    let t = s.update(i, e);
    if i == s.len() - 1 {
        assert(t.drop_last() =~= s.drop_last());
    } else {
        assert(t.drop_last() =~= s.drop_last().update(i, e));
        lemma_sum_update(s.drop_last(), i, e);
    }
}

/// Replacing the entry at `i` with one for the same owner changes
/// that owner's lookup to the new amount and no other lookup.
pub proof fn lemma_lookup_update(s: Seq<Entry>, i: int, e: Entry)
    requires
        distinct_owners(s),
        0 <= i < s.len(),
        s[i].owner == e.owner,
    ensures
        distinct_owners(s.update(i, e)),
        lookup(s.update(i, e), e.owner) == e.amount,
        forall|q: Principal| q != e.owner ==> lookup(s.update(i, e), q) == lookup(s, q),
    decreases s.len(),
{
    let t = s.update(i, e);
    assert(forall|k: int| 0 <= k < s.len() ==> t[k].owner == s[k].owner);
    assert(distinct_owners(t));
    if i == s.len() - 1 {
        assert(t.drop_last() =~= s.drop_last());
        assert(t.last() == e);
        assert forall|q: Principal| q != e.owner implies lookup(t, q) == lookup(s, q) by {
            assert(lookup(t, q) == lookup(s.drop_last(), q));
            assert(s.last().owner == e.owner);
            assert(lookup(s, q) == lookup(s.drop_last(), q));
        }
    } else {
        assert(t.drop_last() =~= s.drop_last().update(i, e));
        assert(distinct_owners(s.drop_last()));
        lemma_lookup_update(s.drop_last(), i, e);
        assert(t.last() == s.last());
        assert(s.last().owner != e.owner);
        assert(lookup(t, e.owner) == lookup(s.drop_last().update(i, e), e.owner));
        assert forall|q: Principal| q != e.owner implies lookup(t, q) == lookup(s, q) by {
            if s.last().owner == q {
                assert(lookup(t, q) == t.last().amount);
            } else {
                assert(lookup(t, q) == lookup(s.drop_last().update(i, e), q));
                assert(lookup(s, q) == lookup(s.drop_last(), q));
            }
        }
    }
}

/// Conservation: in any well-formed ledger — and every operation of
/// both contracts keeps its ledger well-formed — the reported total
/// supply equals the sum of the balances of every principal ever
/// credited, and no balance is negative.
pub proof fn lemma_conservation(l: Ledger)
    requires
        l.wf(),
    ensures
        l.supply() == sum_entries(l.entries@),
        forall|p: Principal| 0 <= #[trigger] l.balance(p) <= l.supply(),
{
    assert forall|p: Principal| 0 <= #[trigger] l.balance(p) <= l.supply() by {
        lemma_lookup_le_sum(l.entries@, p);
    }
}

impl Ledger {
    /// The conservation law and the shape the store keeps: one entry
    /// per principal, no negative balance, and the supply counter
    /// equal to the sum of all balances.
    pub open spec fn wf(self) -> bool {
        &&& distinct_owners(self.entries@)
        &&& nonnegative(self.entries@)
        &&& self.total as int == sum_entries(self.entries@)
    }

    /// The balance of `p`, 0 when untouched.
    pub open spec fn balance(self, p: Principal) -> int {
        lookup(self.entries@, p)
    }

    /// The total supply.
    pub open spec fn supply(self) -> int {
        self.total as int
    }

    /// An empty ledger: no balances, zero supply.
    pub fn new() -> (r: Ledger)
        ensures
            r.wf(),
            r.supply() == 0,
            forall|p: Principal| r.balance(p) == 0,
    {
        Ledger { entries: Vec::new(), total: 0 }
    }

    /// The stored balance of `p`, defaulting to 0 — the read that
    /// backs both ledgers' public balance queries.
    pub fn get(&self, p: Principal) -> (r: i128)
        requires
            distinct_owners(self.entries@),
        ensures
            r as int == self.balance(p),
    {
        let mut i: usize = 0;
        while i < self.entries.len()
            invariant
                0 <= i <= self.entries.len(),
                distinct_owners(self.entries@),
                forall|j: int| 0 <= j < i ==> self.entries@[j].owner != p,
            decreases self.entries.len() - i,
        {
            if self.entries[i].owner == p {
                proof {
                    lemma_lookup_at(self.entries@, i as int);
                }
                return self.entries[i].amount;
            }
            i = i + 1;
        }
        proof {
            lemma_lookup_absent(self.entries@, p);
        }
        0
    }

    /// The stored supply — the read behind both supply queries.
    pub fn read_supply(&self) -> (r: i128)
        ensures
            r as int == self.supply(),
    {
        self.total
    }

    /// Store `v` as the balance of `p`, creating the entry on first
    /// credit. Touches only `p`'s balance; the supply counter is the
    /// caller's to adjust.
    fn put(&mut self, p: Principal, v: i128)
        requires
            distinct_owners(old(self).entries@),
        ensures
            distinct_owners(final(self).entries@),
            final(self).balance(p) == v as int,
            forall|q: Principal| q != p ==> final(self).balance(q) == old(self).balance(q),
            sum_entries(final(self).entries@) == sum_entries(old(self).entries@)
                - old(self).balance(p) + v as int,
            nonnegative(old(self).entries@) && v >= 0 ==> nonnegative(final(self).entries@),
            final(self).total == old(self).total,
    {
        let ghost s0 = self.entries@;
        let e = Entry { owner: p, amount: v };
        let mut i: usize = 0;
        while i < self.entries.len()
            invariant
                0 <= i <= self.entries.len(),
                self.entries@ == s0,
                self.total == old(self).total,
                distinct_owners(s0),
                forall|j: int| 0 <= j < i ==> s0[j].owner != p,
            decreases self.entries.len() - i,
        {
            if self.entries[i].owner == p {
                proof {
                    lemma_lookup_at(s0, i as int);
                    lemma_sum_update(s0, i as int, e);
                    lemma_lookup_update(s0, i as int, e);
                }
                self.entries[i] = e;
                return;
            }
            i = i + 1;
        }
        proof {
            lemma_lookup_absent(s0, p);
        }
        self.entries.push(e);
        proof {
            assert(self.entries@.drop_last() =~= s0);
            assert(self.entries@.last() == e);
        }
    }

    /// Credit `to` and grow the supply by the same amount: the mint
    /// and distribution primitive. Conservation is preserved.
    pub fn credit(&mut self, to: Principal, amount: i128)
        requires
            old(self).wf(),
            amount >= 0,
            old(self).supply() + amount <= i128::MAX,
        ensures
            final(self).wf(),
            final(self).balance(to) == old(self).balance(to) + amount,
            forall|q: Principal| q != to ==> final(self).balance(q) == old(self).balance(q),
            final(self).supply() == old(self).supply() + amount,
    {
        proof {
            lemma_lookup_le_sum(self.entries@, to);
        }
        let b = self.get(to);
        self.put(to, b + amount);
        self.total = self.total + amount;
    }

    /// Debit `from` and shrink the supply by the same amount: the
    /// burn primitive. Conservation is preserved.
    pub fn debit_burn(&mut self, from: Principal, amount: i128)
        requires
            old(self).wf(),
            0 <= amount,
            amount <= old(self).balance(from),
        ensures
            final(self).wf(),
            final(self).balance(from) == old(self).balance(from) - amount,
            forall|q: Principal| q != from ==> final(self).balance(q) == old(self).balance(q),
            final(self).supply() == old(self).supply() - amount,
    {
        proof {
            lemma_lookup_le_sum(self.entries@, from);
        }
        let b = self.get(from);
        self.put(from, b - amount);
        self.total = self.total - amount;
    }

    /// Move `amount` from `from` to `to`, leaving the supply alone:
    /// the plain-transfer primitive. A self-move leaves every balance
    /// as it was, as debiting and then crediting the same key does.
    pub fn move_balance(&mut self, from: Principal, to: Principal, amount: i128)
        requires
            old(self).wf(),
            0 <= amount,
            amount <= old(self).balance(from),
        ensures
            final(self).wf(),
            forall|q: Principal|
                final(self).balance(q) == old(self).balance(q)
                    + (if q == to { amount as int } else { 0 })
                    - (if q == from { amount as int } else { 0 }),
            final(self).supply() == old(self).supply(),
    {
        proof {
            lemma_lookup_le_sum(self.entries@, from);
        }
        let fb = self.get(from);
        self.put(from, fb - amount);
        proof {
            lemma_lookup_le_sum(self.entries@, to);
        }
        let tb = self.get(to);
        self.put(to, tb + amount);
    }
}

} // verus!
