//! The distribution token (MDT): issued proportionally to CWT
//! holdings, transferable peer-to-peer, burnable by the holder alone.
//!
//! `distribute` walks the supplied holder list in order, reads each
//! holder's CWT balance through the base ledger's public queries, and
//! credits `floor(cwt_balance * amount / cwt_total)`. Each share is
//! truncated independently, so the sum of the credited shares may
//! fall short of `amount`; the remainder is simply never minted.

use vstd::arithmetic::div_mod::{
    lemma_div_is_ordered, lemma_div_multiples_vanish, lemma_div_pos_is_pos,
};
use vstd::arithmetic::mul::{lemma_mul_inequality, lemma_mul_nonnegative};
use vstd::prelude::*;

use crate::auth::AuthContext;
use crate::cwt::CWTContract;
use crate::ledger::{lemma_lookup_le_sum, lemma_sum_nonneg, lookup, nonnegative, sum_entries, Entry, Ledger};
use crate::muldiv::mul_div_floor;
use crate::types::{Event, Principal, TokenError};

verus! {

/// The share a holder with CWT balance `b` receives out of `amount`,
/// when the CWT total supply is `total`: the exact ratio rounded
/// toward zero, and nothing for an empty balance.
pub open spec fn share(b: int, amount: int, total: int) -> int {
    if b > 0 {
        (b * amount) / total
    } else {
        0
    }
}

/// The sum of the shares credited over a holder list, in list order.
/// A holder listed twice is served twice, as the distribution loop
/// itself would.
pub open spec fn sum_shares(
    holders: Seq<Principal>,
    cwt: Seq<Entry>,
    amount: int,
    total: int,
) -> int
    decreases holders.len(),
{
    if holders.len() == 0 {
        0
    } else {
        sum_shares(holders.drop_last(), cwt, amount, total) + share(
            lookup(cwt, holders.last()),
            amount,
            total,
        )
    }
}

/// What one principal is credited over the whole list: its share,
/// once per occurrence.
pub open spec fn credited(
    holders: Seq<Principal>,
    cwt: Seq<Entry>,
    amount: int,
    total: int,
    p: Principal,
) -> int
    decreases holders.len(),
{
    if holders.len() == 0 {
        0
    } else {
        credited(holders.drop_last(), cwt, amount, total, p) + if holders.last() == p {
            share(lookup(cwt, p), amount, total)
        } else {
            0
        }
    }
}

/// The shares handed out over a prefix of the holder list never
/// exceed those handed out over the whole list.
pub proof fn lemma_sum_shares_take_le(
    holders: Seq<Principal>,
    cwt: Seq<Entry>,
    amount: int,
    total: int,
    k: int,
)
    requires
        0 <= k <= holders.len(),
        nonnegative(cwt),
        0 < total,
        0 < amount,
    ensures
        sum_shares(holders.take(k), cwt, amount, total) <= sum_shares(
            holders,
            cwt,
            amount,
            total,
        ),
    decreases holders.len() - k,
{
    if k == holders.len() {
        assert(holders.take(k) =~= holders);
    } else {
        assert(holders.take(k + 1).drop_last() =~= holders.take(k));
        assert(holders.take(k + 1).last() == holders[k]);
        lemma_lookup_le_sum(cwt, holders[k]);
        if lookup(cwt, holders[k]) > 0 {
            lemma_mul_nonnegative(lookup(cwt, holders[k]), amount);
            lemma_div_pos_is_pos(lookup(cwt, holders[k]) * amount, total);
        }
        lemma_sum_shares_take_le(holders, cwt, amount, total, k + 1);
    }
}

/// No principal occurs twice in the list.
pub open spec fn distinct_principals(holders: Seq<Principal>) -> bool {
    forall|i: int, j: int| 0 <= i < j < holders.len() ==> holders[i] != holders[j]
}

/// The CWT balances the holder list draws on, summed in list order.
pub open spec fn sum_lookups(holders: Seq<Principal>, cwt: Seq<Entry>) -> int
    decreases holders.len(),
{
    if holders.len() == 0 {
        0
    } else {
        sum_lookups(holders.drop_last(), cwt) + lookup(cwt, holders.last())
    }
}

proof fn lemma_sum_lookups_zero(holders: Seq<Principal>, cwt: Seq<Entry>)
    requires
        cwt.len() == 0,
    ensures
        sum_lookups(holders, cwt) == 0,
    decreases holders.len(),
{
    if holders.len() > 0 {
        lemma_sum_lookups_zero(holders.drop_last(), cwt);
    }
}

/// Appending an entry for a fresh owner raises the drawn-on sum by
/// that entry's amount when its owner is listed, once at most over a
/// duplicate-free list, and not at all otherwise.
proof fn lemma_sum_lookups_push(holders: Seq<Principal>, s: Seq<Entry>, e: Entry)
    requires
        distinct_principals(holders),
        forall|i: int| 0 <= i < s.len() ==> s[i].owner != e.owner,
    ensures
        sum_lookups(holders, s.push(e)) == sum_lookups(holders, s) + if holders.contains(
            e.owner,
        ) {
            e.amount as int
        } else {
            0
        },
    decreases holders.len(),
{
    if holders.len() == 0 {
        assert(!holders.contains(e.owner));
    } else {
        let hd = holders.drop_last();
        assert(distinct_principals(hd));
        lemma_sum_lookups_push(hd, s, e);
        assert(s.push(e).last() == e);
        assert(s.push(e).drop_last() =~= s);
        if holders.last() == e.owner {
            crate::ledger::lemma_lookup_absent(s, e.owner);
            assert(holders.contains(e.owner)) by {
                assert(holders[holders.len() - 1] == e.owner);
            }
            assert(!hd.contains(e.owner)) by {
                if hd.contains(e.owner) {
                    let i = choose|i: int| 0 <= i < hd.len() && hd[i] == e.owner;
                    assert(holders[i] == holders[holders.len() - 1]);
                    assert(false);
                }
            }
        } else {
            assert(lookup(s.push(e), holders.last()) == lookup(s, holders.last()));
            assert(holders.contains(e.owner) == hd.contains(e.owner)) by {
                if holders.contains(e.owner) {
                    let i = choose|i: int| 0 <= i < holders.len() && holders[i] == e.owner;
                    assert(i < holders.len() - 1);
                    assert(hd[i] == e.owner);
                }
                if hd.contains(e.owner) {
                    let i = choose|i: int| 0 <= i < hd.len() && hd[i] == e.owner;
                    assert(holders[i] == e.owner);
                }
            }
        }
    }
}

/// A duplicate-free holder list cannot draw on more CWT than exists:
/// its balances sum to at most the whole book's sum.
proof fn lemma_sum_lookups_le_total(holders: Seq<Principal>, cwt: Seq<Entry>)
    requires
        distinct_principals(holders),
        crate::ledger::distinct_owners(cwt),
        nonnegative(cwt),
    ensures
        0 <= sum_lookups(holders, cwt),
        sum_lookups(holders, cwt) <= sum_entries(cwt),
    decreases cwt.len(),
{
    lemma_sum_lookups_nonneg(holders, cwt);
    if cwt.len() == 0 {
        lemma_sum_lookups_zero(holders, cwt);
    } else {
        let dl = cwt.drop_last();
        assert(cwt =~= dl.push(cwt.last()));
        assert(crate::ledger::distinct_owners(dl));
        assert(nonnegative(dl));
        assert(forall|i: int| 0 <= i < dl.len() ==> dl[i].owner != cwt.last().owner);
        lemma_sum_lookups_push(holders, dl, cwt.last());
        lemma_sum_lookups_le_total(holders, dl);
    }
}

proof fn lemma_sum_lookups_nonneg(holders: Seq<Principal>, cwt: Seq<Entry>)
    requires
        nonnegative(cwt),
    ensures
        0 <= sum_lookups(holders, cwt),
    decreases holders.len(),
{
    if holders.len() > 0 {
        lemma_sum_lookups_nonneg(holders.drop_last(), cwt);
        lemma_lookup_le_sum(cwt, holders.last());
    }
}

/// Two floors never beat the floor of the sum.
proof fn lemma_div_add_le(x: int, y: int, t: int)
    requires
        0 < t,
        0 <= x,
        0 <= y,
    ensures
        x / t + y / t <= (x + y) / t,
{
    vstd::arithmetic::div_mod::lemma_fundamental_div_mod(x, t);
    vstd::arithmetic::div_mod::lemma_fundamental_div_mod(y, t);
    vstd::arithmetic::div_mod::lemma_mod_bound(x, t);
    vstd::arithmetic::div_mod::lemma_mod_bound(y, t);
    let q1 = x / t;
    let q2 = y / t;
    let r1 = x % t;
    let r2 = y % t;
    assert((q1 + q2) * t == q1 * t + q2 * t) by (nonlinear_arith);
    assert(q1 * t == t * q1) by (nonlinear_arith);
    assert(q2 * t == t * q2) by (nonlinear_arith);
    assert((q1 + q2 + 1) * t == q1 * t + q2 * t + t) by (nonlinear_arith);
    if r1 + r2 < t {
        vstd::arithmetic::div_mod::lemma_fundamental_div_mod_converse(
            x + y,
            t,
            q1 + q2,
            r1 + r2,
        );
    } else {
        vstd::arithmetic::div_mod::lemma_fundamental_div_mod_converse(
            x + y,
            t,
            q1 + q2 + 1,
            r1 + r2 - t,
        );
    }
}

/// Truncating each holder's share independently never beats
/// truncating once over the balances they draw on together.
proof fn lemma_sum_shares_le_ratio(
    holders: Seq<Principal>,
    cwt: Seq<Entry>,
    amount: int,
    total: int,
)
    requires
        nonnegative(cwt),
        0 < total,
        0 < amount,
    ensures
        0 <= sum_shares(holders, cwt, amount, total),
        sum_shares(holders, cwt, amount, total) <= (sum_lookups(holders, cwt) * amount)
            / total,
    decreases holders.len(),
{
    if holders.len() == 0 {
        vstd::arithmetic::div_mod::lemma_div_of0(total);
    } else {
        let hd = holders.drop_last();
        lemma_sum_shares_le_ratio(hd, cwt, amount, total);
        let b = lookup(cwt, holders.last());
        lemma_lookup_le_sum(cwt, holders.last());
        let s_hd = sum_lookups(hd, cwt);
        lemma_sum_lookups_nonneg(hd, cwt);
        lemma_mul_nonnegative(s_hd, amount);
        lemma_mul_nonnegative(b, amount);
        if b == 0 {
            vstd::arithmetic::div_mod::lemma_div_of0(total);
            assert(share(b, amount, total) == (b * amount) / total);
        }
        lemma_div_add_le(s_hd * amount, b * amount, total);
        vstd::arithmetic::mul::lemma_mul_is_distributive_add_other_way(amount, s_hd, b);
    }
}

/// A truncated share never rounds up: scaled back by the total it
/// stays within the exact product `b * amount`.
pub proof fn lemma_share_never_rounds_up(b: int, amount: int, total: int)
    requires
        0 <= b,
        0 < amount,
        0 < total,
    ensures
        share(b, amount, total) * total <= b * amount,
{
    if b > 0 {
        vstd::arithmetic::div_mod::lemma_fundamental_div_mod(b * amount, total);
        vstd::arithmetic::div_mod::lemma_mod_bound(b * amount, total);
        assert(((b * amount) / total) * total == total * ((b * amount) / total))
            by (nonlinear_arith);
    } else {
        assert(share(b, amount, total) * total == 0) by (nonlinear_arith)
            requires
                share(b, amount, total) == 0,
        ;
        lemma_mul_nonnegative(b, amount);
    }
}

/// Truncation can only lose: over any duplicate-free holder list, the
/// sum of the truncated shares never exceeds the amount offered for
/// distribution. (A list that names the same holder twice is served
/// twice and can be credited more; the bound holds of lists without
/// duplicates.)
pub proof fn lemma_distribution_truncation(
    holders: Seq<Principal>,
    cwt: Seq<Entry>,
    amount: int,
)
    requires
        distinct_principals(holders),
        crate::ledger::distinct_owners(cwt),
        nonnegative(cwt),
        0 < amount,
        0 < sum_entries(cwt),
    ensures
        sum_shares(holders, cwt, amount, sum_entries(cwt)) <= amount,
{
    let t = sum_entries(cwt);
    let s = sum_lookups(holders, cwt);
    lemma_sum_shares_le_ratio(holders, cwt, amount, t);
    lemma_sum_lookups_le_total(holders, cwt);
    lemma_mul_inequality(s, t, amount);
    lemma_div_is_ordered(s * amount, t * amount, t);
    assert(t * amount == amount * t) by (nonlinear_arith);
    lemma_div_multiples_vanish(amount, t);
}

/// One MDT ledger instance: its own address, its admin, the address
/// of the CWT ledger it distributes against, its balance book with
/// the supply counter, and the events it has published.
pub struct MDTContract {
    pub contract_id: Principal,
    pub admin: Principal,
    pub cwt_ref: Principal,
    pub ledger: Ledger,
    pub events: Vec<Event>,
}

impl MDTContract {
    /// The ledger's conservation invariant, carried by every operation.
    pub open spec fn wf(self) -> bool {
        self.ledger.wf()
    }

    /// The balance of `p`, 0 when untouched.
    pub open spec fn balance(self, p: Principal) -> int {
        self.ledger.balance(p)
    }

    /// The total supply.
    pub open spec fn supply(self) -> int {
        self.ledger.supply()
    }

    /// Creates the ledger instance: stores the admin principal and
    /// the address of the authoritative CWT ledger beside the address
    /// the instance answers to. Run exactly once, before any other
    /// operation; both stored principals are immutable thereafter.
    pub fn initialize(contract_id: Principal, sac: Principal, cwt_address: Principal) -> (r:
        MDTContract)
        ensures
            r.wf(),
            r.contract_id == contract_id,
            r.admin == sac,
            r.cwt_ref == cwt_address,
            r.supply() == 0,
            forall|p: Principal| r.balance(p) == 0,
            r.events@.len() == 0,
    {
        MDTContract {
            contract_id,
            admin: sac,
            cwt_ref: cwt_address,
            ledger: Ledger::new(),
            events: Vec::new(),
        }
    }

    /// Admin-only proportional issuance. Walks `holders` in the given
    /// order; every holder with a positive CWT balance whose truncated
    /// share is positive is credited that share, and the MDT supply
    /// grows with each credit. One distribution event reports the sum
    /// actually credited and the holder list. Holders absent from the
    /// list receive nothing, whatever they hold in CWT; coverage is
    /// the caller's responsibility. Every refusal leaves the ledger
    /// exactly as it was.
    pub fn distribute(
        &mut self,
        auth: &AuthContext,
        amount: i128,
        holders: &Vec<Principal>,
        cwt: &CWTContract,
    ) -> (r: Result<(), TokenError>)
        requires
            old(self).wf(),
            cwt.wf(),
            cwt.contract_id == old(self).cwt_ref,
            auth@.contains(old(self).admin) && amount > 0 && holders@.len() > 0
                && cwt.supply() > 0 ==> old(self).supply() + sum_shares(
                holders@,
                cwt.ledger.entries@,
                amount as int,
                cwt.supply(),
            ) <= i128::MAX,
        ensures
            final(self).wf(),
            final(self).contract_id == old(self).contract_id,
            final(self).admin == old(self).admin,
            final(self).cwt_ref == old(self).cwt_ref,
            !auth@.contains(old(self).admin) ==> r == Err::<(), TokenError>(
                TokenError::Unauthorized,
            ) && *final(self) == *old(self),
            auth@.contains(old(self).admin) && amount <= 0 ==> r == Err::<(), TokenError>(
                TokenError::InvalidAmount,
            ) && *final(self) == *old(self),
            auth@.contains(old(self).admin) && amount > 0 && holders@.len() == 0 ==> r
                == Err::<(), TokenError>(TokenError::EmptyHolderSet) && *final(self) == *old(
                self,
            ),
            auth@.contains(old(self).admin) && amount > 0 && holders@.len() > 0
                && cwt.supply() <= 0 ==> r == Err::<(), TokenError>(TokenError::ZeroCwtSupply)
                && *final(self) == *old(self),
            auth@.contains(old(self).admin) && amount > 0 && holders@.len() > 0
                && cwt.supply() > 0 ==> {
                &&& r == Ok::<(), TokenError>(())
                &&& forall|p: Principal|
                    final(self).balance(p) == old(self).balance(p) + credited(
                        holders@,
                        cwt.ledger.entries@,
                        amount as int,
                        cwt.supply(),
                        p,
                    )
                &&& final(self).supply() == old(self).supply() + sum_shares(
                    holders@,
                    cwt.ledger.entries@,
                    amount as int,
                    cwt.supply(),
                )
                &&& final(self).events@ == old(self).events@.push(final(self).events@.last())
                &&& (final(self).events@.last() matches Event::Distribution {
                    total_distributed,
                    holders: listed,
                } && total_distributed as int == sum_shares(
                    holders@,
                    cwt.ledger.entries@,
                    amount as int,
                    cwt.supply(),
                ) && listed@ == holders@)
            },
    {
        if !auth.allows(self.admin) {
            return Err(TokenError::Unauthorized);
        }
        if amount <= 0 {
            return Err(TokenError::InvalidAmount);
        }
        if holders.len() == 0 {
            return Err(TokenError::EmptyHolderSet);
        }
        let cwt_total = cwt.tot_sup();
        if cwt_total <= 0 {
            return Err(TokenError::ZeroCwtSupply);
        }
        let ghost cwt_entries = cwt.ledger.entries@;
        let ghost goal = sum_shares(holders@, cwt_entries, amount as int, cwt.supply());
        proof {
            lemma_sum_nonneg(self.ledger.entries@);
        }
        let mut total_distributed: i128 = 0;
        let mut listed: Vec<Principal> = Vec::new();
        let mut idx: usize = 0;
        while idx < holders.len()
            invariant
                0 <= idx <= holders@.len(),
                self.ledger.wf(),
                self.contract_id == old(self).contract_id,
                self.admin == old(self).admin,
                self.cwt_ref == old(self).cwt_ref,
                self.events@ == old(self).events@,
                total_distributed as int == sum_shares(
                    holders@.take(idx as int),
                    cwt_entries,
                    amount as int,
                    cwt.supply(),
                ),
                forall|p: Principal|
                    self.ledger.balance(p) == old(self).ledger.balance(p) + credited(
                        holders@.take(idx as int),
                        cwt_entries,
                        amount as int,
                        cwt.supply(),
                        p,
                    ),
                self.ledger.supply() == old(self).ledger.supply() + sum_shares(
                    holders@.take(idx as int),
                    cwt_entries,
                    amount as int,
                    cwt.supply(),
                ),
                listed@ == holders@.take(idx as int),
            decreases holders@.len() - idx,
        {
            let holder = holders[idx];
            let cwt_balance = cwt.bal_of(holder);
            proof {
                assert(holders@.take(idx + 1).drop_last() =~= holders@.take(idx as int));
                assert(holders@.take(idx + 1).last() == holders@[idx as int]);
                lemma_lookup_le_sum(cwt_entries, holder);
                lemma_sum_shares_take_le(
                    holders@,
                    cwt_entries,
                    amount as int,
                    cwt.supply(),
                    idx + 1,
                );
            }
            if cwt_balance > 0 {
                let mdt_amount = mul_div_floor(cwt_balance, amount, cwt_total);
                if mdt_amount > 0 {
                    self.ledger.credit(holder, mdt_amount);
                    total_distributed = total_distributed + mdt_amount;
                }
            }
            listed.push(holder);
            idx = idx + 1;
        }
        proof {
            assert(holders@.take(holders@.len() as int) =~= holders@);
        }
        self.events.push(
            Event::Distribution { total_distributed, holders: listed },
        );
        Ok(())
    }

    /// Moves `amount` from `from` to `to`, gated on `from`'s own
    /// authorization. A transfer to the contract's own identity is a
    /// burn — here self-service, with no admin gate: it debits `from`,
    /// shrinks the supply, and publishes a burn event. An ordinary
    /// transfer leaves the supply untouched and publishes nothing.
    /// Every refusal leaves the ledger exactly as it was.
    pub fn transfer(
        &mut self,
        auth: &AuthContext,
        from: Principal,
        to: Principal,
        amount: i128,
    ) -> (r: Result<(), TokenError>)
        requires
            old(self).wf(),
        ensures
            final(self).wf(),
            final(self).contract_id == old(self).contract_id,
            final(self).admin == old(self).admin,
            final(self).cwt_ref == old(self).cwt_ref,
            !auth@.contains(from) ==> r == Err::<(), TokenError>(TokenError::Unauthorized)
                && *final(self) == *old(self),
            auth@.contains(from) && amount < 0 ==> r == Err::<(), TokenError>(
                TokenError::InvalidAmount,
            ) && *final(self) == *old(self),
            auth@.contains(from) && amount >= 0 && old(self).balance(from) < amount ==> r
                == Err::<(), TokenError>(TokenError::InsufficientBalance) && *final(self)
                == *old(self),
            auth@.contains(from) && amount >= 0 && old(self).balance(from) >= amount && to
                == old(self).contract_id ==> {
                &&& r == Ok::<(), TokenError>(())
                &&& final(self).balance(from) == old(self).balance(from) - amount
                &&& forall|q: Principal|
                    q != from ==> final(self).balance(q) == old(self).balance(q)
                &&& final(self).supply() == old(self).supply() - amount
                &&& final(self).events@ == old(self).events@.push(
                    Event::Burn { from, amount },
                )
            },
            auth@.contains(from) && amount >= 0 && old(self).balance(from) >= amount && to
                != old(self).contract_id ==> {
                &&& r == Ok::<(), TokenError>(())
                &&& forall|q: Principal|
                    final(self).balance(q) == old(self).balance(q) + (if q == to {
                        amount as int
                    } else {
                        0
                    }) - (if q == from {
                        amount as int
                    } else {
                        0
                    })
                &&& final(self).supply() == old(self).supply()
                &&& final(self).events@ == old(self).events@
            },
    {
        if !auth.allows(from) {
            return Err(TokenError::Unauthorized);
        }
        if amount < 0 {
            return Err(TokenError::InvalidAmount);
        }
        let from_balance = self.ledger.get(from);
        if from_balance < amount {
            return Err(TokenError::InsufficientBalance);
        }
        if to == self.contract_id {
            // Burn is self-service on MDT: the sender's own
            // authorization, already checked, suffices.
            self.ledger.debit_burn(from, amount);
            self.events.push(Event::Burn { from, amount });
        } else {
            self.ledger.move_balance(from, to, amount);
        }
        Ok(())
    }

    /// The stored balance of `address`, or 0 if absent. A public read:
    /// no authorization, no mutation.
    pub fn balance_of(&self, address: Principal) -> (r: i128)
        requires
            self.wf(),
        ensures
            r as int == self.balance(address),
    {
        self.ledger.get(address)
    }

    /// The stored total supply, 0 before any distribution. A public read.
    pub fn total_supply(&self) -> (r: i128)
        ensures
            r as int == self.supply(),
    {
        self.ledger.read_supply()
    }
}

} // verus!
