//! The base token (CWT): admin-gated mint, peer-to-peer transfer, and
//! admin-gated burn by transfer to the contract's own identity.

use vstd::prelude::*;

use crate::auth::AuthContext;
use crate::ledger::Ledger;
use crate::types::{Event, Principal, TokenError};

verus! {

/// One CWT ledger instance: its own address, its admin, its balance
/// book with the supply counter, and the events it has published.
pub struct CWTContract {
    pub contract_id: Principal,
    pub admin: Principal,
    pub ledger: Ledger,
    pub events: Vec<Event>,
}

impl CWTContract {
    /// The ledger's conservation invariant, carried by every operation.
    pub open spec fn wf(self) -> bool {
        self.ledger.wf()
    }

    /// The balance of `p`, 0 when untouched.
    pub open spec fn balance(self, p: Principal) -> int {
        self.ledger.balance(p)
    }

    /// The total supply.
    pub open spec fn supply(self) -> int {
        self.ledger.supply()
    }

    /// Creates the ledger instance: stores the admin principal beside
    /// the address the instance answers to. Run exactly once, before
    /// any other operation; the admin is immutable thereafter.
    pub fn initialize(contract_id: Principal, sac: Principal) -> (r: CWTContract)
        ensures
            r.wf(),
            r.contract_id == contract_id,
            r.admin == sac,
            r.supply() == 0,
            forall|p: Principal| r.balance(p) == 0,
            r.events@.len() == 0,
    {
        CWTContract { contract_id, admin: sac, ledger: Ledger::new(), events: Vec::new() }
    }

    /// Admin-only creation of new balance and supply. Exactly when the
    /// admin authorized the call and the amount is positive, `to` is
    /// credited, the supply grows by the same amount, and a mint event
    /// is published; otherwise nothing changes.
    pub fn mint(&mut self, auth: &AuthContext, to: Principal, amount: i128) -> (r: Result<
        (),
        TokenError,
    >)
        requires
            old(self).wf(),
            auth@.contains(old(self).admin) && amount > 0 ==> old(self).supply() + amount
                <= i128::MAX,
        ensures
            final(self).wf(),
            final(self).contract_id == old(self).contract_id,
            final(self).admin == old(self).admin,
            !auth@.contains(old(self).admin) ==> r == Err::<(), TokenError>(
                TokenError::Unauthorized,
            ) && *final(self) == *old(self),
            auth@.contains(old(self).admin) && amount <= 0 ==> r == Err::<(), TokenError>(
                TokenError::InvalidAmount,
            ) && *final(self) == *old(self),
            auth@.contains(old(self).admin) && amount > 0 ==> {
                &&& r == Ok::<(), TokenError>(())
                &&& final(self).balance(to) == old(self).balance(to) + amount
                &&& forall|q: Principal|
                    q != to ==> final(self).balance(q) == old(self).balance(q)
                &&& final(self).supply() == old(self).supply() + amount
                &&& final(self).events@ == old(self).events@.push(
                    Event::Mint { to, amount },
                )
            },
    {
        if !auth.allows(self.admin) {
            return Err(TokenError::Unauthorized);
        }
        if amount <= 0 {
            return Err(TokenError::InvalidAmount);
        }
        self.ledger.credit(to, amount);
        self.events.push(Event::Mint { to, amount });
        Ok(())
    }

    /// Moves `amount` from `from` to `to`, gated on `from`'s own
    /// authorization. A transfer to the contract's own identity is a
    /// burn: it additionally needs the admin's sign-off, debits `from`,
    /// shrinks the supply, and publishes a burn event. An ordinary
    /// transfer leaves the supply untouched and publishes nothing.
    /// Every refusal leaves the ledger exactly as it was.
    pub fn transfer(
        &mut self,
        auth: &AuthContext,
        from: Principal,
        to: Principal,
        amount: i128,
    ) -> (r: Result<(), TokenError>)
        requires
            old(self).wf(),
        ensures
            final(self).wf(),
            final(self).contract_id == old(self).contract_id,
            final(self).admin == old(self).admin,
            !auth@.contains(from) ==> r == Err::<(), TokenError>(TokenError::Unauthorized)
                && *final(self) == *old(self),
            auth@.contains(from) && amount < 0 ==> r == Err::<(), TokenError>(
                TokenError::InvalidAmount,
            ) && *final(self) == *old(self),
            auth@.contains(from) && amount >= 0 && old(self).balance(from) < amount ==> r
                == Err::<(), TokenError>(TokenError::InsufficientBalance) && *final(self)
                == *old(self),
            auth@.contains(from) && amount >= 0 && old(self).balance(from) >= amount && to
                == old(self).contract_id && !auth@.contains(old(self).admin) ==> r == Err::<
                (),
                TokenError,
            >(TokenError::Unauthorized) && *final(self) == *old(self),
            auth@.contains(from) && amount >= 0 && old(self).balance(from) >= amount && to
                == old(self).contract_id && auth@.contains(old(self).admin) ==> {
                &&& r == Ok::<(), TokenError>(())
                &&& final(self).balance(from) == old(self).balance(from) - amount
                &&& forall|q: Principal|
                    q != from ==> final(self).balance(q) == old(self).balance(q)
                &&& final(self).supply() == old(self).supply() - amount
                &&& final(self).events@ == old(self).events@.push(
                    Event::Burn { from, amount },
                )
            },
            auth@.contains(from) && amount >= 0 && old(self).balance(from) >= amount && to
                != old(self).contract_id ==> {
                &&& r == Ok::<(), TokenError>(())
                &&& forall|q: Principal|
                    final(self).balance(q) == old(self).balance(q) + (if q == to {
                        amount as int
                    } else {
                        0
                    }) - (if q == from {
                        amount as int
                    } else {
                        0
                    })
                &&& final(self).supply() == old(self).supply()
                &&& final(self).events@ == old(self).events@
            },
    {
        if !auth.allows(from) {
            return Err(TokenError::Unauthorized);
        }
        if amount < 0 {
            return Err(TokenError::InvalidAmount);
        }
        let from_balance = self.ledger.get(from);
        if from_balance < amount {
            return Err(TokenError::InsufficientBalance);
        }
        if to == self.contract_id {
            // Only the admin may burn tokens.
            if !auth.allows(self.admin) {
                return Err(TokenError::Unauthorized);
            }
            self.ledger.debit_burn(from, amount);
            self.events.push(Event::Burn { from, amount });
        } else {
            self.ledger.move_balance(from, to, amount);
        }
        Ok(())
    }

    /// The stored balance of `address`, or 0 if absent. A public read:
    /// no authorization, no mutation.
    pub fn bal_of(&self, address: Principal) -> (r: i128)
        requires
            self.wf(),
        ensures
            r as int == self.balance(address),
    {
        self.ledger.get(address)
    }

    /// The stored total supply, 0 before any mint. A public read.
    pub fn tot_sup(&self) -> (r: i128)
        ensures
            r as int == self.supply(),
    {
        self.ledger.read_supply()
    }
}

} // verus!
