//! The authorization capability handed to every mutating entry point.
//!
//! The host decides which principals signed off on the current call;
//! the core only asks whether a given principal is among them. Tests
//! can therefore simulate any caller by listing the principals they
//! pretend have authorized the invocation.

use vstd::prelude::*;

use crate::types::Principal;

verus! {

/// The set of principals that authorized the current invocation.
pub struct AuthContext {
    pub approved: Vec<Principal>,
}

impl View for AuthContext {
    type V = Seq<Principal>;

    open spec fn view(&self) -> Seq<Principal> {
        self.approved@
    }
}

impl AuthContext {
    /// A context in which exactly the listed principals have signed off.
    pub fn new(approved: Vec<Principal>) -> (r: AuthContext)
        ensures
            r@ == approved@,
    {
        AuthContext { approved }
    }

    /// Whether `p` authorized the current call. This is the core's only
    /// question to the host's authorization oracle.
    pub fn allows(&self, p: Principal) -> (r: bool)
        ensures
            r == self@.contains(p),
    {
        let mut i: usize = 0;
        while i < self.approved.len()
            invariant
                0 <= i <= self.approved.len(),
                forall|j: int| 0 <= j < i ==> self.approved@[j] != p,
            decreases self.approved.len() - i,
        {
            if self.approved[i] == p {
                return true;
            }
            i = i + 1;
        }
        false
    }
}

} // verus!
