//! Two linked token ledgers sharing one accounting core.
//!
//! The base token (CWT) supports admin-gated minting, peer-to-peer
//! transfer, and burning by transfer to the contract's own identity.
//! The derived token (MDT) is issued by a proportional distribution
//! that reads CWT balances and truncates each share downward.
//!
//! The host that persists state, checks signatures and routes
//! cross-contract calls is modelled explicitly: balances live in a
//! [`ledger::Ledger`] value, authorization arrives as an
//! [`auth::AuthContext`], and MDT's read of CWT state is a borrowed
//! [`cwt::CWTContract`].

#![verifier::loop_isolation(false)]

pub mod auth;
pub mod cwt;
pub mod ledger;
pub mod mdt;
pub mod muldiv;
pub mod types;
