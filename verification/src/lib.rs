//! Verified core of the Shade payment protocol contracts: token acceptance and
//! fee administration, merchant and token analytics, event ticket sales, the
//! ticketing-contract factory and the data model of merchant accounts.
//!
//! Ledger storage, authorization, event publication and cross-contract calls
//! live in the contract host; this crate holds the decisions those calls
//! make, as state transitions over plain values.

pub mod account;
pub mod account_factory;
pub mod admin;
pub mod analytics;
pub mod deploy;
pub mod errors;
pub mod event;
pub mod factory;
pub mod host_vec;
pub mod laws;
pub mod state;
pub mod types;
