//! A minimal fungible-token ledger: balances for a set of accounts,
//! balance lookup, peer-to-peer transfer, and conservation of the
//! total supply.

pub mod host;
pub mod ledger;
