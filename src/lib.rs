//! Accounting core of a fungible-token ledger: balances, total supply,
//! allowances, and the owner, pause and reentrancy flags that guard them.
//!
//! Every operation takes the ledger by `&mut`, keeps it well formed (unique
//! table keys, total supply equal to the sum of all balances), and either
//! succeeds with its stated effect or fails leaving the ledger unchanged.
pub mod access;
pub mod allowance;
pub mod amount;
pub mod contract;
pub mod laws;
pub mod ledger;
pub mod state;
