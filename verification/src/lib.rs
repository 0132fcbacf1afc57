//! A claim-based value-transfer ledger ("linkdrop"): a funder deposits value
//! against a single-use public key; whoever holds the matching private key can
//! later redeem the deposit into an existing account or into a freshly created
//! one. The crate verifies the deposit bookkeeping, the single-use
//! authorization lifecycle, and the compensating rollback that restores funds
//! and credentials when asynchronous account creation fails.

pub mod contract;
pub mod credentials;
pub mod laws;
pub mod ledger;
pub mod types;
