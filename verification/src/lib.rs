//! An in-memory ledger of named wallets: balance records carrying a unique
//! id, two free-form text labels and a non-negative balance in integer
//! units, with create, list, find, deposit, withdraw and delete operations.

pub mod registry;
pub mod wallet;
