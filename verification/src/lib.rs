//! A replay engine for per-client payment ledgers.
//!
//! An ordered stream of deposits, withdrawals, disputes, resolves and
//! chargebacks is applied, one transaction at a time, to a store of client
//! balance records and a log of accepted transactions.  Every transition
//! rule is verified against a single specification-level step function, and
//! the ledger invariants (`total == available + held`, log/dispute
//! bookkeeping) are proved to be preserved by every step.

pub mod client;
pub mod client_database;
pub mod payments_engine;
pub mod properties;
pub mod tx;
pub mod tx_database;
