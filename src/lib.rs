//! A ledger of client accounts driven by a log of transactions: deposits,
//! withdrawals, and the dispute, resolve and chargeback of earlier ones.
//!
//! `ledger` states what each transaction does as a state machine over
//! mathematical values; `engine` is the executable ledger, proved to follow
//! it; `laws` proves properties of that state machine; `ingest` turns raw
//! records into transactions; `money` parses and prints fixed-point amounts.
pub mod account;
pub mod engine;
pub mod ingest;
pub mod laws;
pub mod ledger;
pub mod money;
pub mod transaction;
