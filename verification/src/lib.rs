//! A personal debt ledger: signed transactions against per-counterparty
//! running balances, with balance/history queries.
//!
//! The engine keeps the full ledger state in memory; a caller persists it
//! through whatever store it likes, reloading via [`ledger::Ledger::load`],
//! which re-checks every structural invariant before accepting the data.

pub mod clock;
pub mod domain;
pub mod ledger;
pub mod order;
