//! Coordination of threshold (m-of-n) signatures over spends from shared
//! wallets: a registry of wallets, a ledger of signatures per proposal, the
//! proposal state machine and a log of finalized spends.

pub mod error;
pub mod models;
pub mod api;
pub mod store;
pub mod coordinator;
mod ids;
pub mod laws;
pub mod query;
pub mod config;
pub mod order;
