//! A per-card balance ledger: an append-only log of reported balances, the
//! running state derived from it, and the cached read path in front of both.

pub mod balance;
pub mod cache;
pub mod card;
pub mod color;
pub mod error;
pub mod event_log;
pub mod ids;
pub mod ledger;
pub mod models;
pub mod timestamp;
pub mod unit;
pub mod wire;
