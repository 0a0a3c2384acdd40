//! A toy transactions processing engine: fixed-point amounts, per-client
//! accounts with a dispute lifecycle, and the ledger that routes records.

pub mod account;
pub mod cents;
pub mod client;
pub mod digits;
pub mod engine;
pub mod err;
pub mod text;
pub mod transaction;
