//! A payments engine: replays an ordered stream of deposits, withdrawals,
//! disputes, resolutions and chargebacks, and keeps per-client balances.
pub mod batch;
pub mod client;
pub mod decimal;
pub mod engine;
pub mod lemmas;
pub mod source;
pub mod transaction;
pub mod types;
