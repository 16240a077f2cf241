//! Slipstream: sends Solana transactions straight to the validators that lead the
//! coming slots.
//!
//! The crate holds everything about that which is decided rather than transported.

pub mod addr;
pub mod blocklist;
pub mod cartographer;
pub mod compare;
pub mod config;
pub mod double;
pub mod engine;
pub mod error;
pub mod geyser;
pub mod identity;
pub mod latency;
pub mod metrics;
pub mod monitor;
pub mod pubkey;
pub mod session;
pub mod text;
pub mod transaction;
