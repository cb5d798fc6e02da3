//! Per-IP transaction fee statistics for a validator, with the rules that
//! decide which senders to block.
pub mod lru_model;
pub mod stats;
pub mod caches;
pub mod schedule;
pub mod blocklist;
pub mod state;
pub mod clock;
pub mod timers;
