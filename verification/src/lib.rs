//! Outbound SMTP delivery engine: a queue of messages is drained by delivery
//! attempts that resolve mail exchanges, apply throttles, drive the SMTP
//! client dialogue and fold the results into per-domain and per-recipient
//! statuses with retry scheduling.
//!
//! All network, DNS and clock work happens outside this crate; the types here
//! speak of instants and durations as plain milliseconds.

pub mod codec;
pub mod config;
pub mod delivery;
pub mod host;
pub mod limiter;
pub mod message;
pub mod planner;
pub mod queue;
pub mod rcpt;
pub mod random;
pub mod status;
