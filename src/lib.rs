//! Mission lifecycle and report engine of a personal time tracker.
//!
//! Timestamps are whole milliseconds since the Unix epoch (UTC).
mod rfc3339;

pub mod mission;
pub mod store;
pub mod report;
