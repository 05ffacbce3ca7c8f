//! A minimal keyed event log: each `u64` key owns one record, stored at a
//! deterministically derived address, created exactly once and grown only by
//! bounded appends.

pub mod errors;
pub mod locator;
pub mod record;
pub mod store;
pub mod laws;
