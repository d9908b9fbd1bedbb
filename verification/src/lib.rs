//! Rolling-window block-production metrics.
//!
//! Each monitored network owns a [`block_metrics::BlockMetricsBuffer`], a
//! 60-second sliding window of block records with running totals for gas,
//! transaction count and byte size. The window produces point-in-time rate
//! snapshots whose divisor is the wall-clock age of the oldest retained
//! record, so reported rates decay while no new blocks arrive.
//!
//! The polling driver's decisions — which block numbers to fetch next, how
//! the cursor advances on failure, and how a fetched batch is ordered,
//! validated and ingested — live in [`block_streamer`].

pub mod block_metrics;
pub mod block_streamer;
pub mod networks;
pub mod types;
