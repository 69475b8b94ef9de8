//! Verified core of a stake rebalancer: it classifies validators by block
//! production over an accounting period, applies risk policies (commission
//! ceiling, software staleness, infrastructure concentration), decides each
//! validator's desired stake, and turns those decisions into an allocation
//! plan. Ledger queries, persistence and submission live with the caller.

pub mod allocation;
pub mod cache;
pub mod classifier;
pub mod config;
pub mod decision;
pub mod identity;
pub mod policy;
pub mod registry;
pub mod release;
pub mod submission;
pub mod text;
