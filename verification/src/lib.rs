//! Yearly stream-analytics engine: fetch-merge pagination, snapshot
//! computation (totals, ratios, streak/gap analysis) and a TTL cache of
//! computed snapshots, all with verified contracts.

pub mod data_actor;
pub mod datetime;
pub mod error;
pub mod model;
pub mod streamcounter;
pub mod sullygnome;
