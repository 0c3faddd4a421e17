//! A time-partitioned, resumable bulk-harvesting engine: the planning,
//! pagination, retry, scheduling, merging and grouping rules, each with a
//! machine-checked contract.

pub mod aggregator;
pub mod calendar;
pub mod combiner;
pub mod coordinator;
pub mod fetcher;
pub mod json;
pub mod planner;
pub mod retry;
pub mod sanitize;
pub mod stats;
pub mod text;
