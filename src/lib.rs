//! Lag-buffered ingestion of produced blocks into a sequentially numbered
//! append-only log, and the read queries served over that log.

pub mod day;
pub mod decimal;
pub mod fault;
pub mod ingest;
pub mod lag;
pub mod query;
pub mod store;
