//! Multi-backend replication and incremental ingestion for time-bucketed
//! metric snapshots ("intervals").
//!
//! The library fans a batch of intervals out to several storage backends with
//! per-store deduplication on the natural key `(start_time, end_time)`, serves
//! paginated, filtered and sorted reads back out, and drives an incremental
//! fetch cursor over an upstream history API.

pub mod adapters;
pub mod codec;
pub mod coordinator;
pub mod cursor;
pub mod fetch;
pub mod history;
pub mod ingest;
pub mod interval;
pub mod levelstore;
pub mod memstore;
pub mod metrics;
pub mod store;
pub mod text;

pub use interval::Interval;
