//! Computer State: the logic of a local system-metrics monitor.
//!
//! The library holds the metric catalog, the settings model and its
//! validation, the HTTP network policy, the query planner of the JSON API,
//! the Prometheus exposition format, the assembly of collected samples and
//! the bookkeeping of the sample store and the collection scheduler.

mod text;
pub mod catalog;
pub mod duration;
pub mod policy;
pub mod settings;
pub mod sample;
pub mod exposition;
pub mod collect;
pub mod calendar;
pub mod storage;
pub mod query;
pub mod status;
pub mod scheduler;
