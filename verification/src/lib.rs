//! Core of a query engine that reads geospatial data organized by the H3
//! hierarchical hexagonal cell index from a family of database tables stored
//! at multiple resolutions, some of them compacted.
//!
//! The crate models table names, table families ("tablesets"), the query
//! planner that unions the per-resolution SELECTs, columnar result batches,
//! client-side uncompacting of coarse rows, the sliding-window driver over a
//! tessellated polygon, and the lifecycle of asynchronous result handles.

pub mod cells;
pub mod tables;
pub mod tableset;
pub mod query;
pub mod batch;
pub mod uncompact;
pub mod window;
pub mod handle;
pub mod pool;
pub mod errors;
pub mod text;
