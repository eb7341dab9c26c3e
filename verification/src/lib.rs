//! A change-detection cache for artifacts fetched from remote sources,
//! with the pipeline that feeds it: per-key identity tokens decide whether
//! a fetch is needed, a durable index remembers what is materialized on
//! disk, stale entries are evicted once a run has touched its keys, and a
//! destination directory is reconciled against the run's results without
//! disturbing files the cache never placed there.

pub mod cache;
pub mod config;
pub mod executor;
pub mod github;
pub mod http;
pub mod index;
pub mod modrinth;
pub mod path;
pub mod source;
pub mod status;
pub mod sync;
pub mod text;
pub mod token;
pub mod transform;
