//! Incremental indexing engine for a directory tree of markdown files whose
//! metadata is governed by hierarchically scoped schemas.
//!
//! The crate holds the verified core: the path model, the schema store with
//! nearest-ancestor resolution, the index store mirroring files and folders,
//! front-matter handling, the event-interpretation engine, the directory
//! scanner and the rate-limiting change notifier.

pub mod engine;
pub mod errors;
pub mod events;
pub mod files;
pub mod index;
pub mod metadata;
pub mod notifier;
pub mod paths;
pub mod records;
pub mod schema;
pub mod schema_store;
