//! Tile store for a partitioned map dataset: the binary geometry encoding,
//! the tag dictionary, the tile schema, batched ingestion and coordinate
//! lookups, each with a machine-checked contract.

pub mod codec;
pub mod dataset;
pub mod store;
pub mod ingest;
pub mod tags;
pub mod query;
pub mod errors;
pub mod auth;
