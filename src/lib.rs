//! Catalog discovery, statement batching and result shaping for a SQL
//! request service over a directory of parquet files.
//!
//! The query engine and the file system stay outside this crate: the library
//! decides which tables a directory listing yields, which statement runs next
//! and what a batch of formatted rows becomes in the response.
pub mod names;
pub mod catalog;
pub mod pipeline;
pub mod encode;
pub mod request;
