//! Search backend for archived log blocks: blocks are decoded from packed
//! capnp messages, spread over a fixed pool of shards, and scanned for
//! entries whose facet matches a literal or a regular expression.

pub mod matcher;
pub mod decimal;
pub mod block;
pub mod stats;
pub mod shard;
pub mod manager;
pub mod config;
pub mod processor;
pub mod splunk_server;
