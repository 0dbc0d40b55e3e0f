//! Data exchanged with the cluster's API and shards.

pub mod api;
pub mod devices;
pub mod models;
pub mod shard;
pub mod topology;
