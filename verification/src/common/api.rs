use vstd::prelude::*;

verus! {

/// The answer to a request to load a model.
#[derive(Debug)]
pub struct LoadModelResponse {
    /// Model name.
    pub model: String,
    /// Whether all shards loaded successfully.
    pub success: bool,
    /// Status of each shard.
    pub shard_statuses: Vec<ShardLoadStatus>,
    /// Overall status or error message.
    pub message: Option<String>,
}

/// How loading went on one shard.
#[derive(Debug)]
pub struct ShardLoadStatus {
    /// Shard name.
    pub instance: String,
    /// Whether loading succeeded.
    pub success: bool,
    /// Layers loaded.
    pub layers_loaded: Option<Vec<u32>>,
    /// Status or error message.
    pub message: Option<String>,
}

/// What to make of the reply to a topology request.
#[derive(Debug, Clone, Copy, PartialEq, Eq, Structural)]
pub enum TopologyReply {
    /// The body is the topology.
    Topology,
    /// No topology has been set up (the API answers 400).
    NoTopology,
    /// The request failed.
    Failure,
}

/// What to make of a topology reply with status `status` (`success` when it is a 2xx code).
pub fn topology_reply(status: u16, success: bool) -> (r: TopologyReply)
    ensures
        r == (if success {
            TopologyReply::Topology
        } else if status == 400 {
            TopologyReply::NoTopology
        } else {
            TopologyReply::Failure
        }),
{
    if success {
        TopologyReply::Topology
    } else if status == 400 {
        TopologyReply::NoTopology
    } else {
        TopologyReply::Failure
    }
}

} // verus!
