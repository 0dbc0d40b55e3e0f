use vstd::prelude::*;

use crate::config::KVBits;
use super::devices::DeviceProperties;

pub use super::models::ModelInfo;

verus! {

/// The current distribution of a model over the devices.
#[derive(Debug)]
pub struct TopologyInfo {
    /// The loaded model; `None` once it has been unloaded.
    pub model: Option<String>,
    /// Number of layers in the model.
    pub num_layers: u32,
    /// The shards of the topology.
    pub devices: Vec<DeviceProperties>,
    /// Which layers each instance holds.
    pub assignments: Vec<AssignmentInfo>,
    /// Cache precision.
    pub kv_bits: KVBits,
}

/// The layers held by one instance, in rounds, and the instance after it.
#[derive(Debug)]
pub struct AssignmentInfo {
    pub instance: String,
    pub layers: Vec<Vec<u32>>,
    pub next_instance: String,
    pub window_size: u32,
    pub residency_size: u32,
}

} // verus!
