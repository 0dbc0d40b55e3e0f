//! The topology screens: the ring of devices and the health of one shard.

use vstd::prelude::*;

pub mod ring;
pub mod shard;

use ring::TopologyRingState;
use shard::ShardView;

verus! {

/// Which topology screen is shown.
#[derive(Debug)]
pub enum TopologyView {
    /// The health of the named shard.
    Shard(String, ShardView),
    /// The ring of devices.
    Ring(TopologyRingState),
}

/// What the topology screens remember between frames.
#[derive(Debug)]
pub struct TopologyState {
    /// Selected device index in the ring.
    pub selected_device: usize,
}

impl TopologyState {
    /// Nothing selected yet: the first device.
    pub fn new() -> (s: TopologyState)
        ensures
            s.selected_device == 0,
    {
        TopologyState { selected_device: 0 }
    }
}

} // verus!
