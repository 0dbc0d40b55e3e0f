//! Developer tools: manual assignment of model layers to shards.

pub mod assignments;
pub mod manual;
pub mod menu;
pub mod submit;
pub mod utils;
