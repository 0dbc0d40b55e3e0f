//! The screens of the client, one module each.

pub mod chat;
pub mod developer;
pub mod devices;
pub mod menu;
pub mod model;
pub mod settings;
pub mod topology;
