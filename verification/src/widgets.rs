//! Reusable widgets.

pub mod model_selector;
