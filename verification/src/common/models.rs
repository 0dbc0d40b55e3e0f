use vstd::prelude::*;

verus! {

/// A model the API can serve.
#[derive(Debug)]
pub struct ModelInfo {
    /// Creation timestamp.
    pub created: u128,
    /// Repository id, from which the model is loaded.
    pub id: String,
    /// The object type, usually "model".
    pub object: String,
    /// The owner of the model, usually `local`.
    pub owned_by: String,
}

} // verus!
