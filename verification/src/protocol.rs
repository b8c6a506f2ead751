use vstd::prelude::*;

verus! {

/// One node's sparse update for one round: the transmitted positions of its
/// gradient vector and the values found there (`values[k]` belongs at
/// `indices[k]`).
pub struct GradientUpdate<V> {
    pub node_id: String,
    pub round_id: u32,
    pub indices: Vec<u32>,
    pub values: Vec<V>,
}

} // verus!
