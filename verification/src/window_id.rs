//! The identity of one scheduling unit: which layer, which output
//! tile, which input tile.

use vstd::prelude::*;

verus! {

/// Names a task and orders tasks within a layer.
#[derive(Debug, Clone, Copy, PartialEq, Eq, Hash, Structural)]
pub struct WindowId {
    pub output_id: usize,
    pub input_id: usize,
    pub layer_id: usize,
}

impl WindowId {
    pub fn new(output_id: usize, input_id: usize, layer_id: usize) -> (r: Self)
        ensures
            r.output_id == output_id,
            r.input_id == input_id,
            r.layer_id == layer_id,
    {
        WindowId { output_id, input_id, layer_id }
    }
}

} // verus!
