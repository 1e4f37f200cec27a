//! Scene-graph bookkeeping for a 2D physics testbed: decomposes body shapes
//! into drawable nodes, keeps a stable color per body, and plans each frame.
use vstd::prelude::*;

pub mod shape;
pub mod scene;
pub mod graphics;
pub mod laws;
mod rng;

verus! {

} // verus!
