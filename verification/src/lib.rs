//! Voxel toolbox: voxel trees with power-of-two subdivisions, neighbour
//! contexts, ambient occlusion data, chunked worlds, material atlases and
//! a MagicaVoxel `.vox` reader.

use vstd::prelude::*;

pub mod ambient_occlusion;
pub mod context;
pub mod io;
pub mod material;
pub mod model;
pub mod raycast;
pub mod side;
pub mod triangulate;
pub mod vox;
pub mod voxel;
pub mod world;

verus! {

} // verus!
