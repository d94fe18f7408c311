//! Greedy meshing of a dense voxel volume into merged, shaded quads.
//!
//! - `catalog`: block and facet tables.
//! - `volume`: the voxel grid and the error type.
//! - `classify`: face visibility, ambient occlusion and mask codes.
//! - `merge`: the greedy rectangle merge over one mask plane.
//! - `mesher`: the three-axis sweep that fills and merges every plane.
//! - `emit`: vertex buffers for merged quads.
//! - `context`: a meshing session and its entry points.
//! - `laws`: properties of the mesh proved over the definitions above.
pub mod catalog;
pub mod volume;
pub mod classify;
pub mod merge;
pub mod mesher;
pub mod emit;
pub mod context;
pub mod laws;
