//! Adaptive terrain meshes from square heightmaps, built with the
//! right-triangulated irregular network (RTIN) scheme.

pub mod rtin;
pub mod heightmap;
pub mod terrain_rtin;
pub mod selection_laws;
pub mod mesh;
pub mod mesh_laws;
pub mod midpoint_laws;
pub mod error_map_laws;
