//! A voxel-terrain core: a dense chunk of one-byte voxels, a deterministic
//! sinusoidal heightfield that fills it, a surface mesher that turns it into
//! quad geometry with per-face visibility culling, and a world builder that
//! walks a lattice of chunks and collects the non-empty meshes.

pub mod voxel;
pub mod world;
pub mod heightfield;
pub mod meshing;
pub mod compose;
