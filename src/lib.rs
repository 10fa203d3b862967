//! A sparse, chunked voxel world: coordinate transforms, dense chunk
//! storage, terrain columns, the chunk cache format, the genesis commands
//! that report which chunks became stale, and per-voxel face occlusion.
pub mod voxel;
pub mod occlusion;
pub mod chunk;
pub mod world;
pub mod genesis;
pub mod cache;
pub mod terrain;
