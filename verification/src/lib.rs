//! A procedural voxel-world core with an incremental mesh-rebuild
//! pipeline, verified with Verus.
//!
//! The world is partitioned into fixed-size chunks ([`chunk::Chunk`]),
//! each owning a dense grid of per-cell voxel state
//! ([`grid::VoxelGrid`]). [`generator`] populates new chunks,
//! [`world::WorldIndex`] owns them keyed by coordinate, [`mesher`]
//! turns a chunk's grid into renderable geometry (one cube instance per
//! solid voxel), and [`scheduler`] rebuilds every dirty chunk each
//! tick, swapping the chunk's mesh resource in [`pool::MeshPool`] and
//! clearing the dirty flag.

pub mod chunk;
pub mod coords;
pub mod generator;
pub mod grid;
pub mod mesher;
pub mod pool;
pub mod scheduler;
pub mod world;
