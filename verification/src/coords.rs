//! Integer coordinate types for the voxel world.
//!
//! A `VoxelCoordinate` addresses a cell inside one chunk; a
//! `ChunkCoordinate` addresses a chunk in the world-of-chunks grid.

use vstd::prelude::*;

verus! {

/// A local cell position inside a chunk, valid in
/// `[0, width) x [0, height) x [0, depth)`.
#[derive(Clone, Copy, PartialEq, Eq, Structural, Debug)]
pub struct VoxelCoordinate {
    pub x: i32,
    pub y: i32,
    pub z: i32,
}

/// A chunk's position in the world-of-chunks grid; the chunk's
/// world-space origin is this coordinate scaled by the chunk dimensions.
#[derive(Clone, Copy, PartialEq, Eq, Structural, Debug)]
pub struct ChunkCoordinate {
    pub x: i32,
    pub y: i32,
    pub z: i32,
}

impl VoxelCoordinate {
    pub fn new(x: i32, y: i32, z: i32) -> (c: Self)
        ensures
            c.x == x && c.y == y && c.z == z,
    {
        VoxelCoordinate { x, y, z }
    }
}

impl ChunkCoordinate {
    pub fn new(x: i32, y: i32, z: i32) -> (c: Self)
        ensures
            c.x == x && c.y == y && c.z == z,
    {
        ChunkCoordinate { x, y, z }
    }
}

} // verus!
