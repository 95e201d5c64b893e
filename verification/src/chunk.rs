//! A chunk: a voxel grid placed in the world, with rebuild bookkeeping.

use vstd::prelude::*;
use crate::coords::ChunkCoordinate;
use crate::grid::VoxelGrid;

verus! {

/// One fixed-size block of the voxel world.
///
/// `current_mesh` is either absent or the handle of the render mesh built
/// from the grid's state as of the last completed rebuild; `dirty` marks
/// the mesh as stale relative to the voxel data.
pub struct Chunk {
    pub position: ChunkCoordinate,
    pub voxels: VoxelGrid,
    pub dirty: bool,
    pub current_mesh: Option<u64>,
}

impl Chunk {
    pub open spec fn wf(self) -> bool {
        self.voxels.wf()
    }

    /// The state a rebuild leaves untouched: placement and voxel data.
    pub open spec fn same_content(self, other: Chunk) -> bool {
        &&& self.position == other.position
        &&& self.voxels.same_voxels(other.voxels)
    }
}

} // verus!
