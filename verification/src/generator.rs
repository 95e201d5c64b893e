//! World generation: populating fresh chunks with voxel state.
//!
//! Current scope assigns solidity by an unseeded per-cell coin flip, so
//! nothing can be stated about the values drawn; every consumer of a
//! generated chunk is verified for every possible solidity pattern.

use vstd::prelude::*;
use crate::chunk::Chunk;
use crate::coords::{ChunkCoordinate, VoxelCoordinate};
use crate::grid::{ChunkSettings, Voxel, VoxelGrid};
use crate::world::WorldIndex;

verus! {

/// What generation establishes for every new chunk: a well-formed grid
/// of the configured dimensions, flagged for its first rebuild, with no
/// mesh resource yet.
pub open spec fn fresh_chunk(chunk: Chunk, settings: ChunkSettings) -> bool {
    &&& chunk.wf()
    &&& chunk.voxels.matches_settings(settings)
    &&& chunk.dirty
    &&& chunk.current_mesh is None
}

/// Whether a chunk coordinate lies in the generated extent.
pub open spec fn in_extent(c: ChunkCoordinate, ex: int, ey: int, ez: int) -> bool {
    &&& 0 <= c.x && (c.x as int) < ex
    &&& 0 <= c.y && (c.y as int) < ey
    &&& 0 <= c.z && (c.z as int) < ez
}

/// Row-major generation order: whether `c` was visited before `(x, y, z)`.
spec fn lex_before(c: ChunkCoordinate, x: int, y: int, z: int) -> bool {
    ||| (c.x as int) < x
    ||| (c.x as int == x && (c.y as int) < y)
    ||| (c.x as int == x && c.y as int == y && (c.z as int) < z)
}

/// Relies on `rand::random::<bool>`: one coin flip from the thread-local
/// generator. The draw depends on generator state, so nothing is promised
/// of the value.
#[verifier::external_body]
fn random_solid() -> bool {
    rand::random()
}

/// Fill a fresh grid of the requested dimensions with one random voxel
/// per cell. The chunk starts at the origin, dirty and meshless; the
/// caller places it.
pub fn generate_chunk_data(settings: &ChunkSettings) -> (chunk: Chunk)
    requires
        settings.wf(),
    ensures
        fresh_chunk(chunk, *settings),
        chunk.position == (ChunkCoordinate { x: 0, y: 0, z: 0 }),
{
    let mut voxels = VoxelGrid::new(settings);
    let mut x: i32 = 0;
    while x < settings.width
        invariant
            0 <= x <= settings.width,
            settings.wf(),
            voxels.wf(),
            voxels.matches_settings(*settings),
        decreases settings.width - x,
    {
        let mut y: i32 = 0;
        while y < settings.height
            invariant
                0 <= x < settings.width,
                0 <= y <= settings.height,
                settings.wf(),
                voxels.wf(),
                voxels.matches_settings(*settings),
            decreases settings.height - y,
        {
            let mut z: i32 = 0;
            while z < settings.depth
                invariant
                    0 <= x < settings.width,
                    0 <= y < settings.height,
                    0 <= z <= settings.depth,
                    settings.wf(),
                    voxels.wf(),
                    voxels.matches_settings(*settings),
                decreases settings.depth - z,
            {
                let solid = random_solid();
                voxels.set_voxel(
                    VoxelCoordinate { x, y, z },
                    Voxel { is_solid: solid },
                );
                z = z + 1;
            }
            y = y + 1;
        }
        x = x + 1;
    }
    Chunk {
        position: ChunkCoordinate { x: 0, y: 0, z: 0 },
        voxels,
        dirty: true,
        current_mesh: None,
    }
}

/// Generate one chunk at the given coordinate: a populated grid, marked
/// dirty so the next scheduling tick builds its first mesh.
pub fn generate(coordinate: ChunkCoordinate, settings: &ChunkSettings) -> (chunk: Chunk)
    requires
        settings.wf(),
    ensures
        fresh_chunk(chunk, *settings),
        chunk.position == coordinate,
{
    let mut chunk = generate_chunk_data(settings);
    chunk.position = coordinate;
    chunk
}

/// World bootstrap: generate one chunk for every coordinate of the
/// extent and insert each into a fresh index, keyed by its coordinate.
/// Generation visits each coordinate exactly once, so no insertion can
/// hit a duplicate.
pub fn generate_world(
    extent_x: i32, extent_y: i32, extent_z: i32, settings: &ChunkSettings)
    -> (world: WorldIndex)
    requires
        settings.wf(),
        0 < extent_x,
        0 < extent_y,
        0 < extent_z,
    ensures
        world.wf(),
        world.chunks@.len()
            == (extent_x as int) * (extent_y as int) * (extent_z as int),
        forall|c: ChunkCoordinate| world.contains_coordinate(c)
            <==> in_extent(c, extent_x as int, extent_y as int, extent_z as int),
        forall|i: int| 0 <= i < world.chunks@.len()
            ==> fresh_chunk(#[trigger] world.chunks@[i], *settings),
        forall|c: ChunkCoordinate|
            in_extent(c, extent_x as int, extent_y as int, extent_z as int)
                ==> (#[trigger] world.chunk_at(c)).position == c,
{
    let ghost ex = extent_x as int;
    let ghost ey = extent_y as int;
    let ghost ez = extent_z as int;
    let mut world = WorldIndex::new();
    let mut x: i32 = 0;
    while x < extent_x
        invariant
            settings.wf(),
            0 < extent_x && 0 < extent_y && 0 < extent_z,
            ex == extent_x as int && ey == extent_y as int && ez == extent_z as int,
            0 <= x <= extent_x,
            world.wf(),
            world.chunks@.len() == (x as int) * ey * ez,
            forall|c: ChunkCoordinate| world.contains_coordinate(c)
                <==> (in_extent(c, ex, ey, ez) && lex_before(c, x as int, 0, 0)),
            forall|i: int| 0 <= i < world.chunks@.len()
                ==> fresh_chunk(#[trigger] world.chunks@[i], *settings),
        decreases extent_x - x,
    {
        let mut y: i32 = 0;
        assert((x as int) * ey * ez == ((x as int) * ey + 0) * ez + 0) by (nonlinear_arith);
        while y < extent_y
            invariant
                settings.wf(),
                0 < extent_x && 0 < extent_y && 0 < extent_z,
                ex == extent_x as int && ey == extent_y as int && ez == extent_z as int,
                0 <= x < extent_x,
                0 <= y <= extent_y,
                world.wf(),
                world.chunks@.len() == ((x as int) * ey + y as int) * ez,
                forall|c: ChunkCoordinate| world.contains_coordinate(c)
                    <==> (in_extent(c, ex, ey, ez) && lex_before(c, x as int, y as int, 0)),
                forall|i: int| 0 <= i < world.chunks@.len()
                    ==> fresh_chunk(#[trigger] world.chunks@[i], *settings),
            decreases extent_y - y,
        {
            let mut z: i32 = 0;
            while z < extent_z
                invariant
                    settings.wf(),
                    0 < extent_x && 0 < extent_y && 0 < extent_z,
                    ex == extent_x as int && ey == extent_y as int && ez == extent_z as int,
                    0 <= x < extent_x,
                    0 <= y < extent_y,
                    0 <= z <= extent_z,
                    world.wf(),
                    world.chunks@.len() == ((x as int) * ey + y as int) * ez + z as int,
                    forall|c: ChunkCoordinate| world.contains_coordinate(c)
                        <==> (in_extent(c, ex, ey, ez)
                            && lex_before(c, x as int, y as int, z as int)),
                    forall|i: int| 0 <= i < world.chunks@.len()
                        ==> fresh_chunk(#[trigger] world.chunks@[i], *settings),
                decreases extent_z - z,
            {
                let coordinate = ChunkCoordinate { x, y, z };
                let chunk = generate(coordinate, settings);
                let ghost w0 = world;
                assert(!world.contains_coordinate(coordinate));
                let inserted = world.insert(chunk);
                proof {
                    assert(inserted is Ok);
                    WorldIndex::lemma_contains_after_push(w0, world, chunk);
                    assert forall|c: ChunkCoordinate| world.contains_coordinate(c)
                        <==> (in_extent(c, ex, ey, ez)
                            && lex_before(c, x as int, y as int, z as int + 1)) by {
                        if c == coordinate {
                            assert(in_extent(c, ex, ey, ez));
                        }
                    }
                    assert forall|i: int| 0 <= i < world.chunks@.len()
                        implies fresh_chunk(#[trigger] world.chunks@[i], *settings) by {
                        if i < w0.chunks@.len() {
                            assert(world.chunks@[i] == w0.chunks@[i]);
                        } else {
                            assert(world.chunks@[i] == chunk);
                        }
                    }
                }
                z = z + 1;
            }
            proof {
                assert(((x as int) * ey + y as int) * ez + ez
                    == ((x as int) * ey + (y as int + 1)) * ez) by (nonlinear_arith);
                assert forall|c: ChunkCoordinate| world.contains_coordinate(c)
                    <==> (in_extent(c, ex, ey, ez)
                        && lex_before(c, x as int, y as int + 1, 0)) by {}
            }
            y = y + 1;
        }
        proof {
            assert(((x as int) * ey + ey) * ez == ((x as int + 1) * ey) * ez)
                by (nonlinear_arith);
            assert(((x as int + 1) * ey) * ez == (x as int + 1) * ey * ez)
                by (nonlinear_arith);
            assert forall|c: ChunkCoordinate| world.contains_coordinate(c)
                <==> (in_extent(c, ex, ey, ez)
                    && lex_before(c, x as int + 1, 0, 0)) by {}
        }
        x = x + 1;
    }
    proof {
        assert forall|c: ChunkCoordinate| world.contains_coordinate(c)
            <==> in_extent(c, ex, ey, ez) by {}
        assert forall|c: ChunkCoordinate|
            in_extent(c, ex, ey, ez)
                implies (#[trigger] world.chunk_at(c)).position == c by {
            assert(world.contains_coordinate(c));
            let k = world.slot_of(c);
            assert(0 <= k < world.chunks@.len() && world.chunks@[k].position == c);
        }
    }
    world
}

} // verus!
