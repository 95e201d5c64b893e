//! Naive voxel meshing: one cube primitive per solid voxel.
//!
//! The builder walks a chunk's grid in row-major order (`x` outermost,
//! then `y`, then `z`) and emits, for every solid cell, one unit-cube
//! instance at the cell's world position: the chunk coordinate scaled by
//! the chunk dimensions, plus the local coordinate. The emitted sequence
//! is a function of the grid and the chunk position alone, so rebuilding
//! from unchanged voxel data reproduces the geometry exactly.
//!
//! The grid owns every cell directly — there is no per-voxel handle that
//! could dangle — so the builder reads each cell exactly once and never
//! has a missing cell to skip.

use vstd::prelude::*;
use crate::chunk::Chunk;
use crate::coords::ChunkCoordinate;
use crate::grid::VoxelGrid;

verus! {

/// Render material of an emitted cube: green for solid cells, red for
/// air cells (air cells are never emitted, so red is unreachable in the
/// current scope).
#[derive(Clone, Copy, PartialEq, Eq, Structural, Debug)]
pub enum VoxelColor {
    Green,
    Red,
}

/// One unit-cube render instance at an absolute world position.
#[derive(Clone, Copy, PartialEq, Eq, Structural, Debug)]
pub struct CubePrimitive {
    pub x: i64,
    pub y: i64,
    pub z: i64,
    pub color: VoxelColor,
}

/// The geometry built for one chunk: a list of cube instances.
pub struct ChunkMesh {
    pub primitives: Vec<CubePrimitive>,
}

impl View for ChunkMesh {
    type V = Seq<CubePrimitive>;

    open spec fn view(&self) -> Seq<CubePrimitive> {
        self.primitives@
    }
}

pub open spec fn voxel_color_spec(is_solid: bool) -> VoxelColor {
    if is_solid { VoxelColor::Green } else { VoxelColor::Red }
}

/// World-space coordinate of a local cell along one axis.
pub open spec fn world_coordinate(chunk: int, dim: int, local: int) -> int {
    chunk * dim + local
}

/// With an `i32` chunk coordinate, an `i32` dimension and an in-range
/// local coordinate, the world coordinate fits in an `i64`.
pub proof fn lemma_world_coordinate_in_i64(chunk: int, dim: int, local: int)
    requires
        i32::MIN as int <= chunk <= i32::MAX as int,
        0 < dim <= i32::MAX as int,
        0 <= local < dim,
    ensures
        i64::MIN as int <= world_coordinate(chunk, dim, local) <= i64::MAX as int,
{
    assert(i64::MIN as int <= chunk * dim + local <= i64::MAX as int) by (nonlinear_arith)
        requires
            -0x8000_0000 <= chunk <= 0x7fff_ffff,
            0 < dim <= 0x7fff_ffff,
            0 <= local < dim,
    ;
}

/// The cube instance the builder emits for the cell at `(x, y, z)`.
pub open spec fn primitive_at(
    g: VoxelGrid, pos: ChunkCoordinate, x: int, y: int, z: int) -> CubePrimitive {
    CubePrimitive {
        x: world_coordinate(pos.x as int, g.width as int, x) as i64,
        y: world_coordinate(pos.y as int, g.height as int, y) as i64,
        z: world_coordinate(pos.z as int, g.depth as int, z) as i64,
        color: voxel_color_spec(g.solid_at(x, y, z)),
    }
}

/// Distinct in-bounds cells of one chunk yield distinct primitives: the
/// world position determines the local coordinate once the chunk
/// position is fixed.
pub proof fn lemma_primitive_injective(
    g: VoxelGrid, pos: ChunkCoordinate,
    x1: int, y1: int, z1: int, x2: int, y2: int, z2: int)
    requires
        g.wf(),
        g.in_bounds(x1, y1, z1),
        g.in_bounds(x2, y2, z2),
        primitive_at(g, pos, x1, y1, z1) == primitive_at(g, pos, x2, y2, z2),
    ensures
        x1 == x2 && y1 == y2 && z1 == z2,
{
    lemma_world_coordinate_in_i64(pos.x as int, g.width as int, x1);
    lemma_world_coordinate_in_i64(pos.x as int, g.width as int, x2);
    lemma_world_coordinate_in_i64(pos.y as int, g.height as int, y1);
    lemma_world_coordinate_in_i64(pos.y as int, g.height as int, y2);
    lemma_world_coordinate_in_i64(pos.z as int, g.depth as int, z1);
    lemma_world_coordinate_in_i64(pos.z as int, g.depth as int, z2);
}

/// Primitives for the cell at `(x, y, z)`: one if solid, none if air.
pub open spec fn mesh_cell(
    g: VoxelGrid, pos: ChunkCoordinate, x: int, y: int, z: int) -> Seq<CubePrimitive> {
    if g.solid_at(x, y, z) {
        seq![primitive_at(g, pos, x, y, z)]
    } else {
        Seq::empty()
    }
}

/// Primitives for cells `(x, y, c)` with `c < n`, in order of `c`.
pub open spec fn mesh_z(
    g: VoxelGrid, pos: ChunkCoordinate, x: int, y: int, n: int) -> Seq<CubePrimitive>
    decreases n,
{
    if n <= 0 {
        Seq::empty()
    } else {
        mesh_z(g, pos, x, y, n - 1) + mesh_cell(g, pos, x, y, n - 1)
    }
}

/// Primitives for rows `b < n` of slab `x`, each row complete in `z`.
pub open spec fn mesh_y(
    g: VoxelGrid, pos: ChunkCoordinate, x: int, n: int) -> Seq<CubePrimitive>
    decreases n,
{
    if n <= 0 {
        Seq::empty()
    } else {
        mesh_y(g, pos, x, n - 1) + mesh_z(g, pos, x, n - 1, g.depth as int)
    }
}

/// Primitives for slabs `a < n`, each slab complete in `y` and `z`.
pub open spec fn mesh_x(
    g: VoxelGrid, pos: ChunkCoordinate, n: int) -> Seq<CubePrimitive>
    decreases n,
{
    if n <= 0 {
        Seq::empty()
    } else {
        mesh_x(g, pos, n - 1) + mesh_y(g, pos, n - 1, g.height as int)
    }
}

/// The full geometry of a chunk: one cube instance per solid voxel, in
/// row-major cell order.
pub open spec fn chunk_mesh_spec(g: VoxelGrid, pos: ChunkCoordinate) -> Seq<CubePrimitive> {
    mesh_x(g, pos, g.width as int)
}

proof fn lemma_mesh_z_props(g: VoxelGrid, pos: ChunkCoordinate, x: int, y: int, n: int)
    requires
        g.wf(),
        0 <= x < g.width as int,
        0 <= y < g.height as int,
        0 <= n <= g.depth as int,
    ensures
        mesh_z(g, pos, x, y, n).len() == g.solid_count_z(x, y, n),
        forall|z: int| 0 <= z < n && g.solid_at(x, y, z)
            ==> mesh_z(g, pos, x, y, n).contains(#[trigger] primitive_at(g, pos, x, y, z)),
        forall|i: int| 0 <= i < mesh_z(g, pos, x, y, n).len()
            ==> exists|z: int| 0 <= z < n && g.solid_at(x, y, z)
                && #[trigger] mesh_z(g, pos, x, y, n)[i] == primitive_at(g, pos, x, y, z),
        forall|i: int, j: int| 0 <= i < j < mesh_z(g, pos, x, y, n).len()
            ==> mesh_z(g, pos, x, y, n)[i] != mesh_z(g, pos, x, y, n)[j],
    decreases n,
{
    if n <= 0 {
    } else {
        lemma_mesh_z_props(g, pos, x, y, n - 1);
        let s = mesh_z(g, pos, x, y, n - 1);
        let c = mesh_cell(g, pos, x, y, n - 1);
        let m = mesh_z(g, pos, x, y, n);
        assert(m == s + c);
        assert forall|z: int| 0 <= z < n && g.solid_at(x, y, z)
            implies m.contains(#[trigger] primitive_at(g, pos, x, y, z)) by {
            if z < n - 1 {
                let i = choose|i: int| 0 <= i < s.len() && s[i] == primitive_at(g, pos, x, y, z);
                assert(m[i] == primitive_at(g, pos, x, y, z));
            } else {
                assert(m[s.len() as int] == primitive_at(g, pos, x, y, n - 1));
            }
        }
        assert forall|i: int| 0 <= i < m.len()
            implies exists|z: int| 0 <= z < n && g.solid_at(x, y, z)
                && #[trigger] m[i] == primitive_at(g, pos, x, y, z) by {
            if i < s.len() {
                let z = choose|z: int| 0 <= z < n - 1 && g.solid_at(x, y, z)
                    && s[i] == primitive_at(g, pos, x, y, z);
                assert(m[i] == s[i]);
                assert(0 <= z < n && g.solid_at(x, y, z) && m[i] == primitive_at(g, pos, x, y, z));
            } else {
                assert(g.solid_at(x, y, n - 1));
                assert(m[i] == primitive_at(g, pos, x, y, n - 1));
            }
        }
        assert forall|i: int, j: int| 0 <= i < j < m.len()
            implies m[i] != m[j] by {
            if j < s.len() {
                assert(m[i] == s[i] && m[j] == s[j]);
            } else {
                assert(j == s.len() && g.solid_at(x, y, n - 1));
                assert(m[j] == primitive_at(g, pos, x, y, n - 1));
                assert(m[i] == s[i]);
                let z = choose|z: int| 0 <= z < n - 1 && g.solid_at(x, y, z)
                    && s[i] == primitive_at(g, pos, x, y, z);
                if m[i] == m[j] {
                    lemma_primitive_injective(g, pos, x, y, z, x, y, n - 1);
                }
            }
        }
    }
}

proof fn lemma_mesh_y_props(g: VoxelGrid, pos: ChunkCoordinate, x: int, n: int)
    requires
        g.wf(),
        0 <= x < g.width as int,
        0 <= n <= g.height as int,
    ensures
        mesh_y(g, pos, x, n).len() == g.solid_count_y(x, n),
        forall|y: int, z: int|
            0 <= y < n && 0 <= z < g.depth as int && g.solid_at(x, y, z)
            ==> mesh_y(g, pos, x, n).contains(#[trigger] primitive_at(g, pos, x, y, z)),
        forall|i: int| 0 <= i < mesh_y(g, pos, x, n).len()
            ==> exists|y: int, z: int|
                0 <= y < n && 0 <= z < g.depth as int && g.solid_at(x, y, z)
                && #[trigger] mesh_y(g, pos, x, n)[i] == primitive_at(g, pos, x, y, z),
        forall|i: int, j: int| 0 <= i < j < mesh_y(g, pos, x, n).len()
            ==> mesh_y(g, pos, x, n)[i] != mesh_y(g, pos, x, n)[j],
    decreases n,
{
    if n <= 0 {
    } else {
        lemma_mesh_y_props(g, pos, x, n - 1);
        lemma_mesh_z_props(g, pos, x, n - 1, g.depth as int);
        let s = mesh_y(g, pos, x, n - 1);
        let b = mesh_z(g, pos, x, n - 1, g.depth as int);
        let m = mesh_y(g, pos, x, n);
        assert(m == s + b);
        assert forall|y: int, z: int|
            0 <= y < n && 0 <= z < g.depth as int && g.solid_at(x, y, z)
            implies m.contains(#[trigger] primitive_at(g, pos, x, y, z)) by {
            if y < n - 1 {
                let i = choose|i: int| 0 <= i < s.len() && s[i] == primitive_at(g, pos, x, y, z);
                assert(m[i] == primitive_at(g, pos, x, y, z));
            } else {
                assert(b.contains(primitive_at(g, pos, x, n - 1, z)));
                let i = choose|i: int| 0 <= i < b.len() && b[i] == primitive_at(g, pos, x, n - 1, z);
                assert(m[s.len() + i] == primitive_at(g, pos, x, y, z));
            }
        }
        assert forall|i: int| 0 <= i < m.len()
            implies exists|y: int, z: int|
                0 <= y < n && 0 <= z < g.depth as int && g.solid_at(x, y, z)
                && #[trigger] m[i] == primitive_at(g, pos, x, y, z) by {
            if i < s.len() {
                let (y, z) = choose|y: int, z: int|
                    0 <= y < n - 1 && 0 <= z < g.depth as int && g.solid_at(x, y, z)
                    && s[i] == primitive_at(g, pos, x, y, z);
                assert(m[i] == s[i]);
                assert(0 <= y < n && 0 <= z < g.depth as int && g.solid_at(x, y, z)
                    && m[i] == primitive_at(g, pos, x, y, z));
            } else {
                let k = i - s.len();
                let r = n - 1;
                let z = choose|z: int| 0 <= z < g.depth as int && g.solid_at(x, r, z)
                    && b[k] == primitive_at(g, pos, x, r, z);
                assert(m[i] == b[k]);
                assert(0 <= r < n && 0 <= z < g.depth as int && g.solid_at(x, r, z)
                    && m[i] == primitive_at(g, pos, x, r, z));
            }
        }
        assert forall|i: int, j: int| 0 <= i < j < m.len()
            implies m[i] != m[j] by {
            if j < s.len() {
                assert(m[i] == s[i] && m[j] == s[j]);
            } else if i >= s.len() {
                assert(m[i] == b[i - s.len()] && m[j] == b[j - s.len()]);
            } else {
                assert(m[i] == s[i] && m[j] == b[j - s.len()]);
                let (y1, z1) = choose|y1: int, z1: int|
                    0 <= y1 < n - 1 && 0 <= z1 < g.depth as int && g.solid_at(x, y1, z1)
                    && s[i] == primitive_at(g, pos, x, y1, z1);
                let r = n - 1;
                let z2 = choose|z2: int| 0 <= z2 < g.depth as int && g.solid_at(x, r, z2)
                    && b[j - s.len()] == primitive_at(g, pos, x, r, z2);
                if m[i] == m[j] {
                    lemma_primitive_injective(g, pos, x, y1, z1, x, n - 1, z2);
                }
            }
        }
    }
}

proof fn lemma_mesh_x_props(g: VoxelGrid, pos: ChunkCoordinate, n: int)
    requires
        g.wf(),
        0 <= n <= g.width as int,
    ensures
        mesh_x(g, pos, n).len() == g.solid_count_x(n),
        forall|x: int, y: int, z: int|
            0 <= x < n && 0 <= y < g.height as int && 0 <= z < g.depth as int
                && g.solid_at(x, y, z)
            ==> mesh_x(g, pos, n).contains(#[trigger] primitive_at(g, pos, x, y, z)),
        forall|i: int| 0 <= i < mesh_x(g, pos, n).len()
            ==> exists|x: int, y: int, z: int|
                0 <= x < n && 0 <= y < g.height as int && 0 <= z < g.depth as int
                && g.solid_at(x, y, z)
                && #[trigger] mesh_x(g, pos, n)[i] == primitive_at(g, pos, x, y, z),
        forall|i: int, j: int| 0 <= i < j < mesh_x(g, pos, n).len()
            ==> mesh_x(g, pos, n)[i] != mesh_x(g, pos, n)[j],
    decreases n,
{
    if n <= 0 {
    } else {
        lemma_mesh_x_props(g, pos, n - 1);
        lemma_mesh_y_props(g, pos, n - 1, g.height as int);
        let s = mesh_x(g, pos, n - 1);
        let b = mesh_y(g, pos, n - 1, g.height as int);
        let m = mesh_x(g, pos, n);
        assert(m == s + b);
        assert forall|x: int, y: int, z: int|
            0 <= x < n && 0 <= y < g.height as int && 0 <= z < g.depth as int
                && g.solid_at(x, y, z)
            implies m.contains(#[trigger] primitive_at(g, pos, x, y, z)) by {
            if x < n - 1 {
                let i = choose|i: int| 0 <= i < s.len() && s[i] == primitive_at(g, pos, x, y, z);
                assert(m[i] == primitive_at(g, pos, x, y, z));
            } else {
                assert(b.contains(primitive_at(g, pos, n - 1, y, z)));
                let i = choose|i: int|
                    0 <= i < b.len() && b[i] == primitive_at(g, pos, n - 1, y, z);
                assert(m[s.len() + i] == primitive_at(g, pos, x, y, z));
            }
        }
        assert forall|i: int| 0 <= i < m.len()
            implies exists|x: int, y: int, z: int|
                0 <= x < n && 0 <= y < g.height as int && 0 <= z < g.depth as int
                && g.solid_at(x, y, z)
                && #[trigger] m[i] == primitive_at(g, pos, x, y, z) by {
            if i < s.len() {
                let (x, y, z) = choose|x: int, y: int, z: int|
                    0 <= x < n - 1 && 0 <= y < g.height as int && 0 <= z < g.depth as int
                    && g.solid_at(x, y, z) && s[i] == primitive_at(g, pos, x, y, z);
                assert(m[i] == s[i]);
                assert(0 <= x < n && 0 <= y < g.height as int && 0 <= z < g.depth as int
                    && g.solid_at(x, y, z) && m[i] == primitive_at(g, pos, x, y, z));
            } else {
                let k = i - s.len();
                let r = n - 1;
                let (y, z) = choose|y: int, z: int|
                    0 <= y < g.height as int && 0 <= z < g.depth as int
                    && g.solid_at(r, y, z) && b[k] == primitive_at(g, pos, r, y, z);
                assert(m[i] == b[k]);
                assert(0 <= r < n && 0 <= y < g.height as int && 0 <= z < g.depth as int
                    && g.solid_at(r, y, z) && m[i] == primitive_at(g, pos, r, y, z));
            }
        }
        assert forall|i: int, j: int| 0 <= i < j < m.len()
            implies m[i] != m[j] by {
            if j < s.len() {
                assert(m[i] == s[i] && m[j] == s[j]);
            } else if i >= s.len() {
                assert(m[i] == b[i - s.len()] && m[j] == b[j - s.len()]);
            } else {
                assert(m[i] == s[i] && m[j] == b[j - s.len()]);
                let (x1, y1, z1) = choose|x1: int, y1: int, z1: int|
                    0 <= x1 < n - 1 && 0 <= y1 < g.height as int && 0 <= z1 < g.depth as int
                    && g.solid_at(x1, y1, z1) && s[i] == primitive_at(g, pos, x1, y1, z1);
                let r = n - 1;
                let (y2, z2) = choose|y2: int, z2: int|
                    0 <= y2 < g.height as int && 0 <= z2 < g.depth as int
                    && g.solid_at(r, y2, z2)
                    && b[j - s.len()] == primitive_at(g, pos, r, y2, z2);
                if m[i] == m[j] {
                    lemma_primitive_injective(g, pos, x1, y1, z1, r, y2, z2);
                }
            }
        }
    }
}

proof fn lemma_mesh_z_congruent(
    g1: VoxelGrid, g2: VoxelGrid, pos: ChunkCoordinate, x: int, y: int, n: int)
    requires
        g1.same_voxels(g2),
    ensures
        mesh_z(g1, pos, x, y, n) == mesh_z(g2, pos, x, y, n),
    decreases n,
{
    if n > 0 {
        lemma_mesh_z_congruent(g1, g2, pos, x, y, n - 1);
        assert(mesh_cell(g1, pos, x, y, n - 1) == mesh_cell(g2, pos, x, y, n - 1));
    }
}

proof fn lemma_mesh_y_congruent(
    g1: VoxelGrid, g2: VoxelGrid, pos: ChunkCoordinate, x: int, n: int)
    requires
        g1.same_voxels(g2),
    ensures
        mesh_y(g1, pos, x, n) == mesh_y(g2, pos, x, n),
    decreases n,
{
    if n > 0 {
        lemma_mesh_y_congruent(g1, g2, pos, x, n - 1);
        lemma_mesh_z_congruent(g1, g2, pos, x, n - 1, g1.depth as int);
    }
}

proof fn lemma_mesh_x_congruent(
    g1: VoxelGrid, g2: VoxelGrid, pos: ChunkCoordinate, n: int)
    requires
        g1.same_voxels(g2),
    ensures
        mesh_x(g1, pos, n) == mesh_x(g2, pos, n),
    decreases n,
{
    if n > 0 {
        lemma_mesh_x_congruent(g1, g2, pos, n - 1);
        lemma_mesh_y_congruent(g1, g2, pos, n - 1, g1.height as int);
    }
}

/// The determinism law: meshing is a function of placement and voxel
/// data alone. Two chunks with the same position and the same cell
/// state everywhere yield identical geometry — the same primitives in
/// the same order — so rebuilding with no intervening mutation
/// reproduces the mesh exactly.
pub proof fn lemma_mesh_deterministic(c1: Chunk, c2: Chunk)
    requires
        c1.same_content(c2),
    ensures
        chunk_mesh_spec(c1.voxels, c1.position) == chunk_mesh_spec(c2.voxels, c2.position),
{
    lemma_mesh_x_congruent(c1.voxels, c2.voxels, c1.position, c1.voxels.width as int);
}

/// The meshing law: the geometry of a chunk holds exactly one primitive
/// per solid voxel and none per air voxel. Its length is the grid's
/// solid-cell count; every solid cell's primitive occurs in it; no air
/// cell's primitive does; every element comes from some solid cell; and
/// no element repeats.
pub proof fn lemma_one_primitive_per_solid_voxel(g: VoxelGrid, pos: ChunkCoordinate)
    requires
        g.wf(),
    ensures
        chunk_mesh_spec(g, pos).len() == g.solid_count(),
        forall|x: int, y: int, z: int|
            g.in_bounds(x, y, z) && g.solid_at(x, y, z)
            ==> chunk_mesh_spec(g, pos).contains(#[trigger] primitive_at(g, pos, x, y, z)),
        forall|x: int, y: int, z: int|
            g.in_bounds(x, y, z) && !g.solid_at(x, y, z)
            ==> !chunk_mesh_spec(g, pos).contains(#[trigger] primitive_at(g, pos, x, y, z)),
        forall|i: int| 0 <= i < chunk_mesh_spec(g, pos).len()
            ==> exists|x: int, y: int, z: int|
                g.in_bounds(x, y, z) && g.solid_at(x, y, z)
                && #[trigger] chunk_mesh_spec(g, pos)[i] == primitive_at(g, pos, x, y, z),
        forall|i: int, j: int| 0 <= i < j < chunk_mesh_spec(g, pos).len()
            ==> chunk_mesh_spec(g, pos)[i] != chunk_mesh_spec(g, pos)[j],
{
    lemma_mesh_x_props(g, pos, g.width as int);
    let m = chunk_mesh_spec(g, pos);
    assert forall|x: int, y: int, z: int|
        g.in_bounds(x, y, z) && !g.solid_at(x, y, z)
        implies !m.contains(#[trigger] primitive_at(g, pos, x, y, z)) by {
        if m.contains(primitive_at(g, pos, x, y, z)) {
            let i = choose|i: int| 0 <= i < m.len() && m[i] == primitive_at(g, pos, x, y, z);
            let (x2, y2, z2) = choose|x2: int, y2: int, z2: int|
                0 <= x2 < g.width as int && 0 <= y2 < g.height as int
                && 0 <= z2 < g.depth as int && g.solid_at(x2, y2, z2)
                && m[i] == primitive_at(g, pos, x2, y2, z2);
            lemma_primitive_injective(g, pos, x, y, z, x2, y2, z2);
        }
    }
}

/// The render material for a cell, as the original picks it.
pub fn voxel_color(is_solid: bool) -> (c: VoxelColor)
    ensures
        c == voxel_color_spec(is_solid),
{
    match is_solid {
        true => VoxelColor::Green,
        false => VoxelColor::Red,
    }
}

/// One axis of the world position of a local cell.
fn world_coordinate_exec(chunk: i32, dim: i32, local: i32) -> (r: i64)
    requires
        0 < dim,
        0 <= local < dim,
    ensures
        r as int == world_coordinate(chunk as int, dim as int, local as int),
        r == world_coordinate(chunk as int, dim as int, local as int) as i64,
{
    proof {
        lemma_world_coordinate_in_i64(chunk as int, dim as int, local as int);
        assert(i64::MIN as int <= (chunk as int) * (dim as int)
            && (chunk as int) * (dim as int) <= i64::MAX as int) by (nonlinear_arith)
            requires
                -0x8000_0000 <= chunk as int <= 0x7fff_ffff,
                0 < dim as int <= 0x7fff_ffff,
        ;
    }
    (chunk as i64) * (dim as i64) + (local as i64)
}

/// Build the renderable geometry for a chunk: exactly the sequence
/// `chunk_mesh_spec` describes, for the chunk's current voxel state.
pub fn build_chunk_mesh(chunk: &Chunk) -> (mesh: ChunkMesh)
    requires
        chunk.wf(),
    ensures
        mesh@ == chunk_mesh_spec(chunk.voxels, chunk.position),
{
    let g = &chunk.voxels;
    let pos = chunk.position;
    let ghost gv = chunk.voxels;
    let mut primitives: Vec<CubePrimitive> = Vec::new();
    assert(primitives@ =~= mesh_x(gv, pos, 0));
    let mut x: i32 = 0;
    while x < g.width
        invariant
            chunk.wf(),
            g == &chunk.voxels,
            gv == chunk.voxels,
            pos == chunk.position,
            0 <= x <= g.width,
            primitives@ == mesh_x(gv, pos, x as int),
        decreases g.width - x,
    {
        let mut y: i32 = 0;
        assert(primitives@ =~= mesh_x(gv, pos, x as int) + mesh_y(gv, pos, x as int, 0));
        while y < g.height
            invariant
                chunk.wf(),
                g == &chunk.voxels,
                gv == chunk.voxels,
                pos == chunk.position,
                0 <= x < g.width,
                0 <= y <= g.height,
                primitives@ == mesh_x(gv, pos, x as int)
                    + mesh_y(gv, pos, x as int, y as int),
            decreases g.height - y,
        {
            let mut z: i32 = 0;
            assert(primitives@ =~= mesh_x(gv, pos, x as int)
                + mesh_y(gv, pos, x as int, y as int)
                + mesh_z(gv, pos, x as int, y as int, 0));
            while z < g.depth
                invariant
                    chunk.wf(),
                    g == &chunk.voxels,
                    gv == chunk.voxels,
                    pos == chunk.position,
                    0 <= x < g.width,
                    0 <= y < g.height,
                    0 <= z <= g.depth,
                    primitives@ == mesh_x(gv, pos, x as int)
                        + mesh_y(gv, pos, x as int, y as int)
                        + mesh_z(gv, pos, x as int, y as int, z as int),
                decreases g.depth - z,
            {
                let ghost before = primitives@;
                let v = g.voxel(crate::coords::VoxelCoordinate { x, y, z });
                if v.is_solid {
                    let wx = world_coordinate_exec(pos.x, g.width, x);
                    let wy = world_coordinate_exec(pos.y, g.height, y);
                    let wz = world_coordinate_exec(pos.z, g.depth, z);
                    let color = voxel_color(v.is_solid);
                    let prim = CubePrimitive { x: wx, y: wy, z: wz, color };
                    proof {
                        assert(prim == primitive_at(gv, pos, x as int, y as int, z as int));
                    }
                    primitives.push(prim);
                    proof {
                        assert(primitives@ =~= before
                            + mesh_cell(gv, pos, x as int, y as int, z as int));
                    }
                } else {
                    proof {
                        assert(primitives@ =~= before
                            + mesh_cell(gv, pos, x as int, y as int, z as int));
                    }
                }
                proof {
                    let xi = x as int;
                    let yi = y as int;
                    let zi = z as int;
                    assert(mesh_z(gv, pos, xi, yi, zi + 1)
                        == mesh_z(gv, pos, xi, yi, zi) + mesh_cell(gv, pos, xi, yi, zi));
                    assert(primitives@ =~= mesh_x(gv, pos, xi)
                        + mesh_y(gv, pos, xi, yi)
                        + mesh_z(gv, pos, xi, yi, zi + 1));
                }
                z = z + 1;
            }
            proof {
                let xi = x as int;
                let yi = y as int;
                assert(mesh_y(gv, pos, xi, yi + 1)
                    == mesh_y(gv, pos, xi, yi) + mesh_z(gv, pos, xi, yi, gv.depth as int));
                assert(primitives@ =~= mesh_x(gv, pos, xi) + mesh_y(gv, pos, xi, yi + 1));
            }
            y = y + 1;
        }
        proof {
            let xi = x as int;
            assert(mesh_x(gv, pos, xi + 1)
                == mesh_x(gv, pos, xi) + mesh_y(gv, pos, xi, gv.height as int));
        }
        x = x + 1;
    }
    ChunkMesh { primitives }
}

} // verus!
