//! Per-chunk voxel storage.
//!
//! A `VoxelGrid` holds exactly one `Voxel` for every local coordinate in
//! `[0, width) x [0, height) x [0, depth)`, stored densely in row-major
//! order (`x` outermost, then `y`, then `z`).

use vstd::prelude::*;
use crate::coords::VoxelCoordinate;

verus! {

/// A single grid cell; current scope is binary solid/air state.
#[derive(Clone, Copy, PartialEq, Eq, Structural, Debug)]
pub struct Voxel {
    pub is_solid: bool,
}

/// Chunk dimensions, fixed process-wide at startup.
#[derive(Clone, Copy, PartialEq, Eq, Structural, Debug)]
pub struct ChunkSettings {
    pub width: i32,
    pub height: i32,
    pub depth: i32,
}

impl ChunkSettings {
    /// Dimensions are positive and the cell count fits in a `usize`.
    pub open spec fn wf(self) -> bool {
        &&& 0 < self.width
        &&& 0 < self.height
        &&& 0 < self.depth
        &&& (self.width as int) * (self.height as int) * (self.depth as int) <= usize::MAX as int
    }

    /// Number of cells in a chunk of these dimensions.
    pub open spec fn volume(self) -> int {
        (self.width as int) * (self.height as int) * (self.depth as int)
    }

    pub fn new(width: i32, height: i32, depth: i32) -> (s: Self)
        requires
            0 < width,
            0 < height,
            0 < depth,
            (width as int) * (height as int) * (depth as int) <= usize::MAX as int,
        ensures
            s.width == width && s.height == height && s.depth == depth,
            s.wf(),
    {
        ChunkSettings { width, height, depth }
    }
}

impl Default for ChunkSettings {
    /// The default world uses 32 x 1 x 32 chunks.
    fn default() -> (s: Self)
        ensures
            s.width == 32 && s.height == 1 && s.depth == 32,
            s.wf(),
    {
        ChunkSettings { width: 32, height: 1, depth: 32 }
    }
}

/// Within each row `x < w`, cells `(x, y)` with `y < h` keep indices below
/// the next row, and the full index stays below the volume.
pub proof fn lemma_index_bounds(w: int, h: int, d: int, x: int, y: int, z: int)
    requires
        0 < w && 0 < h && 0 < d,
        0 <= x < w,
        0 <= y < h,
        0 <= z < d,
    ensures
        0 <= x * h + y < w * h,
        0 <= (x * h + y) * d + z < w * h * d,
{
    assert(0 <= x * h + y < w * h) by (nonlinear_arith)
        requires 0 <= x < w, 0 <= y < h, 0 < h,
    ;
    assert(0 <= (x * h + y) * d + z < (w * h) * d) by (nonlinear_arith)
        requires 0 <= x * h + y < w * h, 0 <= z < d, 0 < d,
    ;
    assert((w * h) * d == w * h * d) by (nonlinear_arith);
}

/// Mixed-radix uniqueness: a quotient-remainder pair with the remainder in
/// `[0, m)` is determined by the combined value.
pub proof fn lemma_mixed_radix_unique(a1: int, b1: int, a2: int, b2: int, m: int)
    requires
        0 < m,
        0 <= b1 < m,
        0 <= b2 < m,
        a1 * m + b1 == a2 * m + b2,
    ensures
        a1 == a2,
        b1 == b2,
{
    assert(a1 == a2) by (nonlinear_arith)
        requires 0 < m, 0 <= b1 < m, 0 <= b2 < m, a1 * m + b1 == a2 * m + b2,
    ;
}

/// Dense per-chunk voxel storage: one cell per local coordinate.
pub struct VoxelGrid {
    pub width: i32,
    pub height: i32,
    pub depth: i32,
    pub cells: Vec<Voxel>,
}

impl VoxelGrid {
    /// Positive dimensions and exactly one stored cell per coordinate.
    pub open spec fn wf(self) -> bool {
        &&& 0 < self.width
        &&& 0 < self.height
        &&& 0 < self.depth
        &&& (self.width as int) * (self.height as int) * (self.depth as int) <= usize::MAX as int
        &&& self.cells@.len() == (self.width as int) * (self.height as int) * (self.depth as int)
    }

    pub open spec fn in_bounds(self, x: int, y: int, z: int) -> bool {
        &&& 0 <= x < self.width as int
        &&& 0 <= y < self.height as int
        &&& 0 <= z < self.depth as int
    }

    /// Row-major position of a local coordinate in `cells`.
    pub open spec fn index_of(self, x: int, y: int, z: int) -> int {
        (x * (self.height as int) + y) * (self.depth as int) + z
    }

    pub open spec fn voxel_at(self, x: int, y: int, z: int) -> Voxel
        recommends self.wf(), self.in_bounds(x, y, z),
    {
        self.cells@[self.index_of(x, y, z)]
    }

    pub open spec fn solid_at(self, x: int, y: int, z: int) -> bool
        recommends self.wf(), self.in_bounds(x, y, z),
    {
        self.voxel_at(x, y, z).is_solid
    }

    pub open spec fn matches_settings(self, s: ChunkSettings) -> bool {
        self.width == s.width && self.height == s.height && self.depth == s.depth
    }

    /// Two grids of equal dimensions with equal cell state everywhere.
    pub open spec fn same_voxels(self, other: VoxelGrid) -> bool {
        &&& self.width == other.width
        &&& self.height == other.height
        &&& self.depth == other.depth
        &&& self.cells@ == other.cells@
    }

    pub proof fn lemma_index_in_range(self, x: int, y: int, z: int)
        requires
            self.wf(),
            self.in_bounds(x, y, z),
        ensures
            0 <= self.index_of(x, y, z) < self.cells@.len(),
    {
        lemma_index_bounds(
            self.width as int, self.height as int, self.depth as int, x, y, z);
    }

    /// Every local coordinate has its own cell: the index map never sends
    /// two in-bounds coordinates to the same slot.
    pub proof fn lemma_index_injective(
        self, x1: int, y1: int, z1: int, x2: int, y2: int, z2: int)
        requires
            self.wf(),
            self.in_bounds(x1, y1, z1),
            self.in_bounds(x2, y2, z2),
            self.index_of(x1, y1, z1) == self.index_of(x2, y2, z2),
        ensures
            x1 == x2 && y1 == y2 && z1 == z2,
    {
        let h = self.height as int;
        let d = self.depth as int;
        lemma_mixed_radix_unique(x1 * h + y1, z1, x2 * h + y2, z2, d);
        lemma_mixed_radix_unique(x1, y1, x2, y2, h);
    }

    /// A grid of the given dimensions with every cell set to air.
    pub fn new(settings: &ChunkSettings) -> (g: VoxelGrid)
        requires
            settings.wf(),
        ensures
            g.wf(),
            g.matches_settings(*settings),
            forall|x: int, y: int, z: int|
                g.in_bounds(x, y, z) ==> !g.solid_at(x, y, z),
    {
        let total = settings_volume(settings);
        let mut cells: Vec<Voxel> = Vec::new();
        let mut i: usize = 0;
        while i < total
            invariant
                i <= total,
                cells@.len() == i as int,
                forall|j: int| 0 <= j < i as int ==> !(#[trigger] cells@[j]).is_solid,
            decreases total - i,
        {
            cells.push(Voxel { is_solid: false });
            i = i + 1;
        }
        let g = VoxelGrid {
            width: settings.width,
            height: settings.height,
            depth: settings.depth,
            cells,
        };
        assert forall|x: int, y: int, z: int|
            g.in_bounds(x, y, z) implies !g.solid_at(x, y, z) by {
            g.lemma_index_in_range(x, y, z);
        }
        g
    }

    /// The position of `c` in the backing store.
    fn cell_index(&self, c: VoxelCoordinate) -> (i: usize)
        requires
            self.wf(),
            self.in_bounds(c.x as int, c.y as int, c.z as int),
        ensures
            i as int == self.index_of(c.x as int, c.y as int, c.z as int),
            i < self.cells@.len(),
    {
        proof {
            lemma_index_bounds(
                self.width as int, self.height as int, self.depth as int,
                c.x as int, c.y as int, c.z as int);
            assert((self.width as int) * (self.height as int)
                <= (self.width as int) * (self.height as int) * (self.depth as int))
                by (nonlinear_arith)
                requires 0 < self.width, 0 < self.height, 0 < self.depth,
            ;
        }
        let row: usize = (c.x as usize) * (self.height as usize) + (c.y as usize);
        row * (self.depth as usize) + (c.z as usize)
    }

    pub fn voxel(&self, c: VoxelCoordinate) -> (v: Voxel)
        requires
            self.wf(),
            self.in_bounds(c.x as int, c.y as int, c.z as int),
        ensures
            v == self.voxel_at(c.x as int, c.y as int, c.z as int),
    {
        let i = self.cell_index(c);
        self.cells[i]
    }

    /// Replace the cell at `c`, leaving every other cell as it was.
    pub fn set_voxel(&mut self, c: VoxelCoordinate, v: Voxel)
        requires
            old(self).wf(),
            old(self).in_bounds(c.x as int, c.y as int, c.z as int),
        ensures
            final(self).wf(),
            final(self).width == old(self).width,
            final(self).height == old(self).height,
            final(self).depth == old(self).depth,
            final(self).voxel_at(c.x as int, c.y as int, c.z as int) == v,
            forall|x: int, y: int, z: int|
                old(self).in_bounds(x, y, z)
                    && !(x == c.x as int && y == c.y as int && z == c.z as int)
                    ==> final(self).voxel_at(x, y, z) == old(self).voxel_at(x, y, z),
    {
        let i = self.cell_index(c);
        self.cells[i] = v;
        proof {
            let g0 = *old(self);
            let g1 = *self;
            assert forall|x: int, y: int, z: int|
                g0.in_bounds(x, y, z)
                    && !(x == c.x as int && y == c.y as int && z == c.z as int)
                    implies g1.voxel_at(x, y, z) == g0.voxel_at(x, y, z) by {
                g0.lemma_index_in_range(x, y, z);
                if g0.index_of(x, y, z) == i as int {
                    g0.lemma_index_injective(
                        x, y, z, c.x as int, c.y as int, c.z as int);
                }
            }
        }
    }

    /// Number of solid cells in the `z`-run of column `(x, y)` below `n`.
    pub open spec fn solid_count_z(self, x: int, y: int, n: int) -> int
        decreases n,
    {
        if n <= 0 {
            0
        } else {
            self.solid_count_z(x, y, n - 1)
                + if self.solid_at(x, y, n - 1) { 1int } else { 0int }
        }
    }

    /// Number of solid cells in rows `y < n` of slab `x`.
    pub open spec fn solid_count_y(self, x: int, n: int) -> int
        decreases n,
    {
        if n <= 0 {
            0
        } else {
            self.solid_count_y(x, n - 1)
                + self.solid_count_z(x, n - 1, self.depth as int)
        }
    }

    /// Number of solid cells in slabs `x < n`.
    pub open spec fn solid_count_x(self, n: int) -> int
        decreases n,
    {
        if n <= 0 {
            0
        } else {
            self.solid_count_x(n - 1)
                + self.solid_count_y(n - 1, self.height as int)
        }
    }

    /// Total number of solid cells in the grid.
    pub open spec fn solid_count(self) -> int {
        self.solid_count_x(self.width as int)
    }
}

/// Completeness of a well-formed grid: every in-bounds local coordinate
/// has exactly one cell — its index is a valid slot of the backing store,
/// and no two distinct in-bounds coordinates share a slot.
pub proof fn lemma_grid_complete(g: VoxelGrid)
    requires
        g.wf(),
    ensures
        forall|x: int, y: int, z: int|
            g.in_bounds(x, y, z) ==> 0 <= #[trigger] g.index_of(x, y, z) < g.cells@.len(),
        forall|x1: int, y1: int, z1: int, x2: int, y2: int, z2: int|
            g.in_bounds(x1, y1, z1) && g.in_bounds(x2, y2, z2)
                && #[trigger] g.index_of(x1, y1, z1) == #[trigger] g.index_of(x2, y2, z2)
                ==> x1 == x2 && y1 == y2 && z1 == z2,
{
    assert forall|x: int, y: int, z: int|
        g.in_bounds(x, y, z) implies 0 <= #[trigger] g.index_of(x, y, z) < g.cells@.len() by {
        g.lemma_index_in_range(x, y, z);
    }
    assert forall|x1: int, y1: int, z1: int, x2: int, y2: int, z2: int|
        g.in_bounds(x1, y1, z1) && g.in_bounds(x2, y2, z2)
            && #[trigger] g.index_of(x1, y1, z1) == #[trigger] g.index_of(x2, y2, z2)
            implies x1 == x2 && y1 == y2 && z1 == z2 by {
        g.lemma_index_injective(x1, y1, z1, x2, y2, z2);
    }
}

/// The cell count of well-formed settings, as a `usize`.
fn settings_volume(settings: &ChunkSettings) -> (n: usize)
    requires
        settings.wf(),
    ensures
        n as int == settings.volume(),
{
    proof {
        let w = settings.width as int;
        let h = settings.height as int;
        let d = settings.depth as int;
        assert(w * h <= w * h * d && 0 <= w * h) by (nonlinear_arith)
            requires 0 < w, 0 < h, 0 < d,
        ;
    }
    (settings.width as usize) * (settings.height as usize) * (settings.depth as usize)
}

} // verus!
