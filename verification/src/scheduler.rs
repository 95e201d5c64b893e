//! The rebuild scheduler: one cooperative pass per tick.
//!
//! Each tick walks every chunk, rebuilds the mesh of each dirty one from
//! its current voxel data, releases the chunk's previous mesh resource,
//! installs the new one, and clears the dirty flag. Chunks are processed
//! independently: each chunk's new state is a function of its own prior
//! state alone, so the outcome does not depend on processing order. A
//! chunk that is not dirty is left untouched, its mesh resource intact.

use vstd::prelude::*;
use crate::chunk::Chunk;
use crate::mesher::{build_chunk_mesh, chunk_mesh_spec};
use crate::pool::MeshPool;
use crate::world::WorldIndex;

verus! {

pub open spec fn has_mesh(c: Chunk) -> bool {
    c.current_mesh is Some
}

pub open spec fn mesh_handle(c: Chunk) -> u64
    recommends has_mesh(c),
{
    c.current_mesh.unwrap()
}

/// The ownership pact between the world and the render pool: every
/// chunk's mesh handle is live in the pool, and no two chunks share a
/// handle.
pub open spec fn world_pool_consistent(w: WorldIndex, p: MeshPool) -> bool {
    &&& forall|i: int| 0 <= i < w.chunks@.len() && has_mesh(#[trigger] w.chunks@[i])
        ==> p.contains_handle(mesh_handle(w.chunks@[i]))
    &&& forall|i: int, j: int|
        #![trigger w.chunks@[i], w.chunks@[j]]
        0 <= i < j < w.chunks@.len()
            && has_mesh(w.chunks@[i]) && has_mesh(w.chunks@[j])
            ==> mesh_handle(w.chunks@[i]) != mesh_handle(w.chunks@[j])
}

/// What one scheduling tick establishes, relating the prior world and
/// pool (`w0`, `p0`) to the new ones (`w1`, `p1`):
/// - no chunk is created, destroyed, moved, or has its voxels touched;
/// - no chunk is left dirty;
/// - each previously dirty chunk holds a fresh handle under which the
///   pool holds exactly the geometry of that chunk's voxel data;
/// - each previously clean chunk is untouched, and its mesh resource,
///   if any, still holds the geometry it held before.
pub open spec fn rebuild_tick_post(
    w0: WorldIndex, p0: MeshPool, w1: WorldIndex, p1: MeshPool) -> bool {
    &&& w1.chunks@.len() == w0.chunks@.len()
    &&& forall|i: int| 0 <= i < w1.chunks@.len()
        ==> (#[trigger] w1.chunks@[i]).same_content(w0.chunks@[i])
    &&& forall|i: int| 0 <= i < w1.chunks@.len()
        ==> !(#[trigger] w1.chunks@[i]).dirty
    &&& forall|i: int| 0 <= i < w1.chunks@.len() && (#[trigger] w0.chunks@[i]).dirty
        ==> {
            &&& has_mesh(w1.chunks@[i])
            &&& p1.contains_handle(mesh_handle(w1.chunks@[i]))
            &&& p1.mesh_of(mesh_handle(w1.chunks@[i]))
                == chunk_mesh_spec(w0.chunks@[i].voxels, w0.chunks@[i].position)
            &&& !p0.contains_handle(mesh_handle(w1.chunks@[i]))
        }
    &&& forall|i: int| 0 <= i < w1.chunks@.len() && !(#[trigger] w0.chunks@[i]).dirty
        ==> {
            &&& w1.chunks@[i] == w0.chunks@[i]
            &&& (has_mesh(w0.chunks@[i]) ==> {
                &&& p1.contains_handle(mesh_handle(w0.chunks@[i]))
                &&& p1.mesh_of(mesh_handle(w0.chunks@[i]))
                    == p0.mesh_of(mesh_handle(w0.chunks@[i]))
            })
        }
}

/// The order-independence law: the outcome of a tick for a chunk is a
/// function of that chunk's own prior state alone. If the same chunk —
/// same placement, same voxel data, same dirty flag — stands at any
/// slot of either of two worlds, then after a tick of each it has the
/// same content and a clear dirty flag in both, and, if it was dirty,
/// the geometry installed for it is identical in both. Permuting the
/// chunks therefore permutes the final states the same way.
pub proof fn lemma_rebuild_order_independent(
    w1_old: WorldIndex, p1_old: MeshPool, w1_new: WorldIndex, p1_new: MeshPool,
    w2_old: WorldIndex, p2_old: MeshPool, w2_new: WorldIndex, p2_new: MeshPool,
    i: int, j: int)
    requires
        rebuild_tick_post(w1_old, p1_old, w1_new, p1_new),
        rebuild_tick_post(w2_old, p2_old, w2_new, p2_new),
        0 <= i < w1_old.chunks@.len(),
        0 <= j < w2_old.chunks@.len(),
        w1_old.chunks@[i].same_content(w2_old.chunks@[j]),
        w1_old.chunks@[i].dirty == w2_old.chunks@[j].dirty,
    ensures
        w1_new.chunks@[i].same_content(w2_new.chunks@[j]),
        !w1_new.chunks@[i].dirty,
        !w2_new.chunks@[j].dirty,
        w1_old.chunks@[i].dirty ==> {
            &&& has_mesh(w1_new.chunks@[i])
            &&& has_mesh(w2_new.chunks@[j])
            &&& p1_new.mesh_of(mesh_handle(w1_new.chunks@[i]))
                == p2_new.mesh_of(mesh_handle(w2_new.chunks@[j]))
        },
{
    let c1 = w1_old.chunks@[i];
    let c2 = w2_old.chunks@[j];
    if c1.dirty {
        crate::mesher::lemma_mesh_deterministic(c1, c2);
    }
}

/// One scheduling tick: rebuild every dirty chunk, replace its mesh
/// resource, clear its dirty flag; leave clean chunks alone.
pub fn update_chunk_meshes(world: &mut WorldIndex, pool: &mut MeshPool)
    requires
        old(world).wf(),
        old(pool).wf(),
        world_pool_consistent(*old(world), *old(pool)),
        old(pool).next_handle as int + old(world).chunks@.len() <= u64::MAX as int,
    ensures
        final(world).wf(),
        final(pool).wf(),
        world_pool_consistent(*final(world), *final(pool)),
        rebuild_tick_post(*old(world), *old(pool), *final(world), *final(pool)),
{
    let ghost w0 = *old(world);
    let ghost p0 = *old(pool);
    let n = world.chunks.len();
    let mut i: usize = 0;
    while i < n
        invariant
            w0 == *old(world),
            p0 == *old(pool),
            w0.wf(),
            p0.wf(),
            n == w0.chunks@.len(),
            i <= n,
            world.chunks@.len() == n,
            world.wf(),
            pool.wf(),
            world_pool_consistent(*world, *pool),
            p0.next_handle <= pool.next_handle,
            pool.next_handle as int <= p0.next_handle as int + i as int,
            p0.next_handle as int + n <= u64::MAX as int,
            forall|j: int| i as int <= j < n
                ==> (#[trigger] world.chunks@[j]) == w0.chunks@[j],
            forall|j: int| i as int <= j < n && has_mesh(#[trigger] w0.chunks@[j])
                ==> pool.contains_handle(mesh_handle(w0.chunks@[j]))
                    && pool.mesh_of(mesh_handle(w0.chunks@[j]))
                        == p0.mesh_of(mesh_handle(w0.chunks@[j])),
            forall|j: int| 0 <= j < i as int
                ==> (#[trigger] world.chunks@[j]).same_content(w0.chunks@[j]),
            forall|j: int| 0 <= j < i as int
                ==> !(#[trigger] world.chunks@[j]).dirty,
            forall|j: int| 0 <= j < i as int && (#[trigger] w0.chunks@[j]).dirty
                ==> {
                    &&& has_mesh(world.chunks@[j])
                    &&& pool.contains_handle(mesh_handle(world.chunks@[j]))
                    &&& pool.mesh_of(mesh_handle(world.chunks@[j]))
                        == chunk_mesh_spec(w0.chunks@[j].voxels, w0.chunks@[j].position)
                    &&& !p0.contains_handle(mesh_handle(world.chunks@[j]))
                },
            forall|j: int| 0 <= j < i as int && !(#[trigger] w0.chunks@[j]).dirty
                ==> {
                    &&& world.chunks@[j] == w0.chunks@[j]
                    &&& (has_mesh(w0.chunks@[j]) ==> {
                        &&& pool.contains_handle(mesh_handle(w0.chunks@[j]))
                        &&& pool.mesh_of(mesh_handle(w0.chunks@[j]))
                            == p0.mesh_of(mesh_handle(w0.chunks@[j]))
                    })
                },
        decreases n - i,
    {
        if world.chunks[i].dirty {
            let ghost wa = *world;
            let ghost pa = *pool;
            let mesh = build_chunk_mesh(&world.chunks[i]);
            let previous = world.chunks[i].current_mesh;
            if let Some(h) = previous {
                pool.release(h);
                proof {
                    // No other chunk shares this handle, so only this
                    // chunk's resource went away.
                    assert forall|j: int|
                        0 <= j < n && j != i as int && has_mesh(#[trigger] wa.chunks@[j])
                        implies pool.contains_handle(mesh_handle(wa.chunks@[j]))
                            && pool.mesh_of(mesh_handle(wa.chunks@[j]))
                                == pa.mesh_of(mesh_handle(wa.chunks@[j])) by {
                        if j < i as int {
                            assert(wa.chunks@[j] == world.chunks@[j]);
                        }
                        if mesh_handle(wa.chunks@[j]) == h {
                            if j < i as int {
                                assert(mesh_handle(wa.chunks@[j])
                                    != mesh_handle(wa.chunks@[i as int]));
                            } else {
                                assert(mesh_handle(wa.chunks@[i as int])
                                    != mesh_handle(wa.chunks@[j]));
                            }
                        }
                    }
                }
            }
            let ghost pb = *pool;
            let handle = pool.install(mesh);
            proof {
                assert(!pb.contains_handle(handle));
                assert(!p0.contains_handle(handle)) by {
                    if p0.contains_handle(handle) {
                        let k = choose|k: int| 0 <= k < p0.entries@.len()
                            && (#[trigger] p0.entries@[k]).handle == handle;
                        assert(p0.entries@[k].handle < p0.next_handle);
                    }
                }
                assert forall|j: int|
                    0 <= j < n && j != i as int && has_mesh(#[trigger] wa.chunks@[j])
                    implies pool.contains_handle(mesh_handle(wa.chunks@[j]))
                        && pool.mesh_of(mesh_handle(wa.chunks@[j]))
                            == pa.mesh_of(mesh_handle(wa.chunks@[j]))
                        && mesh_handle(wa.chunks@[j]) != handle by {
                    if j < i as int {
                        assert(wa.chunks@[j] == world.chunks@[j]);
                    }
                    match previous {
                        Some(h) => {
                            if mesh_handle(wa.chunks@[j]) == h {
                                if j < i as int {
                                    assert(mesh_handle(wa.chunks@[j])
                                        != mesh_handle(wa.chunks@[i as int]));
                                } else {
                                    assert(mesh_handle(wa.chunks@[i as int])
                                        != mesh_handle(wa.chunks@[j]));
                                }
                            }
                        },
                        None => {},
                    }
                }
            }
            world.chunks[i].current_mesh = Some(handle);
            world.chunks[i].dirty = false;
            proof {
                let wb = *world;
                assert(wb.chunks@[i as int].position == wa.chunks@[i as int].position);
                assert(wb.chunks@[i as int].voxels == wa.chunks@[i as int].voxels);
                assert forall|j: int| 0 <= j < n && j != i as int
                    implies (#[trigger] wb.chunks@[j]) == wa.chunks@[j] by {}
                assert(wb.wf());
                assert forall|j: int|
                    i as int + 1 <= j < n && has_mesh(#[trigger] w0.chunks@[j])
                    implies pool.contains_handle(mesh_handle(w0.chunks@[j]))
                        && pool.mesh_of(mesh_handle(w0.chunks@[j]))
                            == p0.mesh_of(mesh_handle(w0.chunks@[j])) by {
                    assert(wa.chunks@[j] == w0.chunks@[j]);
                }
                assert(world_pool_consistent(wb, *pool)) by {
                    assert forall|a: int|
                        0 <= a < n && has_mesh(#[trigger] wb.chunks@[a])
                        implies pool.contains_handle(mesh_handle(wb.chunks@[a])) by {
                        if a != i as int {
                            assert(wb.chunks@[a] == wa.chunks@[a]);
                        }
                    }
                    assert forall|a: int, b: int|
                        #![trigger wb.chunks@[a], wb.chunks@[b]]
                        0 <= a < b < n
                            && has_mesh(wb.chunks@[a]) && has_mesh(wb.chunks@[b])
                        implies mesh_handle(wb.chunks@[a]) != mesh_handle(wb.chunks@[b]) by {
                        if a != i as int && b != i as int {
                            assert(wb.chunks@[a] == wa.chunks@[a]);
                            assert(wb.chunks@[b] == wa.chunks@[b]);
                        }
                    }
                }
            }
        }
        i = i + 1;
    }
}

} // verus!
