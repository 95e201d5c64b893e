//! The render-resource boundary, modelled as an owned pool.
//!
//! The core hands built geometry to the render side and receives an
//! opaque handle back; it releases the handle when the mesh is replaced
//! or its chunk is destroyed. The pool records which handles are live
//! and what geometry each was installed with, so resource ownership is
//! part of the verified state: handles are never reused, and a release
//! removes exactly the entry installed for that handle.

use vstd::prelude::*;
use crate::mesher::{ChunkMesh, CubePrimitive};

verus! {

/// A live render object: its handle and the geometry it was built from.
pub struct MeshEntry {
    pub handle: u64,
    pub mesh: ChunkMesh,
}

/// An owned pool of render mesh resources.
pub struct MeshPool {
    pub next_handle: u64,
    pub entries: Vec<MeshEntry>,
}

impl MeshPool {
    /// Handles are unique, and every live handle is below `next_handle`,
    /// so a handle is never reused.
    pub open spec fn wf(self) -> bool {
        &&& forall|i: int| 0 <= i < self.entries@.len()
            ==> (#[trigger] self.entries@[i]).handle < self.next_handle
        &&& forall|i: int, j: int| 0 <= i < j < self.entries@.len()
            ==> self.entries@[i].handle != self.entries@[j].handle
    }

    pub open spec fn contains_handle(self, h: u64) -> bool {
        exists|i: int| 0 <= i < self.entries@.len()
            && (#[trigger] self.entries@[i]).handle == h
    }

    /// The slot of a live handle; meaningful when `contains_handle(h)`.
    pub open spec fn slot_of(self, h: u64) -> int {
        choose|i: int| 0 <= i < self.entries@.len()
            && (#[trigger] self.entries@[i]).handle == h
    }

    /// The geometry installed under a live handle.
    pub open spec fn mesh_of(self, h: u64) -> Seq<CubePrimitive>
        recommends self.contains_handle(h),
    {
        self.entries@[self.slot_of(h)].mesh@
    }

    /// In a well-formed pool a handle has exactly one slot.
    pub proof fn lemma_slot_unique(self, h: u64, i: int)
        requires
            self.wf(),
            0 <= i < self.entries@.len(),
            self.entries@[i].handle == h,
        ensures
            self.contains_handle(h),
            self.slot_of(h) == i,
            self.mesh_of(h) == self.entries@[i].mesh@,
    {
        assert(self.contains_handle(h));
        let s = self.slot_of(h);
        assert(0 <= s < self.entries@.len() && self.entries@[s].handle == h);
        if s != i {
            if s < i {
                assert(self.entries@[s].handle != self.entries@[i].handle);
            } else {
                assert(self.entries@[i].handle != self.entries@[s].handle);
            }
        }
    }

    /// An empty pool with no live handles.
    pub fn new() -> (p: MeshPool)
        ensures
            p.wf(),
            p.next_handle == 0,
            p.entries@.len() == 0,
            forall|h: u64| !p.contains_handle(h),
    {
        MeshPool { next_handle: 0, entries: Vec::new() }
    }

    /// Number of live render resources.
    pub fn live_count(&self) -> (n: usize)
        ensures
            n == self.entries@.len(),
    {
        self.entries.len()
    }

    /// Install built geometry, returning a fresh handle: one never live
    /// before, under which exactly this geometry is now held; every
    /// previously live handle keeps its geometry.
    pub fn install(&mut self, mesh: ChunkMesh) -> (h: u64)
        requires
            old(self).wf(),
            old(self).next_handle < u64::MAX,
        ensures
            final(self).wf(),
            h == old(self).next_handle,
            !old(self).contains_handle(h),
            final(self).next_handle == old(self).next_handle + 1,
            final(self).entries@.len() == old(self).entries@.len() + 1,
            final(self).contains_handle(h),
            final(self).mesh_of(h) == mesh@,
            forall|g: u64| old(self).contains_handle(g)
                ==> final(self).contains_handle(g)
                    && final(self).mesh_of(g) == old(self).mesh_of(g),
            forall|g: u64| final(self).contains_handle(g)
                ==> g == h || old(self).contains_handle(g),
    {
        let h = self.next_handle;
        self.next_handle = self.next_handle + 1;
        self.entries.push(MeshEntry { handle: h, mesh });
        proof {
            let p0 = *old(self);
            let p1 = *self;
            let n0 = p0.entries@.len() as int;
            assert(p1.entries@[n0].handle == h);
            assert(!p0.contains_handle(h)) by {
                if p0.contains_handle(h) {
                    let i = choose|i: int| 0 <= i < p0.entries@.len()
                        && (#[trigger] p0.entries@[i]).handle == h;
                    assert(p0.entries@[i].handle < p0.next_handle);
                }
            }
            assert(p1.wf());
            p1.lemma_slot_unique(h, n0);
            assert forall|g: u64| p0.contains_handle(g)
                implies p1.contains_handle(g) && p1.mesh_of(g) == p0.mesh_of(g) by {
                let i = choose|i: int| 0 <= i < p0.entries@.len()
                    && (#[trigger] p0.entries@[i]).handle == g;
                assert(p1.entries@[i] == p0.entries@[i]);
                p0.lemma_slot_unique(g, i);
                p1.lemma_slot_unique(g, i);
            }
            assert forall|g: u64| p1.contains_handle(g)
                implies g == h || p0.contains_handle(g) by {
                let i = choose|i: int| 0 <= i < p1.entries@.len()
                    && (#[trigger] p1.entries@[i]).handle == g;
                if i < n0 {
                    assert(p0.entries@[i].handle == g);
                }
            }
        }
        h
    }

    /// Release a handle: its entry (if live) is removed and its handle is
    /// live no more; every other live handle keeps its geometry. A
    /// release of a handle that is not live does nothing.
    pub fn release(&mut self, h: u64)
        requires
            old(self).wf(),
        ensures
            final(self).wf(),
            final(self).next_handle == old(self).next_handle,
            !final(self).contains_handle(h),
            final(self).entries@.len() == old(self).entries@.len()
                - (if old(self).contains_handle(h) { 1int } else { 0int }),
            forall|g: u64| g != h
                ==> (final(self).contains_handle(g) == old(self).contains_handle(g)),
            forall|g: u64| g != h && old(self).contains_handle(g)
                ==> final(self).mesh_of(g) == old(self).mesh_of(g),
    {
        let ghost p0 = *old(self);
        let mut i: usize = 0;
        while i < self.entries.len()
            invariant
                *self == p0,
                p0 == *old(self),
                p0.wf(),
                i <= p0.entries@.len(),
                forall|k: int| 0 <= k < i as int
                    ==> (#[trigger] p0.entries@[k]).handle != h,
            decreases p0.entries@.len() - i as int,
        {
            if self.entries[i].handle == h {
                proof {
                    p0.lemma_slot_unique(h, i as int);
                }
                self.entries.remove(i);
                proof {
                    let p1 = *self;
                    let n1 = p1.entries@.len() as int;
                    let ii = i as int;
                    assert(p1.entries@ == p0.entries@.remove(ii));
                    assert forall|k: int| 0 <= k < n1
                        implies (#[trigger] p1.entries@[k])
                            == p0.entries@[if k < ii { k } else { k + 1 }] by {}
                    assert(p1.wf()) by {
                        assert forall|a: int, b: int| 0 <= a < b < n1
                            implies p1.entries@[a].handle != p1.entries@[b].handle by {
                            let a0 = if a < ii { a } else { a + 1 };
                            let b0 = if b < ii { b } else { b + 1 };
                            assert(p1.entries@[a] == p0.entries@[a0]);
                            assert(p1.entries@[b] == p0.entries@[b0]);
                        }
                    }
                    assert(!p1.contains_handle(h)) by {
                        if p1.contains_handle(h) {
                            let k = choose|k: int| 0 <= k < n1
                                && (#[trigger] p1.entries@[k]).handle == h;
                            let k0 = if k < ii { k } else { k + 1 };
                            assert(p0.entries@[k0].handle == h);
                            p0.lemma_slot_unique(h, k0);
                        }
                    }
                    assert forall|g: u64| g != h
                        implies (p1.contains_handle(g) == p0.contains_handle(g)) by {
                        if p1.contains_handle(g) {
                            let k = choose|k: int| 0 <= k < n1
                                && (#[trigger] p1.entries@[k]).handle == g;
                            let k0 = if k < ii { k } else { k + 1 };
                            assert(p0.entries@[k0].handle == g);
                        }
                        if p0.contains_handle(g) {
                            let k0 = choose|k0: int| 0 <= k0 < p0.entries@.len()
                                && (#[trigger] p0.entries@[k0]).handle == g;
                            assert(k0 != ii);
                            let k = if k0 < ii { k0 } else { k0 - 1 };
                            assert(p1.entries@[k].handle == g);
                        }
                    }
                    assert forall|g: u64| g != h && p0.contains_handle(g)
                        implies p1.mesh_of(g) == p0.mesh_of(g) by {
                        let k0 = choose|k0: int| 0 <= k0 < p0.entries@.len()
                            && (#[trigger] p0.entries@[k0]).handle == g;
                        assert(k0 != ii);
                        let k = if k0 < ii { k0 } else { k0 - 1 };
                        assert(p1.entries@[k] == p0.entries@[k0]);
                        p0.lemma_slot_unique(g, k0);
                        p1.lemma_slot_unique(g, k);
                    }
                }
                return;
            }
            i = i + 1;
        }
        proof {
            assert(!p0.contains_handle(h)) by {
                if p0.contains_handle(h) {
                    let k = choose|k: int| 0 <= k < p0.entries@.len()
                        && (#[trigger] p0.entries@[k]).handle == h;
                }
            }
        }
    }

    /// The geometry currently installed under a handle, if it is live.
    pub fn mesh(&self, h: u64) -> (r: Option<&ChunkMesh>)
        requires
            self.wf(),
        ensures
            (match r {
                Some(m) => self.contains_handle(h) && m@ == self.mesh_of(h),
                None => !self.contains_handle(h),
            }),
    {
        let mut i: usize = 0;
        while i < self.entries.len()
            invariant
                self.wf(),
                i <= self.entries@.len(),
                forall|k: int| 0 <= k < i as int
                    ==> (#[trigger] self.entries@[k]).handle != h,
            decreases self.entries@.len() - i as int,
        {
            if self.entries[i].handle == h {
                proof {
                    self.lemma_slot_unique(h, i as int);
                }
                return Some(&self.entries[i].mesh);
            }
            i = i + 1;
        }
        proof {
            if self.contains_handle(h) {
                let k = choose|k: int| 0 <= k < self.entries@.len()
                    && (#[trigger] self.entries@[k]).handle == h;
            }
        }
        None
    }
}

} // verus!
