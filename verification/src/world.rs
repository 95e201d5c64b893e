//! The world index: the single owner of all chunks, keyed by coordinate.

use vstd::prelude::*;
use crate::chunk::Chunk;
use crate::coords::ChunkCoordinate;
use crate::pool::MeshPool;

verus! {

/// Failure surfaced by the index instead of silently overwriting a chunk
/// (an overwrite would leak the discarded chunk's mesh resource).
#[derive(Clone, Copy, PartialEq, Eq, Structural, Debug)]
pub enum WorldError {
    DuplicateCoordinate { coordinate: ChunkCoordinate },
}

/// Maps chunk coordinates to chunks; the source of truth for which
/// chunks exist. Each chunk is owned exclusively by the index.
pub struct WorldIndex {
    pub chunks: Vec<Chunk>,
}

impl WorldIndex {
    /// Chunks are well-formed and no coordinate is claimed twice.
    pub open spec fn wf(self) -> bool {
        &&& forall|i: int| 0 <= i < self.chunks@.len()
            ==> (#[trigger] self.chunks@[i]).wf()
        &&& forall|i: int, j: int| 0 <= i < j < self.chunks@.len()
            ==> self.chunks@[i].position != self.chunks@[j].position
    }

    pub open spec fn contains_coordinate(self, c: ChunkCoordinate) -> bool {
        exists|i: int| 0 <= i < self.chunks@.len()
            && (#[trigger] self.chunks@[i]).position == c
    }

    /// The slot of the chunk at `c`; meaningful when the coordinate is
    /// present.
    pub open spec fn slot_of(self, c: ChunkCoordinate) -> int {
        choose|i: int| 0 <= i < self.chunks@.len()
            && (#[trigger] self.chunks@[i]).position == c
    }

    pub open spec fn chunk_at(self, c: ChunkCoordinate) -> Chunk
        recommends self.contains_coordinate(c),
    {
        self.chunks@[self.slot_of(c)]
    }

    /// In a well-formed index a coordinate has exactly one slot.
    pub proof fn lemma_slot_unique(self, c: ChunkCoordinate, i: int)
        requires
            self.wf(),
            0 <= i < self.chunks@.len(),
            self.chunks@[i].position == c,
        ensures
            self.contains_coordinate(c),
            self.slot_of(c) == i,
            self.chunk_at(c) == self.chunks@[i],
    {
        assert(self.contains_coordinate(c));
        let s = self.slot_of(c);
        if s != i {
            if s < i {
                assert(self.chunks@[s].position != self.chunks@[i].position);
            } else {
                assert(self.chunks@[i].position != self.chunks@[s].position);
            }
        }
    }

    /// An empty world.
    pub fn new() -> (w: WorldIndex)
        ensures
            w.wf(),
            w.chunks@.len() == 0,
            forall|c: ChunkCoordinate| !w.contains_coordinate(c),
    {
        WorldIndex { chunks: Vec::new() }
    }

    /// Number of chunks that exist.
    pub fn len(&self) -> (n: usize)
        ensures
            n == self.chunks@.len(),
    {
        self.chunks.len()
    }

    /// Whether a chunk exists at `c`.
    pub fn contains(&self, c: ChunkCoordinate) -> (b: bool)
        ensures
            b == self.contains_coordinate(c),
    {
        let mut i: usize = 0;
        while i < self.chunks.len()
            invariant
                i <= self.chunks@.len(),
                forall|k: int| 0 <= k < i as int
                    ==> (#[trigger] self.chunks@[k]).position != c,
            decreases self.chunks@.len() - i as int,
        {
            if self.chunks[i].position == c {
                return true;
            }
            i = i + 1;
        }
        proof {
            if self.contains_coordinate(c) {
                let k = choose|k: int| 0 <= k < self.chunks@.len()
                    && (#[trigger] self.chunks@[k]).position == c;
            }
        }
        false
    }

    /// Take ownership of a chunk, keyed by its position. A duplicate
    /// coordinate is an invariant violation and is surfaced as an error,
    /// never resolved by overwriting.
    pub fn insert(&mut self, chunk: Chunk) -> (r: Result<(), WorldError>)
        requires
            old(self).wf(),
            chunk.wf(),
        ensures
            final(self).wf(),
            r is Ok <==> !old(self).contains_coordinate(chunk.position),
            r is Ok ==> final(self).chunks@ == old(self).chunks@.push(chunk),
            r is Err ==> final(self).chunks@ == old(self).chunks@
                && r == Err::<(), WorldError>(WorldError::DuplicateCoordinate {
                    coordinate: chunk.position,
                }),
    {
        if self.contains(chunk.position) {
            return Err(WorldError::DuplicateCoordinate { coordinate: chunk.position });
        }
        let ghost w0 = *self;
        self.chunks.push(chunk);
        proof {
            let w1 = *self;
            let n0 = w0.chunks@.len() as int;
            assert forall|i: int, j: int| 0 <= i < j < w1.chunks@.len()
                implies w1.chunks@[i].position != w1.chunks@[j].position by {
                if j < n0 {
                    assert(w1.chunks@[i] == w0.chunks@[i]);
                    assert(w1.chunks@[j] == w0.chunks@[j]);
                } else {
                    assert(w1.chunks@[i] == w0.chunks@[i]);
                    assert(w1.chunks@[j] == chunk);
                    if w0.chunks@[i].position == chunk.position {
                        assert(w0.contains_coordinate(chunk.position));
                    }
                }
            }
        }
        Ok(())
    }

    /// Appending a chunk extends the set of known coordinates by exactly
    /// the new chunk's position.
    pub proof fn lemma_contains_after_push(w0: WorldIndex, w1: WorldIndex, chunk: Chunk)
        requires
            w1.chunks@ == w0.chunks@.push(chunk),
        ensures
            forall|c: ChunkCoordinate| w1.contains_coordinate(c)
                <==> (w0.contains_coordinate(c) || c == chunk.position),
    {
        let n0 = w0.chunks@.len() as int;
        assert forall|c: ChunkCoordinate| w1.contains_coordinate(c)
            <==> (w0.contains_coordinate(c) || c == chunk.position) by {
            if w1.contains_coordinate(c) {
                let k = choose|k: int| 0 <= k < w1.chunks@.len()
                    && (#[trigger] w1.chunks@[k]).position == c;
                if k < n0 {
                    assert(w0.chunks@[k].position == c);
                } else {
                    assert(w1.chunks@[k] == chunk);
                }
            }
            if w0.contains_coordinate(c) {
                let k = choose|k: int| 0 <= k < w0.chunks@.len()
                    && (#[trigger] w0.chunks@[k]).position == c;
                assert(w1.chunks@[k].position == c);
            }
            if c == chunk.position {
                assert(w1.chunks@[n0].position == c);
            }
        }
    }

    /// The chunk at `c`, if it exists.
    pub fn get(&self, c: ChunkCoordinate) -> (r: Option<&Chunk>)
        requires
            self.wf(),
        ensures
            (match r {
                Some(chunk) => self.contains_coordinate(c) && *chunk == self.chunk_at(c),
                None => !self.contains_coordinate(c),
            }),
    {
        let mut i: usize = 0;
        while i < self.chunks.len()
            invariant
                self.wf(),
                i <= self.chunks@.len(),
                forall|k: int| 0 <= k < i as int
                    ==> (#[trigger] self.chunks@[k]).position != c,
            decreases self.chunks@.len() - i as int,
        {
            if self.chunks[i].position == c {
                proof {
                    self.lemma_slot_unique(c, i as int);
                }
                return Some(&self.chunks[i]);
            }
            i = i + 1;
        }
        proof {
            if self.contains_coordinate(c) {
                let k = choose|k: int| 0 <= k < self.chunks@.len()
                    && (#[trigger] self.chunks@[k]).position == c;
            }
        }
        None
    }

    /// Destroy the chunk at `c`: it leaves the index and its mesh
    /// resource, if it owned one, is released back to the pool.
    pub fn remove(&mut self, c: ChunkCoordinate, pool: &mut MeshPool) -> (removed: bool)
        requires
            old(self).wf(),
            old(pool).wf(),
        ensures
            final(self).wf(),
            final(pool).wf(),
            final(pool).next_handle == old(pool).next_handle,
            removed == old(self).contains_coordinate(c),
            !removed ==> final(self).chunks@ == old(self).chunks@
                && *final(pool) == *old(pool),
            removed ==> {
                let chunk = old(self).chunk_at(c);
                &&& final(self).chunks@ == old(self).chunks@.remove(old(self).slot_of(c))
                &&& !final(self).contains_coordinate(c)
                &&& (match chunk.current_mesh {
                    Some(h) => {
                        &&& !final(pool).contains_handle(h)
                        &&& final(pool).entries@.len() == old(pool).entries@.len()
                            - (if old(pool).contains_handle(h) { 1int } else { 0int })
                        &&& (forall|g: u64| g != h
                            ==> final(pool).contains_handle(g)
                                == old(pool).contains_handle(g))
                        &&& (forall|g: u64| g != h && old(pool).contains_handle(g)
                            ==> final(pool).mesh_of(g) == old(pool).mesh_of(g))
                    },
                    None => *final(pool) == *old(pool),
                })
            },
    {
        let ghost w0 = *old(self);
        let mut i: usize = 0;
        while i < self.chunks.len()
            invariant
                *self == w0,
                w0 == *old(self),
                w0.wf(),
                *pool == *old(pool),
                old(pool).wf(),
                i <= w0.chunks@.len(),
                forall|k: int| 0 <= k < i as int
                    ==> (#[trigger] w0.chunks@[k]).position != c,
            decreases w0.chunks@.len() - i as int,
        {
            if self.chunks[i].position == c {
                proof {
                    w0.lemma_slot_unique(c, i as int);
                }
                let chunk = self.chunks.remove(i);
                if let Some(h) = chunk.current_mesh {
                    pool.release(h);
                }
                proof {
                    let w1 = *self;
                    let n1 = w1.chunks@.len() as int;
                    let ii = i as int;
                    assert forall|k: int| 0 <= k < n1
                        implies (#[trigger] w1.chunks@[k])
                            == w0.chunks@[if k < ii { k } else { k + 1 }] by {}
                    assert(w1.wf()) by {
                        assert forall|a: int, b: int| 0 <= a < b < n1
                            implies w1.chunks@[a].position != w1.chunks@[b].position by {
                            let a0 = if a < ii { a } else { a + 1 };
                            let b0 = if b < ii { b } else { b + 1 };
                            assert(w1.chunks@[a] == w0.chunks@[a0]);
                            assert(w1.chunks@[b] == w0.chunks@[b0]);
                        }
                    }
                    assert(!w1.contains_coordinate(c)) by {
                        if w1.contains_coordinate(c) {
                            let k = choose|k: int| 0 <= k < n1
                                && (#[trigger] w1.chunks@[k]).position == c;
                            let k0 = if k < ii { k } else { k + 1 };
                            assert(w0.chunks@[k0].position == c);
                            w0.lemma_slot_unique(c, k0);
                        }
                    }
                }
                return true;
            }
            i = i + 1;
        }
        proof {
            if self.contains_coordinate(c) {
                let k = choose|k: int| 0 <= k < self.chunks@.len()
                    && (#[trigger] self.chunks@[k]).position == c;
            }
        }
        false
    }
}

} // verus!
