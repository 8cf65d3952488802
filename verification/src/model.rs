//! The mathematical model of the terrain state, and what each operation
//! does to it.

use crate::grid::{ChunkCoordinate, ReferencePoint};
use crate::height_map::{MAX_RESOLUTION, MIN_RESOLUTION};
use crate::job::ChunkJob;
use crate::lod::{is_lod, MAX_LEVELS};
use crate::store::{TerrainChunk, UnloadedChunk};
use vstd::prelude::*;

verus! {

/// The terrain state as mathematics: the configuration, the pending set
/// and the resident chunks.
#[verifier::ext_equal]
pub struct TerrainView<M, E> {
    /// World units per chunk edge.
    pub chunk_size: int,
    /// The distance, in world units, up to which chunks are resident.
    pub max_range: int,
    /// Samples per chunk edge for each level of detail, finest first.
    pub detail: Seq<usize>,
    /// The coordinates with a job in flight.
    pub pending: Set<ChunkCoordinate>,
    /// The resident chunks.
    pub chunks: Map<ChunkCoordinate, TerrainChunk<M, E>>,
}

impl<M, E> TerrainView<M, E> {
    /// The configuration is well formed.
    pub open spec fn wf(self) -> bool {
        &&& 0 < self.chunk_size <= i32::MAX
        &&& 0 < self.max_range <= u32::MAX
        &&& 1 <= self.detail.len() <= MAX_LEVELS
        &&& forall|i: int|
            0 <= i < self.detail.len() ==> MIN_RESOLUTION <= #[trigger] self.detail[i]
                <= MAX_RESOLUTION
    }

    /// The chunk that holds the reference point.
    pub open spec fn origin(self, center: ReferencePoint) -> ChunkCoordinate {
        center.chunk(self.chunk_size)
    }

    /// Whether `c` should be resident while the reference point is at
    /// `center`.
    pub open spec fn desires(self, center: ReferencePoint, c: ChunkCoordinate) -> bool {
        c.desired(self.origin(center), self.chunk_size, self.max_range)
    }

    /// Whether `lod` is the level of detail of `c` while the reference
    /// point is at `center`.
    pub open spec fn has_lod(self, center: ReferencePoint, c: ChunkCoordinate, lod: int) -> bool {
        is_lod(
            lod,
            c.distance_squared(self.origin(center)),
            self.max_range,
            self.detail.len() as int,
        )
    }

    /// Whether `c` is resident with the level of detail it should have.
    pub open spec fn up_to_date(self, center: ReferencePoint, c: ChunkCoordinate) -> bool {
        self.chunks.contains_key(c) && self.has_lod(center, c, self.chunks[c].lod as int)
    }

    /// Whether a job has to be dispatched for `c`: it is desired, not
    /// pending, and missing or resident with another level of detail.
    pub open spec fn needs_job(self, center: ReferencePoint, c: ChunkCoordinate) -> bool {
        self.desires(center, c) && !self.pending.contains(c) && !self.up_to_date(center, c)
    }

    /// Whether no chunk is resident.
    pub open spec fn is_vacant(self) -> bool {
        forall|c: ChunkCoordinate| !self.chunks.contains_key(c)
    }

    /// The state after the unload sweep: the chunks farther than
    /// `max_range` from the snapped reference point are gone.
    pub open spec fn unloaded(self, center: ReferencePoint) -> Self {
        TerrainView {
            chunk_size: self.chunk_size,
            max_range: self.max_range,
            detail: self.detail,
            pending: self.pending,
            chunks: self.chunks.restrict(
                Set::new(
                    |c: ChunkCoordinate| c.within_range(self.origin(center), self.max_range),
                ),
            ),
        }
    }

    /// The state after the load scheduler ran: every coordinate that
    /// needed a job is pending.
    pub open spec fn loaded(self, center: ReferencePoint) -> Self {
        TerrainView {
            chunk_size: self.chunk_size,
            max_range: self.max_range,
            detail: self.detail,
            pending: self.pending.union(
                Set::new(|c: ChunkCoordinate| self.needs_job(center, c)),
            ),
            chunks: self.chunks,
        }
    }

    /// The state after one tick's sweep and scheduling.
    pub open spec fn ticked(self, center: ReferencePoint) -> Self {
        self.unloaded(center).loaded(center)
    }

    /// The state after a generation result was consumed: the coordinate
    /// is no longer pending, and its chunk has the result's level of
    /// detail and geometry. A resident chunk keeps its world object; a new
    /// chunk gets `entity`.
    pub open spec fn consumed(self, position: ChunkCoordinate, lod: usize, mesh: M, entity: E)
        -> Self {
        TerrainView {
            chunk_size: self.chunk_size,
            max_range: self.max_range,
            detail: self.detail,
            pending: self.pending.remove(position),
            chunks: self.chunks.insert(
                position,
                TerrainChunk {
                    lod,
                    mesh,
                    entity: if self.chunks.contains_key(position) {
                        self.chunks[position].entity
                    } else {
                        entity
                    },
                },
            ),
        }
    }

    /// Whether `jobs` are the jobs that the load scheduler dispatches
    /// from this state: one for each coordinate that needs one, in
    /// row-major order, with the level of detail of the coordinate and the
    /// resolution that the detail table gives it.
    pub open spec fn lists_jobs(self, jobs: Seq<ChunkJob>, center: ReferencePoint) -> bool {
        &&& forall|i: int, j: int|
            0 <= i < j < jobs.len() ==> (#[trigger] jobs[i]).position.precedes(
                (#[trigger] jobs[j]).position,
            )
        &&& forall|i: int|
            0 <= i < jobs.len() ==> {
                &&& self.needs_job(center, (#[trigger] jobs[i]).position)
                &&& self.has_lod(center, jobs[i].position, jobs[i].lod as int)
                &&& jobs[i].lod < self.detail.len()
                &&& jobs[i].resolution == self.detail[jobs[i].lod as int]
            }
        &&& forall|c: ChunkCoordinate| #[trigger]
            self.needs_job(center, c) ==> exists|i: int|
                0 <= i < jobs.len() && (#[trigger] jobs[i]).position == c
    }

    /// Whether `unloaded` are the chunks that the unload sweep takes out
    /// of this state: each resident chunk farther than `max_range` from
    /// the snapped reference point, once.
    pub open spec fn lists_unloaded(
        self,
        unloaded: Seq<UnloadedChunk<M, E>>,
        center: ReferencePoint,
    ) -> bool {
        &&& forall|i: int, j: int|
            0 <= i < j < unloaded.len() ==> (#[trigger] unloaded[i]).position
                != (#[trigger] unloaded[j]).position
        &&& forall|i: int|
            0 <= i < unloaded.len() ==> {
                &&& self.chunks.contains_key((#[trigger] unloaded[i]).position)
                &&& !unloaded[i].position.within_range(self.origin(center), self.max_range)
                &&& unloaded[i].chunk == self.chunks[unloaded[i].position]
            }
        &&& forall|c: ChunkCoordinate|
            self.chunks.contains_key(c) && !c.within_range(self.origin(center), self.max_range)
                ==> exists|i: int|
                0 <= i < unloaded.len() && (#[trigger] unloaded[i]).position == c
    }
}

} // verus!
