//! The terrain service: the chunk store, the pending set and the load
//! scheduler, driven once per tick.
//!
//! The service decides; its caller acts. A tick hands the reference point
//! to `update_chunks`, releases the world objects of the chunks that came
//! back as unloaded, and runs the jobs of the plan. Each finished job is
//! handed to `consume`.

use crate::desired::{desired_chunks, lists_desired, DesiredChunk};
use crate::grid::{ChunkCoordinate, ReferencePoint};
use crate::height_map::{MAX_RESOLUTION, MIN_RESOLUTION};
use crate::job::ChunkJob;
use crate::lod::{lemma_lod_unique, MAX_LEVELS};
use crate::model::TerrainView;
use crate::pending::PendingSet;
use crate::store::{ChunkStore, TerrainChunk, UnloadedChunk};
use vstd::prelude::*;

verus! {

/// Why a configuration was refused.
#[derive(Clone, Copy, Debug, PartialEq, Eq, Structural)]
pub enum ConfigError {
    /// The chunk size is not positive.
    ChunkSize,
    /// The maximum range is zero.
    MaxRange,
    /// The detail table is empty or holds more than `MAX_LEVELS` levels.
    DetailLevels,
    /// A resolution of the detail table lies outside
    /// `MIN_RESOLUTION..=MAX_RESOLUTION`.
    Resolution,
}

/// The first fault of a configuration, if it has one.
pub open spec fn config_error(chunk_size: int, max_range: int, detail: Seq<usize>) -> Option<
    ConfigError,
> {
    if chunk_size <= 0 {
        Some(ConfigError::ChunkSize)
    } else if max_range == 0 {
        Some(ConfigError::MaxRange)
    } else if detail.len() == 0 || detail.len() > MAX_LEVELS {
        Some(ConfigError::DetailLevels)
    } else if exists|i: int|
        0 <= i < detail.len() && !(MIN_RESOLUTION <= #[trigger] detail[i] <= MAX_RESOLUTION) {
        Some(ConfigError::Resolution)
    } else {
        None
    }
}

/// What the caller has to do after the sweep and the scheduling of a
/// tick.
pub struct LoadPlan {
    /// Whether the jobs run before the tick goes on, so that their results
    /// are consumed in the same tick. It is set when no chunk is resident.
    pub synchronous: bool,
    /// The jobs to run, in dispatch order.
    pub jobs: Vec<ChunkJob>,
}

/// The outcome of a tick's decisions.
pub struct Tick<M, E> {
    /// The chunks that left the store; their world objects are to be
    /// released.
    pub unloaded: Vec<UnloadedChunk<M, E>>,
    /// The jobs to run.
    pub plan: LoadPlan,
}

/// The streamed terrain: configuration, pending set and chunk store.
pub struct TerrainChunks<M, E> {
    chunk_size: i32,
    max_range: u32,
    detail: Vec<usize>,
    queue: PendingSet,
    chunks: ChunkStore<M, E>,
}

impl<M, E> View for TerrainChunks<M, E> {
    type V = TerrainView<M, E>;

    closed spec fn view(&self) -> TerrainView<M, E> {
        TerrainView {
            chunk_size: self.chunk_size as int,
            max_range: self.max_range as int,
            detail: self.detail@,
            pending: self.queue@,
            chunks: self.chunks@,
        }
    }
}

impl<M, E> TerrainChunks<M, E> {
    /// The configuration is well formed.
    pub open spec fn wf(&self) -> bool {
        self@.wf()
    }

    /// A terrain without chunks and without pending jobs.
    pub fn new(chunk_size: i32, max_range: u32, detail: Vec<usize>) -> (terrain: Result<
        Self,
        ConfigError,
    >)
        ensures
            terrain is Ok <==> config_error(chunk_size as int, max_range as int, detail@) is None,
            terrain matches Err(e) ==> config_error(chunk_size as int, max_range as int, detail@)
                == Some(e),
            terrain matches Ok(t) ==> t.wf() && t@ == (TerrainView::<M, E> {
                chunk_size: chunk_size as int,
                max_range: max_range as int,
                detail: detail@,
                pending: Set::empty(),
                chunks: Map::empty(),
            }),
    {
        if chunk_size <= 0 {
            return Err(ConfigError::ChunkSize);
        }
        if max_range == 0 {
            return Err(ConfigError::MaxRange);
        }
        if detail.len() == 0 || detail.len() > MAX_LEVELS {
            return Err(ConfigError::DetailLevels);
        }
        let mut level: usize = 0;
        while level < detail.len()
            invariant
                chunk_size > 0,
                max_range > 0,
                1 <= detail.len() <= MAX_LEVELS,
                level <= detail.len(),
                forall|i: int|
                    0 <= i < level ==> MIN_RESOLUTION <= #[trigger] detail@[i] <= MAX_RESOLUTION,
            decreases detail.len() - level,
        {
            if detail[level] < MIN_RESOLUTION || detail[level] > MAX_RESOLUTION {
                assert(!(MIN_RESOLUTION <= detail@[level as int] <= MAX_RESOLUTION));
                return Err(ConfigError::Resolution);
            }
            level = level + 1;
        }
        Ok(
            TerrainChunks {
                chunk_size,
                max_range,
                detail,
                queue: PendingSet::new(),
                chunks: ChunkStore::new(),
            },
        )
    }

    /// World units per chunk edge.
    pub fn chunk_size(&self) -> (chunk_size: i32)
        ensures
            chunk_size == self@.chunk_size,
    {
        self.chunk_size
    }

    /// The distance up to which chunks are resident.
    pub fn max_range(&self) -> (max_range: u32)
        ensures
            max_range == self@.max_range,
    {
        self.max_range
    }

    /// Samples per chunk edge for each level of detail, finest first.
    pub fn detail(&self) -> (detail: &Vec<usize>)
        ensures
            detail@ == self@.detail,
    {
        &self.detail
    }

    /// Whether a job for `position` is in flight.
    pub fn is_pending(&self, position: &ChunkCoordinate) -> (pending: bool)
        ensures
            pending == self@.pending.contains(*position),
    {
        self.queue.contains(position)
    }

    /// The resident chunk at `position`.
    pub fn chunk(&self, position: &ChunkCoordinate) -> (found: Option<&TerrainChunk<M, E>>)
        ensures
            found is Some <==> self@.chunks.contains_key(*position),
            found matches Some(chunk) ==> *chunk == self@.chunks[*position],
    {
        self.chunks.get(position)
    }

    /// Whether no chunk is resident.
    pub fn is_empty(&self) -> (empty: bool)
        ensures
            empty == self@.is_vacant(),
    {
        let empty = self.chunks.is_empty();
        assert(self@.chunks == self.chunks@);
        empty
    }

    /// The coordinates of the resident chunks, each once, in no particular
    /// order.
    pub fn positions(&self) -> (positions: Vec<ChunkCoordinate>)
        ensures
            positions@.no_duplicates(),
            forall|c: ChunkCoordinate| positions@.contains(c) <==> self@.chunks.contains_key(c),
    {
        self.chunks.positions()
    }

    /// The desired set around `center`.
    pub fn desired_chunks(&self, center: ReferencePoint) -> (desired: Vec<DesiredChunk>)
        requires
            self.wf(),
        ensures
            lists_desired(
                desired@,
                self@.origin(center),
                self@.chunk_size,
                self@.max_range,
                self@.detail.len() as int,
            ),
    {
        desired_chunks(center, self.chunk_size, self.max_range, self.detail.len())
    }

    /// The unload sweep: takes every chunk farther than the maximum range
    /// from the snapped reference point out of the store, and hands it
    /// back.
    pub fn unload_chunks(&mut self, center: ReferencePoint) -> (unloaded: Vec<UnloadedChunk<M, E>>)
        requires
            old(self).wf(),
        ensures
            final(self)@ == old(self)@.unloaded(center),
            old(self)@.lists_unloaded(unloaded@, center),
    {
        let origin = center.snap(self.chunk_size);
        let positions = self.chunks.positions();
        let mut unloaded: Vec<UnloadedChunk<M, E>> = Vec::new();
        let ghost before = self@;
        let mut i: usize = 0;
        assert forall|j: int| 0 <= j < positions@.len() implies self@.chunks.contains_key(
            #[trigger] positions@[j],
        ) by {
            assert(positions@.contains(positions@[j]));
        }
        while i < positions.len()
            invariant
                i <= positions.len(),
                before.wf(),
                before == old(self)@,
                origin == before.origin(center),
                positions@.no_duplicates(),
                forall|c: ChunkCoordinate|
                    positions@.contains(c) <==> before.chunks.contains_key(c),
                self@.chunk_size == before.chunk_size,
                self@.max_range == before.max_range,
                self@.detail == before.detail,
                self@.pending == before.pending,
                forall|c: ChunkCoordinate| #[trigger]
                    self@.chunks.contains_key(c) ==> before.chunks.contains_key(c)
                        && self@.chunks[c] == before.chunks[c],
                forall|j: int|
                    0 <= j < positions@.len() ==> (self@.chunks.contains_key(
                        #[trigger] positions@[j],
                    ) <==> (j >= i || positions@[j].within_range(origin, before.max_range))),
                forall|k: int|
                    0 <= k < unloaded@.len() ==> {
                        &&& before.chunks.contains_key((#[trigger] unloaded@[k]).position)
                        &&& !unloaded@[k].position.within_range(origin, before.max_range)
                        &&& unloaded@[k].chunk == before.chunks[unloaded@[k].position]
                    },
                forall|k: int, j: int|
                    0 <= k < unloaded@.len() && i <= j < positions@.len() ==> (
                    #[trigger] unloaded@[k]).position != #[trigger] positions@[j],
                forall|k: int, l: int|
                    0 <= k < l < unloaded@.len() ==> (#[trigger] unloaded@[k]).position != (
                    #[trigger] unloaded@[l]).position,
                forall|j: int|
                    0 <= j < i && !(#[trigger] positions@[j]).within_range(origin, before.max_range)
                        ==> exists|k: int|
                        0 <= k < unloaded@.len() && (#[trigger] unloaded@[k]).position
                            == positions@[j],
            decreases positions.len() - i,
        {
            let position = positions[i];
            let ghost listed = unloaded@;
            if !position.is_within_range(&origin, self.max_range) {
                match self.chunks.remove(&position) {
                    Some(chunk) => {
                        unloaded.push(UnloadedChunk { position, chunk });
                    },
                    None => {},
                }
            }
            proof {
                assert(positions@.contains(position));
                assert forall|j: int|
                    0 <= j < i + 1 && !(#[trigger] positions@[j]).within_range(
                        origin,
                        before.max_range,
                    ) implies exists|k: int|
                    0 <= k < unloaded@.len() && (#[trigger] unloaded@[k]).position
                        == positions@[j] by {
                    if j < i {
                        let k = choose|k: int|
                            0 <= k < listed.len() && (#[trigger] listed[k]).position
                                == positions@[j];
                        assert(unloaded@[k].position == positions@[j]);
                    } else {
                        assert(unloaded@[unloaded@.len() - 1].position == positions@[j]);
                    }
                }
            }
            i = i + 1;
        }
        proof {
            let after = before.unloaded(center);
            assert forall|c: ChunkCoordinate|
                self@.chunks.contains_key(c) <==> after.chunks.contains_key(c) by {
                if before.chunks.contains_key(c) {
                    assert(positions@.contains(c));
                    let j = choose|j: int| 0 <= j < positions@.len() && positions@[j] == c;
                    assert(self@.chunks.contains_key(positions@[j]) <==> positions@[j].within_range(
                        origin,
                        before.max_range,
                    ));
                }
            }
            assert(self@.chunks =~= after.chunks);
            assert forall|c: ChunkCoordinate|
                before.chunks.contains_key(c) && !c.within_range(
                    before.origin(center),
                    before.max_range,
                ) implies exists|k: int|
                0 <= k < unloaded@.len() && (#[trigger] unloaded@[k]).position == c by {
                assert(positions@.contains(c));
                let j = choose|j: int| 0 <= j < positions@.len() && positions@[j] == c;
                assert(!positions@[j].within_range(origin, before.max_range));
            }
        }
        unloaded
    }

    /// The load scheduler: computes the desired set around `center` and
    /// dispatches a job for each desired coordinate that is neither
    /// pending nor resident with its level of detail. Each dispatched
    /// coordinate becomes pending.
    pub fn load_chunks(&mut self, center: ReferencePoint) -> (plan: LoadPlan)
        requires
            old(self).wf(),
        ensures
            final(self)@ == old(self)@.loaded(center),
            plan.synchronous == old(self)@.is_vacant(),
            old(self)@.lists_jobs(plan.jobs@, center),
    {
        let synchronous = self.chunks.is_empty();
        let desired = desired_chunks(center, self.chunk_size, self.max_range, self.detail.len());
        let mut jobs: Vec<ChunkJob> = Vec::new();
        let ghost before = self@;
        let ghost origin = before.origin(center);
        let mut i: usize = 0;
        while i < desired.len()
            invariant
                i <= desired.len(),
                before.wf(),
                before == old(self)@,
                origin == before.origin(center),
                lists_desired(
                    desired@,
                    origin,
                    before.chunk_size,
                    before.max_range,
                    before.detail.len() as int,
                ),
                self@.chunk_size == before.chunk_size,
                self@.max_range == before.max_range,
                self@.detail == before.detail,
                self@.chunks == before.chunks,
                forall|c: ChunkCoordinate|
                    self@.pending.contains(c) <==> (before.pending.contains(c) || exists|k: int|
                        0 <= k < jobs@.len() && (#[trigger] jobs@[k]).position == c),
                forall|k: int, l: int|
                    0 <= k < l < jobs@.len() ==> (#[trigger] jobs@[k]).position.precedes(
                        (#[trigger] jobs@[l]).position,
                    ),
                forall|k: int, j: int|
                    0 <= k < jobs@.len() && i <= j < desired@.len() ==> (
                    #[trigger] jobs@[k]).position.precedes((#[trigger] desired@[j]).position),
                forall|k: int|
                    0 <= k < jobs@.len() ==> {
                        &&& before.needs_job(center, (#[trigger] jobs@[k]).position)
                        &&& before.has_lod(center, jobs@[k].position, jobs@[k].lod as int)
                        &&& jobs@[k].lod < before.detail.len()
                        &&& jobs@[k].resolution == before.detail[jobs@[k].lod as int]
                    },
                forall|j: int|
                    0 <= j < i && before.needs_job(center, (#[trigger] desired@[j]).position)
                        ==> exists|k: int|
                        0 <= k < jobs@.len() && (#[trigger] jobs@[k]).position
                            == desired@[j].position,
            decreases desired.len() - i,
        {
            let wanted = desired[i];
            let ghost listed = jobs@;
            let ghost pending = self@.pending;
            proof {
                // No job so far is for this coordinate.
                assert forall|k: int| 0 <= k < jobs@.len() implies (#[trigger] jobs@[k]).position
                    != wanted.position by {
                    assert(jobs@[k].position.precedes(desired@[i as int].position));
                }
                assert(pending.contains(wanted.position) <==> before.pending.contains(
                    wanted.position,
                ));
            }
            let stale = match self.chunks.get(&wanted.position) {
                Some(chunk) => chunk.lod != wanted.lod,
                None => true,
            };
            proof {
                if before.chunks.contains_key(wanted.position) && before.has_lod(
                    center,
                    wanted.position,
                    before.chunks[wanted.position].lod as int,
                ) {
                    lemma_lod_unique(
                        before.chunks[wanted.position].lod as int,
                        wanted.lod as int,
                        wanted.position.distance_squared(origin),
                        before.max_range,
                        before.detail.len() as int,
                    );
                }
                assert(stale <==> !before.up_to_date(center, wanted.position));
            }
            if stale && !self.queue.contains(&wanted.position) {
                let resolution = self.detail[wanted.lod];
                self.queue.insert(wanted.position);
                jobs.push(ChunkJob { position: wanted.position, lod: wanted.lod, resolution });
                proof {
                    assert(jobs@[jobs@.len() - 1].position == wanted.position);
                    assert forall|c: ChunkCoordinate|
                        self@.pending.contains(c) <==> (before.pending.contains(c) || exists|k: int|
                            0 <= k < jobs@.len() && (#[trigger] jobs@[k]).position == c) by {
                        if pending.contains(c) && !before.pending.contains(c) {
                            let k = choose|k: int|
                                0 <= k < listed.len() && (#[trigger] listed[k]).position == c;
                            assert(jobs@[k].position == c);
                        }
                        if exists|k: int|
                            0 <= k < jobs@.len() && (#[trigger] jobs@[k]).position == c {
                            let k = choose|k: int|
                                0 <= k < jobs@.len() && (#[trigger] jobs@[k]).position == c;
                            if k < listed.len() {
                                assert(listed[k].position == c);
                            }
                        }
                    }
                }
            }
            proof {
                assert forall|j: int|
                    0 <= j < i + 1 && before.needs_job(
                        center,
                        (#[trigger] desired@[j]).position,
                    ) implies exists|k: int|
                    0 <= k < jobs@.len() && (#[trigger] jobs@[k]).position
                        == desired@[j].position by {
                    if j < i {
                        let k = choose|k: int|
                            0 <= k < listed.len() && (#[trigger] listed[k]).position
                                == desired@[j].position;
                        assert(jobs@[k].position == desired@[j].position);
                    } else {
                        assert(jobs@[jobs@.len() - 1].position == desired@[j].position);
                    }
                }
            }
            i = i + 1;
        }
        proof {
            assert forall|c: ChunkCoordinate| #[trigger]
                before.needs_job(center, c) implies exists|k: int|
                0 <= k < jobs@.len() && (#[trigger] jobs@[k]).position == c by {
                assert(c.desired(origin, before.chunk_size, before.max_range));
                let j = choose|j: int|
                    0 <= j < desired@.len() && (#[trigger] desired@[j]).position == c;
                assert(before.needs_job(center, desired@[j].position));
            }
            assert(self@.pending =~= before.loaded(center).pending);
        }
        LoadPlan { synchronous, jobs }
    }

    /// The decisions of one tick: the unload sweep, then the load
    /// scheduler.
    pub fn update_chunks(&mut self, center: ReferencePoint) -> (tick: Tick<M, E>)
        requires
            old(self).wf(),
        ensures
            final(self)@ == old(self)@.ticked(center),
            old(self)@.lists_unloaded(tick.unloaded@, center),
            old(self)@.unloaded(center).lists_jobs(tick.plan.jobs@, center),
            tick.plan.synchronous == old(self)@.unloaded(center).is_vacant(),
    {
        let unloaded = self.unload_chunks(center);
        let plan = self.load_chunks(center);
        Tick { unloaded, plan }
    }

    /// Consumes the result of a generation job. The coordinate is no
    /// longer pending. A resident chunk takes the result's level of detail
    /// and geometry and keeps its world object; otherwise a chunk is
    /// created with `entity` as its world object. Returns whether the
    /// chunk was created.
    pub fn consume(&mut self, position: ChunkCoordinate, lod: usize, mesh: M, entity: E) -> (created:
        bool)
        ensures
            final(self)@ == old(self)@.consumed(position, lod, mesh, entity),
            created == !old(self)@.chunks.contains_key(position),
    {
        self.queue.remove(&position);
        match self.chunks.remove(&position) {
            Some(resident) => {
                let chunk = TerrainChunk { lod, mesh, entity: resident.entity };
                self.chunks.insert(position, chunk);
                assert(self@.chunks =~= old(self)@.consumed(position, lod, mesh, entity).chunks);
                false
            },
            None => {
                self.chunks.insert(position, TerrainChunk { lod, mesh, entity });
                assert(self@.chunks =~= old(self)@.consumed(position, lod, mesh, entity).chunks);
                true
            },
        }
    }
}

impl<M, E> Default for TerrainChunks<M, E> {
    /// Chunks of 50 units, resident up to 2000 units, in seven levels of
    /// detail.
    fn default() -> (terrain: Self)
        ensures
            terrain.wf(),
            terrain@ == (TerrainView::<M, E> {
                chunk_size: 50,
                max_range: 2000,
                detail: seq![75usize, 50, 25, 15, 10, 5, 3],
                pending: Set::empty(),
                chunks: Map::empty(),
            }),
    {
        let mut detail: Vec<usize> = Vec::new();
        detail.push(75);
        detail.push(50);
        detail.push(25);
        detail.push(15);
        detail.push(10);
        detail.push(5);
        detail.push(3);
        assert(detail@ =~= seq![75usize, 50, 25, 15, 10, 5, 3]);
        TerrainChunks {
            chunk_size: 50,
            max_range: 2000,
            detail,
            queue: PendingSet::new(),
            chunks: ChunkStore::new(),
        }
    }
}

} // verus!
