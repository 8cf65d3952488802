//! What holds of the terrain state across operations.

use crate::grid::{lemma_snap_to_grid, ChunkCoordinate, ReferencePoint};
use crate::job::ChunkJob;
use crate::model::TerrainView;
use vstd::arithmetic::div_mod::{lemma_fundamental_div_mod, lemma_mod_multiples_vanish};
use vstd::prelude::*;

verus! {

/// A generation result as it reaches `consume`.
pub struct Consumption<M, E> {
    pub position: ChunkCoordinate,
    pub lod: usize,
    pub mesh: M,
    pub entity: E,
}

impl<M, E> TerrainView<M, E> {
    /// The state after `results` were consumed one after the other.
    pub open spec fn consumed_all(self, results: Seq<Consumption<M, E>>) -> Self
        decreases results.len(),
    {
        if results.len() == 0 {
            self
        } else {
            let last = results.last();
            self.consumed_all(results.drop_last()).consumed(
                last.position,
                last.lod,
                last.mesh,
                last.entity,
            )
        }
    }
}

/// Whether both axes of `c` are multiples of the chunk size.
pub open spec fn aligned(c: ChunkCoordinate, chunk_size: int) -> bool {
    (c.x as int) % chunk_size == 0 && (c.z as int) % chunk_size == 0
}

impl<M, E> TerrainView<M, E> {
    /// Whether every pending and every resident coordinate is a multiple
    /// of the chunk size on both axes.
    pub open spec fn gridded(self) -> bool {
        forall|c: ChunkCoordinate|
            self.pending.contains(c) || self.chunks.contains_key(c) ==> aligned(c, self.chunk_size)
    }
}

/// The grid around a snapped reference point is the grid of the multiples
/// of the chunk size, wherever the reference point is.
pub proof fn lemma_one_grid(center: ReferencePoint, chunk_size: int, c: ChunkCoordinate)
    requires
        0 < chunk_size <= i32::MAX,
    ensures
        c.on_grid(center.chunk(chunk_size), chunk_size) <==> aligned(c, chunk_size),
{
    let origin = center.chunk(chunk_size);
    lemma_snap_to_grid(center.x as int, chunk_size);
    lemma_snap_to_grid(center.z as int, chunk_size);
    lemma_fundamental_div_mod(origin.x as int, chunk_size);
    lemma_fundamental_div_mod(origin.z as int, chunk_size);
    lemma_mod_multiples_vanish(-(origin.x as int / chunk_size), c.x as int, chunk_size);
    lemma_mod_multiples_vanish(-(origin.z as int / chunk_size), c.z as int, chunk_size);
    assert(chunk_size * (-(origin.x as int / chunk_size)) + c.x == c.x - origin.x)
        by (nonlinear_arith)
        requires
            origin.x == chunk_size * (origin.x as int / chunk_size),
    ;
    assert(chunk_size * (-(origin.z as int / chunk_size)) + c.z == c.z - origin.z)
        by (nonlinear_arith)
        requires
            origin.z == chunk_size * (origin.z as int / chunk_size),
    ;
}

/// The terrain stays on one grid. Every job is for a multiple of the
/// chunk size; so if the pending and the resident coordinates are such
/// multiples, they still are after a tick and after a job's result was
/// consumed, and every resident chunk lies on the grid around every
/// reference point.
pub proof fn law_grid_is_kept<M, E>(
    state: TerrainView<M, E>,
    center: ReferencePoint,
    result: Consumption<M, E>,
)
    requires
        state.wf(),
        state.gridded(),
    ensures
        forall|c: ChunkCoordinate| #[trigger]
            state.needs_job(center, c) ==> aligned(c, state.chunk_size),
        state.unloaded(center).gridded(),
        state.loaded(center).gridded(),
        state.ticked(center).gridded(),
        aligned(result.position, state.chunk_size) ==> state.consumed(
            result.position,
            result.lod,
            result.mesh,
            result.entity,
        ).gridded(),
        forall|c: ChunkCoordinate| #[trigger]
            state.chunks.contains_key(c) ==> c.on_grid(state.origin(center), state.chunk_size),
{
    assert forall|c: ChunkCoordinate|
        c.on_grid(state.origin(center), state.chunk_size) <==> aligned(c, state.chunk_size) by {
        lemma_one_grid(center, state.chunk_size, c);
    }
    assert(state.unloaded(center).gridded());
    assert(state.loaded(center).gridded());
    assert(state.unloaded(center).wf());
    assert forall|c: ChunkCoordinate| #[trigger]
        state.unloaded(center).needs_job(center, c) implies aligned(c, state.chunk_size) by {
        lemma_one_grid(center, state.chunk_size, c);
    }
    assert(state.ticked(center).gridded());
    assert forall|c: ChunkCoordinate| #[trigger] state.chunks.contains_key(c) implies c.on_grid(
        state.origin(center),
        state.chunk_size,
    ) by {
        lemma_one_grid(center, state.chunk_size, c);
        assert(aligned(c, state.chunk_size));
    }
}

/// Whether one of `results` is for `c`.
pub open spec fn names<M, E>(results: Seq<Consumption<M, E>>, c: ChunkCoordinate) -> bool {
    exists|i: int| 0 <= i < results.len() && (#[trigger] results[i]).position == c
}

/// Consuming results leaves the configuration alone, takes their
/// coordinates out of the pending set and makes them resident; no other
/// coordinate changes sides.
pub proof fn lemma_consumed_all<M, E>(state: TerrainView<M, E>, results: Seq<Consumption<M, E>>)
    ensures
        state.consumed_all(results).chunk_size == state.chunk_size,
        state.consumed_all(results).max_range == state.max_range,
        state.consumed_all(results).detail == state.detail,
        forall|c: ChunkCoordinate|
            #![trigger state.consumed_all(results).pending.contains(c)]
            #![trigger names(results, c)]
            state.consumed_all(results).pending.contains(c) <==> (state.pending.contains(c)
                && !names(results, c)),
        forall|c: ChunkCoordinate|
            #![trigger state.consumed_all(results).chunks.contains_key(c)]
            #![trigger names(results, c)]
            state.consumed_all(results).chunks.contains_key(c) <==> (state.chunks.contains_key(c)
                || names(results, c)),
    decreases results.len(),
{
    if results.len() > 0 {
        let front = results.drop_last();
        let last = results.last();
        lemma_consumed_all(state, front);
        assert forall|c: ChunkCoordinate| names(results, c) <==> (names(front, c) || last.position
            == c) by {
            if names(front, c) {
                let i = choose|i: int| 0 <= i < front.len() && (#[trigger] front[i]).position == c;
                assert(results[i].position == c);
            }
            if last.position == c {
                assert(results[results.len() - 1].position == c);
            }
            if names(results, c) {
                let i = choose|i: int|
                    0 <= i < results.len() && (#[trigger] results[i]).position == c;
                if i < front.len() {
                    assert(front[i].position == c);
                }
            }
        }
    }
}

/// Residency after a drain. Take a state in which every job in flight is
/// for a coordinate that is desired around `center`, and in which the
/// resident chunks within range lie on the grid. After the tick for
/// `center`, once a result was consumed for each pending coordinate, in
/// any order and any number of times, the resident chunks are exactly the
/// coordinates on the grid within the maximum range of the snapped
/// reference point, and nothing is pending.
pub proof fn law_residency_after_drain<M, E>(
    state: TerrainView<M, E>,
    center: ReferencePoint,
    results: Seq<Consumption<M, E>>,
)
    requires
        state.wf(),
        forall|c: ChunkCoordinate| state.pending.contains(c) ==> state.desires(center, c),
        forall|c: ChunkCoordinate|
            state.chunks.contains_key(c) && c.within_range(state.origin(center), state.max_range)
                ==> c.on_grid(state.origin(center), state.chunk_size),
        forall|c: ChunkCoordinate| state.ticked(center).pending.contains(c) <==> names(results, c),
    ensures
        forall|c: ChunkCoordinate|
            state.ticked(center).consumed_all(results).chunks.contains_key(c) <==> state.desires(
                center,
                c,
            ),
        state.ticked(center).consumed_all(results).pending == Set::<ChunkCoordinate>::empty(),
{
    let swept = state.unloaded(center);
    let ticked = state.ticked(center);
    let end = ticked.consumed_all(results);
    lemma_consumed_all(ticked, results);
    assert forall|c: ChunkCoordinate| end.chunks.contains_key(c) <==> state.desires(center, c) by {
        if state.desires(center, c) && !ticked.chunks.contains_key(c) {
            assert(!swept.up_to_date(center, c));
            if !swept.pending.contains(c) {
                assert(swept.needs_job(center, c));
            }
            assert(ticked.pending.contains(c));
        }
        if names(results, c) {
            assert(ticked.pending.contains(c));
            if !state.pending.contains(c) {
                assert(swept.needs_job(center, c));
            }
        }
    }
    assert forall|c: ChunkCoordinate| !end.pending.contains(c) by {
        if ticked.pending.contains(c) {
            assert(names(results, c));
        }
    }
    assert(end.pending =~= Set::<ChunkCoordinate>::empty());
}

/// One job per coordinate. The jobs of a load are for distinct
/// coordinates, none of which was pending, and all of which are pending
/// afterwards. Until a result is consumed, no later load, around whatever
/// reference point, dispatches a job for a pending coordinate; and a load
/// around the same reference point dispatches nothing and changes nothing.
pub proof fn law_single_pending_job<M, E>(
    state: TerrainView<M, E>,
    center: ReferencePoint,
    jobs: Seq<ChunkJob>,
    later_center: ReferencePoint,
)
    requires
        state.lists_jobs(jobs, center),
    ensures
        forall|i: int, j: int|
            0 <= i < j < jobs.len() ==> (#[trigger] jobs[i]).position != (
            #[trigger] jobs[j]).position,
        forall|i: int|
            0 <= i < jobs.len() ==> !state.pending.contains((#[trigger] jobs[i]).position)
                && state.loaded(center).pending.contains(jobs[i].position),
        forall|c: ChunkCoordinate|
            state.loaded(center).pending.contains(c) ==> !state.loaded(center).needs_job(
                later_center,
                c,
            ),
        forall|c: ChunkCoordinate| !state.loaded(center).needs_job(center, c),
        state.loaded(center).lists_jobs(Seq::<ChunkJob>::empty(), center),
        state.loaded(center).loaded(center) == state.loaded(center),
{
    let loaded = state.loaded(center);
    assert forall|c: ChunkCoordinate| !loaded.needs_job(center, c) by {
        if state.needs_job(center, c) {
            assert(loaded.pending.contains(c));
        }
    }
    assert(loaded.loaded(center).pending =~= loaded.pending);
}

/// Consuming is an idempotent upsert. Two results for one coordinate with
/// one level of detail, consumed in either order, leave the same pending
/// set, the same resident coordinates and the same chunks elsewhere. At
/// the coordinate there is one chunk with that level of detail, the
/// geometry of the result that came last and the world object that the
/// chunk had after the first result: the one it had before if it was
/// resident. Consuming the same result again changes nothing.
pub proof fn law_consume_is_idempotent<M, E>(
    state: TerrainView<M, E>,
    position: ChunkCoordinate,
    lod: usize,
    mesh: M,
    entity: E,
    other_mesh: M,
    other_entity: E,
)
    ensures
        ({
            let first = state.consumed(position, lod, mesh, entity);
            let one_way = first.consumed(position, lod, other_mesh, other_entity);
            let second = state.consumed(position, lod, other_mesh, other_entity);
            let other_way = second.consumed(position, lod, mesh, entity);
            &&& one_way.pending == other_way.pending
            &&& one_way.pending == state.pending.remove(position)
            &&& one_way.chunks.dom() == other_way.chunks.dom()
            &&& one_way.chunks.dom() == state.chunks.dom().insert(position)
            &&& one_way.chunks.remove(position) == other_way.chunks.remove(position)
            &&& one_way.chunks.remove(position) == state.chunks.remove(position)
            &&& one_way.chunks[position].lod == lod
            &&& other_way.chunks[position].lod == lod
            &&& one_way.chunks[position].mesh == other_mesh
            &&& other_way.chunks[position].mesh == mesh
            &&& one_way.chunks[position].entity == first.chunks[position].entity
            &&& other_way.chunks[position].entity == second.chunks[position].entity
            &&& state.chunks.contains_key(position) ==> {
                &&& one_way.chunks[position].entity == state.chunks[position].entity
                &&& other_way.chunks[position].entity == state.chunks[position].entity
            }
            &&& first.consumed(position, lod, mesh, other_entity) == first
        }),
{
    let first = state.consumed(position, lod, mesh, entity);
    let one_way = first.consumed(position, lod, other_mesh, other_entity);
    let second = state.consumed(position, lod, other_mesh, other_entity);
    let other_way = second.consumed(position, lod, mesh, entity);
    assert(one_way.pending =~= other_way.pending);
    assert(one_way.pending =~= state.pending.remove(position));
    assert(one_way.chunks.dom() =~= other_way.chunks.dom());
    assert(one_way.chunks.dom() =~= state.chunks.dom().insert(position));
    assert(one_way.chunks.remove(position) =~= other_way.chunks.remove(position));
    assert(one_way.chunks.remove(position) =~= state.chunks.remove(position));
    let again = first.consumed(position, lod, mesh, other_entity);
    assert(again.pending =~= first.pending);
    assert(again.chunks =~= first.chunks);
}

/// Results for different coordinates may arrive in any order: consuming
/// them one way round or the other gives the same state.
pub proof fn law_results_commute<M, E>(
    state: TerrainView<M, E>,
    one: Consumption<M, E>,
    other: Consumption<M, E>,
)
    requires
        one.position != other.position,
    ensures
        state.consumed(one.position, one.lod, one.mesh, one.entity).consumed(
            other.position,
            other.lod,
            other.mesh,
            other.entity,
        ) == state.consumed(other.position, other.lod, other.mesh, other.entity).consumed(
            one.position,
            one.lod,
            one.mesh,
            one.entity,
        ),
{
    let one_way = state.consumed(one.position, one.lod, one.mesh, one.entity).consumed(
        other.position,
        other.lod,
        other.mesh,
        other.entity,
    );
    let other_way = state.consumed(other.position, other.lod, other.mesh, other.entity).consumed(
        one.position,
        one.lod,
        one.mesh,
        one.entity,
    );
    assert(one_way.pending =~= other_way.pending);
    assert(one_way.chunks =~= other_way.chunks);
}

/// The unload sweep and the load scheduler leave the resident chunks'
/// world objects alone, and consuming a result changes the world object
/// of no resident chunk: a chunk keeps the world object it was created
/// with for as long as it is resident.
pub proof fn law_world_object_is_kept<M, E>(
    state: TerrainView<M, E>,
    center: ReferencePoint,
    result: Consumption<M, E>,
    c: ChunkCoordinate,
)
    requires
        state.chunks.contains_key(c),
    ensures
        state.loaded(center).chunks[c] == state.chunks[c],
        state.unloaded(center).chunks.contains_key(c) ==> state.unloaded(center).chunks[c]
            == state.chunks[c],
        state.consumed(result.position, result.lod, result.mesh, result.entity).chunks.contains_key(
            c,
        ),
        state.consumed(result.position, result.lod, result.mesh, result.entity).chunks[c].entity
            == state.chunks[c].entity,
{
}

} // verus!
