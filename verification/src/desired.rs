//! The desired set: which chunks should be resident around a reference
//! point, and at which level of detail.

use crate::grid::{
    chunk_span, lemma_chunk_span, lemma_grid_points_apart, lemma_snap_to_grid, lemma_square_order,
    ChunkCoordinate, ReferencePoint,
};
use crate::lod::{is_lod, lod_index, MAX_LEVELS};
use vstd::arithmetic::div_mod::lemma_mod_multiples_basic;
use vstd::prelude::*;

verus! {

/// A chunk that should be resident, with the level of detail it should
/// have.
#[derive(Clone, Copy, Debug, PartialEq, Eq, Structural)]
pub struct DesiredChunk {
    pub position: ChunkCoordinate,
    pub lod: usize,
}

/// Whether `list` is the desired set around the chunk `center`: every
/// coordinate on the grid within `max_range`, each once, in row-major
/// order, with its level of detail.
pub open spec fn lists_desired(
    list: Seq<DesiredChunk>,
    center: ChunkCoordinate,
    chunk_size: int,
    max_range: int,
    levels: int,
) -> bool {
    &&& forall|i: int, j: int|
        0 <= i < j < list.len() ==> (#[trigger] list[i]).position.precedes(
            (#[trigger] list[j]).position,
        )
    &&& forall|i: int|
        0 <= i < list.len() ==> {
            &&& (#[trigger] list[i]).position.desired(center, chunk_size, max_range)
            &&& is_lod(
                list[i].lod as int,
                list[i].position.distance_squared(center),
                max_range,
                levels,
            )
            &&& list[i].lod < levels
        }
    &&& forall|c: ChunkCoordinate| #[trigger]
        c.desired(center, chunk_size, max_range) ==> exists|i: int|
            0 <= i < list.len() && (#[trigger] list[i]).position == c
}

/// A coordinate within range is at most `max_range` away on each axis.
pub proof fn lemma_within_range_offsets(c: ChunkCoordinate, center: ChunkCoordinate, max_range: int)
    requires
        max_range >= 0,
        c.within_range(center, max_range),
    ensures
        -max_range <= c.x - center.x <= max_range,
        -max_range <= c.z - center.z <= max_range,
{
    let dx = c.x - center.x;
    let dz = c.z - center.z;
    let ax = if dx < 0 { -dx } else { dx };
    let az = if dz < 0 { -dz } else { dz };
    assert(ax * ax == dx * dx) by (nonlinear_arith)
        requires
            ax == dx || ax == -dx,
    ;
    assert(az * az == dz * dz) by (nonlinear_arith)
        requires
            az == dz || az == -dz,
    ;
    assert(0 <= ax * ax) by (nonlinear_arith);
    assert(0 <= az * az) by (nonlinear_arith);
    lemma_square_order(ax, max_range);
    lemma_square_order(az, max_range);
}

/// Whether `c` comes before the grid point at offsets `(ox, oz)` from
/// `center`, in row-major order.
pub open spec fn before_offsets(c: ChunkCoordinate, center: ChunkCoordinate, ox: int, oz: int)
    -> bool {
    c.x - center.x < ox || (c.x - center.x == ox && c.z - center.z < oz)
}

/// The desired set around `center`: snaps `center` to the grid, walks the
/// square of chunks that covers `max_range`, keeps the coordinates whose
/// distance is at most `max_range`, and gives each its level of detail.
pub fn desired_chunks(center: ReferencePoint, chunk_size: i32, max_range: u32, levels: usize) -> (desired:
    Vec<DesiredChunk>)
    requires
        chunk_size > 0,
        max_range > 0,
        1 <= levels <= MAX_LEVELS,
    ensures
        lists_desired(
            desired@,
            center.chunk(chunk_size as int),
            chunk_size as int,
            max_range as int,
            levels as int,
        ),
{
    let origin = center.snap(chunk_size);
    let size: i64 = chunk_size as i64;
    let span: i64 = (max_range as i64 + (size - 1)) / size;
    proof {
        lemma_chunk_span(max_range as int, size as int);
        lemma_snap_to_grid(center.x as int, size as int);
        lemma_snap_to_grid(center.z as int, size as int);
        assert(span == chunk_span(max_range as int, size as int));
        lemma_mod_multiples_basic(span as int, size as int);
        lemma_mod_multiples_basic(-(span as int), size as int);
        assert((-(span as int)) * (size as int) == -(span * size)) by (nonlinear_arith);
    }
    let reach: i64 = span * size;
    let mut desired: Vec<DesiredChunk> = Vec::new();
    let mut ox: i64 = -reach;
    proof {
        assert forall|c: ChunkCoordinate| #[trigger]
            c.desired(origin, size as int, max_range as int) implies !(c.x - origin.x < ox) by {
            lemma_within_range_offsets(c, origin, max_range as int);
        }
    }
    while ox <= reach
        invariant
            chunk_size > 0,
            size == chunk_size,
            max_range > 0,
            1 <= levels <= MAX_LEVELS,
            origin == center.chunk(chunk_size as int),
            -0x1_0000_0000 <= origin.x < 0x8000_0000,
            -0x1_0000_0000 <= origin.z < 0x8000_0000,
            max_range <= reach < max_range + size,
            (-(reach as int)) % (size as int) == 0,
            -reach <= ox <= reach + size,
            (ox as int) % (size as int) == 0,
            forall|i: int, j: int|
                0 <= i < j < desired@.len() ==> (#[trigger] desired@[i]).position.precedes(
                    (#[trigger] desired@[j]).position,
                ),
            forall|i: int|
                0 <= i < desired@.len() ==> {
                    &&& (#[trigger] desired@[i]).position.desired(
                        origin,
                        size as int,
                        max_range as int,
                    )
                    &&& is_lod(
                        desired@[i].lod as int,
                        desired@[i].position.distance_squared(origin),
                        max_range as int,
                        levels as int,
                    )
                    &&& desired@[i].lod < levels
                    &&& desired@[i].position.x - origin.x < ox
                },
            forall|c: ChunkCoordinate| #[trigger]
                c.desired(origin, size as int, max_range as int) && c.x - origin.x < ox
                    ==> exists|i: int|
                    0 <= i < desired@.len() && (#[trigger] desired@[i]).position == c,
        decreases reach + size - ox,
    {
        let mut oz: i64 = -reach;
        proof {
            assert forall|c: ChunkCoordinate| #[trigger]
                c.desired(origin, size as int, max_range as int) implies !(c.z - origin.z < oz) by {
                lemma_within_range_offsets(c, origin, max_range as int);
            }
        }
        while oz <= reach
            invariant
                chunk_size > 0,
                size == chunk_size,
                max_range > 0,
                1 <= levels <= MAX_LEVELS,
                -0x1_0000_0000 <= origin.x < 0x8000_0000,
                -0x1_0000_0000 <= origin.z < 0x8000_0000,
                max_range <= reach < max_range + size,
                -reach <= ox <= reach,
                (ox as int) % (size as int) == 0,
                -reach <= oz <= reach + size,
                (oz as int) % (size as int) == 0,
                forall|i: int, j: int|
                    0 <= i < j < desired@.len() ==> (#[trigger] desired@[i]).position.precedes(
                        (#[trigger] desired@[j]).position,
                    ),
                forall|i: int|
                    0 <= i < desired@.len() ==> {
                        &&& (#[trigger] desired@[i]).position.desired(
                            origin,
                            size as int,
                            max_range as int,
                        )
                        &&& is_lod(
                            desired@[i].lod as int,
                            desired@[i].position.distance_squared(origin),
                            max_range as int,
                            levels as int,
                        )
                        &&& desired@[i].lod < levels
                        &&& before_offsets(desired@[i].position, origin, ox as int, oz as int)
                    },
                forall|c: ChunkCoordinate| #[trigger]
                    c.desired(origin, size as int, max_range as int) && before_offsets(
                        c,
                        origin,
                        ox as int,
                        oz as int,
                    ) ==> exists|i: int|
                        0 <= i < desired@.len() && (#[trigger] desired@[i]).position == c,
            decreases reach + size - oz,
        {
            let position = ChunkCoordinate { x: origin.x + ox, z: origin.z + oz };
            let ghost before = desired@;
            match position.range_distance(&origin, max_range) {
                Some(distance) => {
                    let lod = lod_index(distance, max_range, levels);
                    desired.push(DesiredChunk { position, lod });
                },
                None => {},
            }
            proof {
                assert forall|c: ChunkCoordinate| #[trigger]
                    c.desired(origin, size as int, max_range as int) && before_offsets(
                        c,
                        origin,
                        ox as int,
                        oz + size,
                    ) implies exists|i: int|
                    0 <= i < desired@.len() && (#[trigger] desired@[i]).position == c by {
                    if before_offsets(c, origin, ox as int, oz as int) {
                        let i = choose|i: int|
                            0 <= i < before.len() && (#[trigger] before[i]).position == c;
                        assert(desired@[i].position == c);
                    } else {
                        lemma_grid_points_apart(oz as int, c.z - origin.z, size as int);
                        assert(c == position);
                        assert(desired@[desired@.len() - 1].position == c);
                    }
                }
                assert(((oz + size) as int) % (size as int) == 0) by {
                    vstd::arithmetic::div_mod::lemma_mod_adds(oz as int, size as int, size as int);
                    vstd::arithmetic::div_mod::lemma_mod_self_0(size as int);
                }
            }
            oz = oz + size;
        }
        proof {
            assert forall|c: ChunkCoordinate| #[trigger]
                c.desired(origin, size as int, max_range as int) && c.x - origin.x < ox + size
                implies exists|i: int|
                0 <= i < desired@.len() && (#[trigger] desired@[i]).position == c by {
                lemma_within_range_offsets(c, origin, max_range as int);
                if !(c.x - origin.x < ox) {
                    lemma_grid_points_apart(ox as int, c.x - origin.x, size as int);
                }
                assert(before_offsets(c, origin, ox as int, oz as int));
            }
            assert(((ox + size) as int) % (size as int) == 0) by {
                vstd::arithmetic::div_mod::lemma_mod_adds(ox as int, size as int, size as int);
                vstd::arithmetic::div_mod::lemma_mod_self_0(size as int);
            }
        }
        ox = ox + size;
    }
    proof {
        assert forall|c: ChunkCoordinate| #[trigger]
            c.desired(origin, size as int, max_range as int) implies exists|i: int|
            0 <= i < desired@.len() && (#[trigger] desired@[i]).position == c by {
            lemma_within_range_offsets(c, origin, max_range as int);
        }
    }
    desired
}

} // verus!
