//! The chunk grid: reference points, chunk coordinates, snapping and the
//! range test, all in exact integer arithmetic.

use vstd::arithmetic::div_mod::{lemma_fundamental_div_mod, lemma_mod_multiples_basic};
use vstd::prelude::*;

verus! {

/// The world position, in whole units, around which terrain is streamed.
#[derive(Clone, Copy, Debug, PartialEq, Eq, Structural)]
pub struct ReferencePoint {
    pub x: i32,
    pub z: i32,
}

/// The origin of a chunk on the horizontal plane, in world units.
///
/// Coordinates are 64 bits wide so that every chunk around any reference
/// point has a coordinate.
#[derive(Clone, Copy, Debug, PartialEq, Eq, Hash, Structural)]
pub struct ChunkCoordinate {
    pub x: i64,
    pub z: i64,
}

/// The largest multiple of `chunk_size` that does not exceed `value`.
pub open spec fn snap_to_grid(value: int, chunk_size: int) -> int {
    (value / chunk_size) * chunk_size
}

/// The number of chunks, per axis and direction, that cover `max_range`:
/// `max_range / chunk_size`, rounded up.
pub open spec fn chunk_span(max_range: int, chunk_size: int) -> int {
    (max_range + chunk_size - 1) / chunk_size
}

/// A snapped value lies on the grid, at most one chunk below the value.
pub proof fn lemma_snap_to_grid(value: int, chunk_size: int)
    requires
        chunk_size > 0,
    ensures
        snap_to_grid(value, chunk_size) <= value < snap_to_grid(value, chunk_size) + chunk_size,
        snap_to_grid(value, chunk_size) % chunk_size == 0,
{
    lemma_fundamental_div_mod(value, chunk_size);
    lemma_mod_multiples_basic(value / chunk_size, chunk_size);
    assert(chunk_size * (value / chunk_size) == (value / chunk_size) * chunk_size)
        by (nonlinear_arith);
}

/// The span, in chunks, reaches at least `max_range` and overshoots it by
/// less than one chunk.
pub proof fn lemma_chunk_span(max_range: int, chunk_size: int)
    requires
        chunk_size > 0,
        max_range >= 0,
    ensures
        0 <= chunk_span(max_range, chunk_size) <= max_range,
        max_range <= chunk_span(max_range, chunk_size) * chunk_size < max_range + chunk_size,
{
    let n = max_range + chunk_size - 1;
    let q = n / chunk_size;
    lemma_fundamental_div_mod(n, chunk_size);
    assert(chunk_size * q == q * chunk_size) by (nonlinear_arith);
    assert(q >= 0 && q <= max_range) by (nonlinear_arith)
        requires
            chunk_size > 0,
            max_range >= 0,
            n == q * chunk_size + n % chunk_size,
            0 <= n % chunk_size < chunk_size,
            n == max_range + chunk_size - 1,
    ;
}

/// Two multiples of the chunk size less than one chunk apart are equal.
pub proof fn lemma_grid_points_apart(a: int, b: int, chunk_size: int)
    requires
        chunk_size > 0,
        a % chunk_size == 0,
        b % chunk_size == 0,
        a <= b < a + chunk_size,
    ensures
        a == b,
{
    lemma_fundamental_div_mod(a, chunk_size);
    lemma_fundamental_div_mod(b, chunk_size);
    let qa = a / chunk_size;
    let qb = b / chunk_size;
    assert(qa == qb) by (nonlinear_arith)
        requires
            chunk_size > 0,
            a == chunk_size * qa,
            b == chunk_size * qb,
            a <= b < a + chunk_size,
    ;
}

/// On non-negative integers, squaring keeps and reflects order.
pub proof fn lemma_square_order(a: int, b: int)
    requires
        0 <= a,
        0 <= b,
    ensures
        a <= b <==> a * a <= b * b,
{
    assert(a <= b ==> a * a <= b * b) by (nonlinear_arith)
        requires
            0 <= a,
            0 <= b,
    ;
    assert(a > b ==> a * a > b * b) by (nonlinear_arith)
        requires
            0 <= a,
            0 <= b,
    ;
}

impl ReferencePoint {
    pub fn new(x: i32, z: i32) -> (point: Self)
        ensures
            point.x == x,
            point.z == z,
    {
        ReferencePoint { x, z }
    }

    /// The coordinate of the chunk that holds this point: each axis
    /// snapped down to the grid.
    pub open spec fn chunk(self, chunk_size: int) -> ChunkCoordinate {
        ChunkCoordinate {
            x: snap_to_grid(self.x as int, chunk_size) as i64,
            z: snap_to_grid(self.z as int, chunk_size) as i64,
        }
    }

    /// Snaps the point to the chunk grid.
    pub fn snap(&self, chunk_size: i32) -> (chunk: ChunkCoordinate)
        requires
            chunk_size > 0,
        ensures
            chunk == self.chunk(chunk_size as int),
            chunk.x == snap_to_grid(self.x as int, chunk_size as int),
            chunk.z == snap_to_grid(self.z as int, chunk_size as int),
    {
        ChunkCoordinate { x: snap_axis(self.x, chunk_size), z: snap_axis(self.z, chunk_size) }
    }
}

/// Snaps one axis down to the grid.
fn snap_axis(value: i32, chunk_size: i32) -> (snapped: i64)
    requires
        chunk_size > 0,
    ensures
        snapped == snap_to_grid(value as int, chunk_size as int),
        value - chunk_size < snapped <= value,
{
    let v: i64 = value as i64;
    let s: i64 = chunk_size as i64;
    proof {
        lemma_snap_to_grid(v as int, s as int);
        lemma_fundamental_div_mod(v as int, s as int);
    }
    if v >= 0 {
        let q: i64 = v / s;
        assert(q * s == snap_to_grid(v as int, s as int));
        q * s
    } else {
        // Rounds toward negative infinity: -ceil(-v / s).
        let n: i64 = -v + (s - 1);
        let q: i64 = n / s;
        proof {
            lemma_fundamental_div_mod(n as int, s as int);
            let f = v as int / s as int;
            let r = v as int % s as int;
            assert(q == -f) by (nonlinear_arith)
                requires
                    s > 0,
                    v == s * f + r,
                    0 <= r < s,
                    n == -v + (s - 1),
                    n == s * q + (n as int % s as int),
                    0 <= (n as int % s as int) < s,
            ;
            assert(q * s == -(f * s)) by (nonlinear_arith)
                requires
                    q == -f,
            ;
            assert(0 <= q <= n);
            assert(q * s <= n * s) by (nonlinear_arith)
                requires
                    0 <= q <= n,
                    s > 0,
            ;
            assert(f * s == s * f) by (nonlinear_arith);
        }
        -(q * s)
    }
}

impl ChunkCoordinate {
    pub fn new(x: i64, z: i64) -> (coordinate: Self)
        ensures
            coordinate.x == x,
            coordinate.z == z,
    {
        ChunkCoordinate { x, z }
    }

    /// The squared Euclidean distance between two coordinates.
    pub open spec fn distance_squared(self, other: Self) -> int {
        (self.x - other.x) * (self.x - other.x) + (self.z - other.z) * (self.z - other.z)
    }

    /// Whether the distance to `center` is at most `max_range`.
    pub open spec fn within_range(self, center: Self, max_range: int) -> bool {
        self.distance_squared(center) <= max_range * max_range
    }

    /// Whether the coordinate is a whole number of chunks away from
    /// `center` on both axes.
    pub open spec fn on_grid(self, center: Self, chunk_size: int) -> bool {
        &&& (self.x - center.x) % chunk_size == 0
        &&& (self.z - center.z) % chunk_size == 0
    }

    /// The coordinates that should be resident around `center`: those on
    /// its grid whose distance is at most `max_range`.
    pub open spec fn desired(self, center: Self, chunk_size: int, max_range: int) -> bool {
        self.on_grid(center, chunk_size) && self.within_range(center, max_range)
    }

    /// Row-major order: by `x`, then by `z`.
    pub open spec fn precedes(self, other: Self) -> bool {
        self.x < other.x || (self.x == other.x && self.z < other.z)
    }

    /// The squared distance to `center` when it is within `max_range`.
    pub fn range_distance(&self, center: &ChunkCoordinate, max_range: u32) -> (distance: Option<
        u64,
    >)
        ensures
            distance is Some <==> self.within_range(*center, max_range as int),
            distance matches Some(d) ==> d == self.distance_squared(*center),
    {
        let dx: i128 = self.x as i128 - center.x as i128;
        let dz: i128 = self.z as i128 - center.z as i128;
        let r: i128 = max_range as i128;
        let ax: i128 = if dx < 0 { -dx } else { dx };
        let az: i128 = if dz < 0 { -dz } else { dz };
        proof {
            assert(ax * ax == dx * dx) by (nonlinear_arith)
                requires
                    ax == dx || ax == -dx,
            ;
            assert(az * az == dz * dz) by (nonlinear_arith)
                requires
                    az == dz || az == -dz,
            ;
            lemma_square_order(ax as int, r as int);
            lemma_square_order(az as int, r as int);
            assert(0 <= ax * ax) by (nonlinear_arith);
            assert(0 <= az * az) by (nonlinear_arith);
            assert(r * r <= 0xffff_ffff * 0xffff_ffff) by (nonlinear_arith)
                requires
                    0 <= r <= 0xffff_ffff,
            ;
        }
        if ax > r || az > r {
            return None;
        }
        let sum: i128 = ax * ax + az * az;
        if sum > r * r {
            None
        } else {
            Some(sum as u64)
        }
    }

    /// Whether the distance to `center` is at most `max_range`.
    pub fn is_within_range(&self, center: &ChunkCoordinate, max_range: u32) -> (within: bool)
        ensures
            within == self.within_range(*center, max_range as int),
    {
        self.range_distance(center, max_range).is_some()
    }

    /// The integer that stands for the coordinate in hashed collections.
    pub open spec fn key_spec(self) -> int {
        (self.x - i64::MIN) * 0x1_0000_0000_0000_0000 + (self.z - i64::MIN)
    }

    /// Packs the coordinate into its key.
    pub fn key(&self) -> (key: u128)
        ensures
            key == self.key_spec(),
    {
        let hi: u128 = (self.x as i128 - i64::MIN as i128) as u128;
        let lo: u128 = (self.z as i128 - i64::MIN as i128) as u128;
        hi * 0x1_0000_0000_0000_0000u128 + lo
    }

    /// The coordinate that `key` stands for.
    pub open spec fn of_key(key: u128) -> ChunkCoordinate {
        ChunkCoordinate {
            x: (key / 0x1_0000_0000_0000_0000 + i64::MIN) as i64,
            z: (key % 0x1_0000_0000_0000_0000 + i64::MIN) as i64,
        }
    }

    /// Recovers the coordinate from its key.
    pub fn from_key(key: u128) -> (coordinate: Self)
        ensures
            coordinate == Self::of_key(key),
            coordinate.key_spec() == key,
    {
        let hi: u128 = key / 0x1_0000_0000_0000_0000u128;
        let lo: u128 = key % 0x1_0000_0000_0000_0000u128;
        ChunkCoordinate {
            x: (hi as i128 + i64::MIN as i128) as i64,
            z: (lo as i128 + i64::MIN as i128) as i64,
        }
    }

    /// Distinct coordinates have distinct keys.
    pub proof fn lemma_key_injective(self, other: Self)
        ensures
            self.key_spec() == other.key_spec() <==> self == other,
    {
    }

    /// Every key stands for a coordinate.
    pub proof fn lemma_key_surjective(key: u128)
        ensures
            Self::of_key(key).key_spec() == key,
    {
    }
}

} // verus!
