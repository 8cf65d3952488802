//! Height maps and their triangulation.
//!
//! A height map is a square grid of samples. The library fixes the shape of
//! the grid, the order of the vertices and the index buffer; what a sample
//! is (a height `H`, a normal `N`) is the caller's.

use vstd::arithmetic::div_mod::{lemma_fundamental_div_mod, lemma_fundamental_div_mod_converse};
use vstd::prelude::*;

verus! {

/// The lowest sample resolution of a chunk edge.
pub const MIN_RESOLUTION: usize = 2;

/// The highest sample resolution of a chunk edge: with more samples the
/// vertices of a chunk could not be numbered in 32 bits.
pub const MAX_RESOLUTION: usize = 0x1_0000;

/// A square grid of height samples with a normal for each sample.
#[derive(Debug)]
pub struct HeightMap<H, N> {
    /// World units per edge.
    pub size: i32,
    /// Samples per edge.
    pub row_size: usize,
    /// `heights[x][z]` is the height at grid point `(x, z)`.
    pub heights: Vec<Vec<H>>,
    /// `normals[x][z]` is the surface normal at grid point `(x, z)`.
    pub normals: Vec<Vec<N>>,
}

/// A vertex of a triangulated height map: a grid point with its samples.
#[derive(Debug)]
pub struct MeshVertex<H, N> {
    pub x_index: usize,
    pub z_index: usize,
    pub height: H,
    pub normal: N,
}

/// A triangulated height map: one vertex per grid point and three indices
/// per triangle.
#[derive(Debug)]
pub struct TerrainMesh<H, N> {
    pub vertices: Vec<MeshVertex<H, N>>,
    pub indices: Vec<u32>,
}

/// The place of grid point `(x, z)` in the vertex buffer.
pub open spec fn vertex_slot(row_size: int, x: int, z: int) -> int {
    x * row_size + z
}

/// The place in the index buffer of entry `k` of the quad that ends at
/// grid point `(x, z)`. Quads are laid out row by row, six entries each.
pub open spec fn index_slot(row_size: int, x: int, z: int, k: int) -> int {
    6 * ((x - 1) * (row_size - 1) + (z - 1)) + k
}

/// Entry `k` of the quad that ends at grid point `(x, z)`: two triangles
/// over the corners `near - 1`, `near`, `far - 1` and `far`, where `far`
/// is `z * row_size + x` and `near` lies one row before it.
pub open spec fn quad_index(row_size: int, x: int, z: int, k: int) -> int {
    let far = z * row_size + x;
    let near = far - row_size;
    if k == 0 {
        near - 1
    } else if k == 1 {
        far
    } else if k == 2 {
        far - 1
    } else if k == 3 {
        near - 1
    } else if k == 4 {
        near
    } else {
        far
    }
}

/// Whether grid point `a` comes before grid point `b`, row by row.
pub open spec fn grid_before(ax: int, az: int, bx: int, bz: int) -> bool {
    ax < bx || (ax == bx && az < bz)
}

/// Vertex slots follow the order of the grid, and stay below the number
/// of vertices.
pub proof fn lemma_vertex_slots(row_size: int, ax: int, az: int, bx: int, bz: int)
    requires
        0 <= ax,
        0 <= az < row_size,
        0 <= bx,
        0 <= bz <= row_size,
        grid_before(ax, az, bx, bz),
    ensures
        0 <= vertex_slot(row_size, ax, az) < vertex_slot(row_size, bx, bz),
{
    assert(0 <= ax * row_size) by (nonlinear_arith)
        requires
            0 <= ax,
            0 < row_size,
    ;
    if ax < bx {
        assert(ax * row_size + row_size <= bx * row_size) by (nonlinear_arith)
            requires
                ax + 1 <= bx,
                0 < row_size,
        ;
    }
}

/// Index slots follow the order of the quads.
pub proof fn lemma_index_slots(row_size: int, ax: int, az: int, bx: int, bz: int)
    requires
        1 <= ax,
        1 <= az < row_size,
        1 <= bx,
        1 <= bz <= row_size,
        grid_before(ax, az, bx, bz),
    ensures
        0 <= index_slot(row_size, ax, az, 0),
        index_slot(row_size, ax, az, 0) + 6 <= index_slot(row_size, bx, bz, 0),
{
    let step = row_size - 1;
    assert(0 <= (ax - 1) * step) by (nonlinear_arith)
        requires
            1 <= ax,
            0 < step,
    ;
    if ax < bx {
        assert((ax - 1) * step + step <= (bx - 1) * step) by (nonlinear_arith)
            requires
                ax + 1 <= bx,
                0 < step,
        ;
    }
}

/// Every place in the index buffer is an entry of exactly one quad.
pub proof fn lemma_index_slots_cover(row_size: int, i: int)
    requires
        MIN_RESOLUTION <= row_size,
        0 <= i < 6 * ((row_size - 1) * (row_size - 1)),
    ensures
        ({
            let quad = i / 6;
            let x = quad / (row_size - 1) + 1;
            let z = quad % (row_size - 1) + 1;
            &&& 1 <= x < row_size
            &&& 1 <= z < row_size
            &&& 0 <= i % 6 < 6
            &&& index_slot(row_size, x, z, i % 6) == i
        }),
{
    let step = row_size - 1;
    let quad = i / 6;
    lemma_fundamental_div_mod(quad, step);
    let row = quad / step;
    let column = quad % step;
    assert(0 <= row < step) by (nonlinear_arith)
        requires
            0 <= quad < step * step,
            0 < step,
            quad == step * row + column,
            0 <= column < step,
    ;
    assert(step * row == row * step) by (nonlinear_arith);
}

/// Every entry of a quad names a grid point.
pub proof fn lemma_quad_index_bounds(row_size: int, x: int, z: int, k: int)
    requires
        1 <= x < row_size,
        1 <= z < row_size,
        0 <= k < 6,
    ensures
        0 <= quad_index(row_size, x, z, k) < row_size * row_size,
{
    assert(z * row_size + x < row_size * row_size && (z - 1) * row_size + x - 1 >= 0
        && z * row_size - row_size == (z - 1) * row_size) by (nonlinear_arith)
        requires
            1 <= x < row_size,
            1 <= z < row_size,
    ;
}

/// Twice the signed area, seen from above, of the triangle whose corners
/// are the vertices at the slots `a`, `b` and `c`: positive when the
/// triangle's normal points up.
pub open spec fn winding(row_size: int, a: int, b: int, c: int) -> int {
    let (ax, az) = (a / row_size, a % row_size);
    let (bx, bz) = (b / row_size, b % row_size);
    let (cx, cz) = (c / row_size, c % row_size);
    (bz - az) * (cx - ax) - (bx - ax) * (cz - az)
}

/// Both triangles of every quad cover half a grid cell and face upwards:
/// no triangle is degenerate, and the winding is the same everywhere.
pub proof fn law_triangles_face_upwards(row_size: int, x: int, z: int)
    requires
        MIN_RESOLUTION <= row_size,
        1 <= x < row_size,
        1 <= z < row_size,
    ensures
        winding(
            row_size,
            quad_index(row_size, x, z, 0),
            quad_index(row_size, x, z, 1),
            quad_index(row_size, x, z, 2),
        ) == 1,
        winding(
            row_size,
            quad_index(row_size, x, z, 3),
            quad_index(row_size, x, z, 4),
            quad_index(row_size, x, z, 5),
        ) == 1,
{
    let far = z * row_size + x;
    let near = far - row_size;
    assert(near == (z - 1) * row_size + x) by (nonlinear_arith)
        requires
            near == z * row_size + x - row_size,
    ;
    lemma_fundamental_div_mod_converse(far, row_size, z, x);
    lemma_fundamental_div_mod_converse(far - 1, row_size, z, x - 1);
    lemma_fundamental_div_mod_converse(near, row_size, z - 1, x);
    lemma_fundamental_div_mod_converse(near - 1, row_size, z - 1, x - 1);
    assert((x - (x - 1)) * (z - (z - 1)) - (z - (z - 1)) * ((x - 1) - (x - 1)) == 1)
        by (nonlinear_arith);
    assert((x - (x - 1)) * (z - (z - 1)) - ((z - 1) - (z - 1)) * (x - (x - 1)) == 1)
        by (nonlinear_arith);
}

impl<H, N> HeightMap<H, N> {
    /// The grid is square, with at least `MIN_RESOLUTION` samples per
    /// edge.
    pub open spec fn wf(&self) -> bool {
        &&& MIN_RESOLUTION <= self.row_size
        &&& self.heights@.len() == self.row_size
        &&& self.normals@.len() == self.row_size
        &&& forall|x: int|
            0 <= x < self.row_size ==> (#[trigger] self.heights@[x])@.len() == self.row_size
        &&& forall|x: int|
            0 <= x < self.row_size ==> (#[trigger] self.normals@[x])@.len() == self.row_size
    }

    /// Whether `mesh` is the triangulation of this map: the vertices are
    /// the grid points row by row, and each quad of four neighbouring grid
    /// points gives two triangles.
    pub open spec fn triangulated_by(&self, mesh: TerrainMesh<H, N>) -> bool {
        let n = self.row_size as int;
        &&& mesh.vertices@.len() == n * n
        &&& forall|x: int, z: int|
            0 <= x < n && 0 <= z < n ==> #[trigger] mesh.vertices@[vertex_slot(n, x, z)] == (
            MeshVertex {
                x_index: x as usize,
                z_index: z as usize,
                height: self.heights@[x]@[z],
                normal: self.normals@[x]@[z],
            })
        &&& mesh.indices@.len() == 6 * ((n - 1) * (n - 1))
        &&& forall|x: int, z: int, k: int|
            1 <= x < n && 1 <= z < n && 0 <= k < 6 ==> #[trigger] mesh.indices@[index_slot(
                n,
                x,
                z,
                k,
            )] == quad_index(n, x, z, k)
        &&& forall|i: int|
            0 <= i < mesh.indices@.len() ==> #[trigger] mesh.indices@[i] < mesh.vertices@.len()
    }

    /// Samples a grid of `row_size` by `row_size` points. `sample` is
    /// asked once for each grid point `(x, z)`, row by row, and gives the
    /// height and the normal there.
    pub fn generate<F: Fn(usize, usize) -> (H, N)>(size: i32, row_size: usize, sample: F) -> (map:
        Self)
        requires
            MIN_RESOLUTION <= row_size,
            forall|x: usize, z: usize|
                x < row_size && z < row_size ==> call_requires(sample, (x, z)),
        ensures
            map.wf(),
            map.size == size,
            map.row_size == row_size,
            forall|x: usize, z: usize|
                x < row_size && z < row_size ==> call_ensures(
                    sample,
                    (x, z),
                    (map.heights@[x as int]@[z as int], map.normals@[x as int]@[z as int]),
                ),
    {
        let mut heights: Vec<Vec<H>> = Vec::new();
        let mut normals: Vec<Vec<N>> = Vec::new();
        let mut x: usize = 0;
        while x < row_size
            invariant
                x <= row_size,
                heights@.len() == x,
                normals@.len() == x,
                forall|x: usize, z: usize|
                    x < row_size && z < row_size ==> call_requires(sample, (x, z)),
                forall|i: int| 0 <= i < x ==> (#[trigger] heights@[i])@.len() == row_size,
                forall|i: int| 0 <= i < x ==> (#[trigger] normals@[i])@.len() == row_size,
                forall|i: usize, j: usize|
                    i < x && j < row_size ==> call_ensures(
                        sample,
                        (i, j),
                        (heights@[i as int]@[j as int], normals@[i as int]@[j as int]),
                    ),
            decreases row_size - x,
        {
            let mut row: Vec<H> = Vec::new();
            let mut row_normals: Vec<N> = Vec::new();
            let mut z: usize = 0;
            while z < row_size
                invariant
                    x < row_size,
                    z <= row_size,
                    row@.len() == z,
                    row_normals@.len() == z,
                    forall|x: usize, z: usize|
                        x < row_size && z < row_size ==> call_requires(sample, (x, z)),
                    forall|j: usize|
                        j < z ==> call_ensures(
                            sample,
                            (x, j),
                            (row@[j as int], row_normals@[j as int]),
                        ),
                decreases row_size - z,
            {
                let (height, normal) = sample(x, z);
                row.push(height);
                row_normals.push(normal);
                z = z + 1;
            }
            heights.push(row);
            normals.push(row_normals);
            x = x + 1;
        }
        HeightMap { size, row_size, heights, normals }
    }
}

impl<H: Copy, N: Copy> HeightMap<H, N> {
    /// Triangulates the map: one vertex per grid point, and for every
    /// grid point that has a previous row and a previous column the two
    /// triangles of the quad that ends there.
    pub fn generate_mesh(&self) -> (mesh: TerrainMesh<H, N>)
        requires
            self.wf(),
            self.row_size <= MAX_RESOLUTION,
        ensures
            self.triangulated_by(mesh),
            mesh.indices@.len() == 6 * ((self.row_size - 1) * (self.row_size - 1)),
            forall|i: int|
                0 <= i < mesh.indices@.len() ==> #[trigger] mesh.indices@[i] < mesh.vertices@.len(),
    {
        let n = self.row_size;
        let mut vertices: Vec<MeshVertex<H, N>> = Vec::new();
        let mut indices: Vec<u32> = Vec::new();
        proof {
            assert(n * n <= 0x1_0000_0000) by (nonlinear_arith)
                requires
                    0 <= n <= 0x1_0000,
            ;
        }
        let mut x: usize = 0;
        while x < n
            invariant
                self.wf(),
                n == self.row_size,
                MIN_RESOLUTION <= n <= MAX_RESOLUTION,
                n * n <= 0x1_0000_0000,
                x <= n,
                vertices@.len() == vertex_slot(n as int, x as int, 0),
                indices@.len() == (if x == 0 {
                    0
                } else {
                    index_slot(n as int, x as int, 1, 0)
                }),
                forall|a: int, b: int|
                    0 <= a < x && 0 <= b < n ==> #[trigger] vertices@[vertex_slot(n as int, a, b)]
                        == (MeshVertex {
                        x_index: a as usize,
                        z_index: b as usize,
                        height: self.heights@[a]@[b],
                        normal: self.normals@[a]@[b],
                    }),
                forall|a: int, b: int, k: int|
                    1 <= a < x && 1 <= b < n && 0 <= k < 6 ==> #[trigger] indices@[index_slot(
                        n as int,
                        a,
                        b,
                        k,
                    )] == quad_index(n as int, a, b, k),
                forall|i: int| 0 <= i < indices@.len() ==> #[trigger] indices@[i] < n * n,
            decreases n - x,
        {
            let mut z: usize = 0;
            while z < n
                invariant
                    self.wf(),
                    n == self.row_size,
                    MIN_RESOLUTION <= n <= MAX_RESOLUTION,
                    n * n <= 0x1_0000_0000,
                    x < n,
                    z <= n,
                    vertices@.len() == vertex_slot(n as int, x as int, z as int),
                    indices@.len() == (if x == 0 {
                        0
                    } else if z == 0 {
                        index_slot(n as int, x as int, 1, 0)
                    } else {
                        index_slot(n as int, x as int, z as int, 0)
                    }),
                    forall|a: int, b: int|
                        0 <= a && 0 <= b < n && grid_before(a, b, x as int, z as int)
                            ==> #[trigger] vertices@[vertex_slot(n as int, a, b)] == (MeshVertex {
                            x_index: a as usize,
                            z_index: b as usize,
                            height: self.heights@[a]@[b],
                            normal: self.normals@[a]@[b],
                        }),
                    forall|a: int, b: int, k: int|
                        1 <= a && 1 <= b < n && 0 <= k < 6 && grid_before(a, b, x as int, z as int)
                            ==> #[trigger] indices@[index_slot(n as int, a, b, k)] == quad_index(
                            n as int,
                            a,
                            b,
                            k,
                        ),
                    forall|i: int| 0 <= i < indices@.len() ==> #[trigger] indices@[i] < n * n,
                decreases n - z,
            {
                let ghost old_vertices = vertices@;
                let ghost old_indices = indices@;
                vertices.push(
                    MeshVertex {
                        x_index: x,
                        z_index: z,
                        height: self.heights[x][z],
                        normal: self.normals[x][z],
                    },
                );
                if x > 0 && z > 0 {
                    proof {
                        lemma_quad_index_bounds(n as int, x as int, z as int, 0);
                        lemma_quad_index_bounds(n as int, x as int, z as int, 1);
                        lemma_quad_index_bounds(n as int, x as int, z as int, 2);
                        lemma_quad_index_bounds(n as int, x as int, z as int, 4);
                    }
                    let far: u32 = (z * n + x) as u32;
                    let near: u32 = far - n as u32;
                    indices.push(near - 1);
                    indices.push(far);
                    indices.push(far - 1);
                    indices.push(near - 1);
                    indices.push(near);
                    indices.push(far);
                }
                proof {
                    assert forall|a: int, b: int|
                        0 <= a && 0 <= b < n && grid_before(
                            a,
                            b,
                            x as int,
                            z + 1,
                        ) implies #[trigger] vertices@[vertex_slot(n as int, a, b)] == (MeshVertex {
                        x_index: a as usize,
                        z_index: b as usize,
                        height: self.heights@[a]@[b],
                        normal: self.normals@[a]@[b],
                    }) by {
                        if grid_before(a, b, x as int, z as int) {
                            lemma_vertex_slots(n as int, a, b, x as int, z as int);
                            assert(vertices@[vertex_slot(n as int, a, b)] == old_vertices[vertex_slot(
                                n as int,
                                a,
                                b,
                            )]);
                        }
                    }
                    assert forall|a: int, b: int, k: int|
                        1 <= a && 1 <= b < n && 0 <= k < 6 && grid_before(
                            a,
                            b,
                            x as int,
                            z + 1,
                        ) implies #[trigger] indices@[index_slot(n as int, a, b, k)] == quad_index(
                        n as int,
                        a,
                        b,
                        k,
                    ) by {
                        if grid_before(a, b, x as int, z as int) {
                            if z == 0 {
                                lemma_index_slots(n as int, a, b, x as int, 1);
                            } else {
                                lemma_index_slots(n as int, a, b, x as int, z as int);
                            }
                            assert(indices@[index_slot(n as int, a, b, k)] == old_indices[index_slot(
                                n as int,
                                a,
                                b,
                                k,
                            )]);
                        }
                    }
                }
                z = z + 1;
            }
            proof {
                assert(vertex_slot(n as int, x as int, n as int) == vertex_slot(
                    n as int,
                    x + 1,
                    0,
                )) by (nonlinear_arith);
                assert(index_slot(n as int, x as int, n as int, 0) == index_slot(
                    n as int,
                    x + 1,
                    1,
                    0,
                )) by (nonlinear_arith);
                assert(index_slot(n as int, 1, 1, 0) == 0);
            }
            x = x + 1;
        }
        proof {
            assert(vertex_slot(n as int, n as int, 0) == n * n);
            assert(index_slot(n as int, n as int, 1, 0) == 6 * ((n - 1) * (n - 1)));
        }
        TerrainMesh { vertices, indices }
    }
}

} // verus!
