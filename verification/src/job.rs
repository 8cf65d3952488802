//! Generation jobs: what a worker computes for one chunk.

use crate::grid::ChunkCoordinate;
use crate::height_map::{HeightMap, TerrainMesh, MAX_RESOLUTION, MIN_RESOLUTION};
use vstd::prelude::*;

verus! {

/// A generation job: the chunk to generate, its level of detail and the
/// number of samples along each edge.
#[derive(Clone, Copy, Debug, PartialEq, Eq, Structural)]
pub struct ChunkJob {
    pub position: ChunkCoordinate,
    pub lod: usize,
    pub resolution: usize,
}

/// The result of a generation job: the height map and the geometry of one
/// chunk at one level of detail.
#[derive(Debug)]
pub struct ChunkUpdate<H, N> {
    pub position: ChunkCoordinate,
    pub height_map: HeightMap<H, N>,
    pub mesh: TerrainMesh<H, N>,
    pub lod: usize,
}

impl ChunkJob {
    /// Runs the job: samples the height map of the chunk at the job's
    /// resolution, then triangulates it. The job reads nothing but its own
    /// fields and `sample`, so any number of jobs may run at once.
    pub fn run<H: Copy, N: Copy, F: Fn(usize, usize) -> (H, N)>(
        &self,
        chunk_size: i32,
        sample: F,
    ) -> (update: ChunkUpdate<H, N>)
        requires
            MIN_RESOLUTION <= self.resolution <= MAX_RESOLUTION,
            forall|x: usize, z: usize|
                x < self.resolution && z < self.resolution ==> call_requires(sample, (x, z)),
        ensures
            update.position == self.position,
            update.lod == self.lod,
            update.height_map.wf(),
            update.height_map.size == chunk_size,
            update.height_map.row_size == self.resolution,
            forall|x: usize, z: usize|
                x < self.resolution && z < self.resolution ==> call_ensures(
                    sample,
                    (x, z),
                    (
                        update.height_map.heights@[x as int]@[z as int],
                        update.height_map.normals@[x as int]@[z as int],
                    ),
                ),
            update.height_map.triangulated_by(update.mesh),
    {
        let height_map = HeightMap::generate(chunk_size, self.resolution, sample);
        let mesh = height_map.generate_mesh();
        ChunkUpdate { position: self.position, height_map, mesh, lod: self.lod }
    }
}

} // verus!
