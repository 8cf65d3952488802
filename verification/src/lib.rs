//! Streams a procedural terrain around a moving reference point: which
//! chunks are resident, at which level of detail, which generation jobs
//! to dispatch, and how a chunk's height map becomes geometry.

pub mod asset;
pub mod chunks;
pub mod desired;
pub mod grid;
pub mod height_map;
pub mod job;
pub mod laws;
pub mod lod;
pub mod model;
pub mod pending;
pub mod store;

pub use asset::PlaneAssetLoader;
pub use chunks::{ConfigError, LoadPlan, TerrainChunks, Tick};
pub use desired::DesiredChunk;
pub use grid::{ChunkCoordinate, ReferencePoint};
pub use height_map::{HeightMap, MeshVertex, TerrainMesh, MAX_RESOLUTION, MIN_RESOLUTION};
pub use job::{ChunkJob, ChunkUpdate};
pub use store::{ChunkStore, TerrainChunk, UnloadedChunk};
