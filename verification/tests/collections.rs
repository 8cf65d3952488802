use terrain_chunks::pending::PendingSet;
use terrain_chunks::{ChunkCoordinate, ChunkStore, TerrainChunk};

#[test]
fn pending_set_holds_each_coordinate_once() {
    let mut pending = PendingSet::new();
    let a = ChunkCoordinate::new(50, -100);
    let b = ChunkCoordinate::new(-100, 50);
    assert!(!pending.contains(&a));
    assert!(pending.insert(a));
    assert!(!pending.insert(a));
    assert!(pending.contains(&a));
    assert!(!pending.contains(&b));
    assert!(pending.insert(b));
    assert!(pending.remove(&a));
    assert!(!pending.remove(&a));
    assert!(!pending.contains(&a));
    assert!(pending.contains(&b));
}

#[test]
fn store_maps_coordinates_to_chunks() {
    let mut store: ChunkStore<&str, u32> = ChunkStore::new();
    assert!(store.is_empty());
    let a = ChunkCoordinate::new(0, 50);
    let b = ChunkCoordinate::new(50, 0);
    assert!(store.insert(a, TerrainChunk { lod: 1, mesh: "a", entity: 1 }).is_none());
    assert!(store.insert(b, TerrainChunk { lod: 2, mesh: "b", entity: 2 }).is_none());
    let previous = store.insert(a, TerrainChunk { lod: 3, mesh: "c", entity: 3 }).unwrap();
    assert_eq!((previous.lod, previous.mesh, previous.entity), (1, "a", 1));
    assert!(store.contains(&a));
    assert_eq!(store.get(&a).unwrap().mesh, "c");
    assert_eq!(store.get(&b).unwrap().entity, 2);
    assert!(store.get(&ChunkCoordinate::new(50, 50)).is_none());
    let mut positions = store.positions();
    positions.sort_by_key(|p| (p.x, p.z));
    assert_eq!(positions, vec![a, b]);
    let removed = store.remove(&b).unwrap();
    assert_eq!(removed.lod, 2);
    assert!(store.remove(&b).is_none());
    assert!(!store.contains(&b));
    assert!(!store.is_empty());
    assert!(store.remove(&a).is_some());
    assert!(store.is_empty());
}
