use terrain_chunks::lod::lod_index;
use terrain_chunks::{ChunkCoordinate, ConfigError, ReferencePoint, TerrainChunks};

const TABLE: [usize; 7] = [75, 50, 25, 15, 10, 5, 3];

#[test]
fn lod_endpoints_of_the_default_table() {
    assert_eq!(lod_index(0, 2000, 7), 0);
    assert_eq!(TABLE[lod_index(0, 2000, 7)], 75);
    assert_eq!(lod_index(2000 * 2000, 2000, 7), 6);
    assert_eq!(TABLE[lod_index(2000 * 2000, 2000, 7)], 3);
}

#[test]
fn lod_is_the_floor_of_the_scaled_distance() {
    // floor(d / 2000 * 6): the level changes at multiples of 2000 / 6.
    assert_eq!(lod_index(333 * 333, 2000, 7), 0);
    assert_eq!(lod_index(334 * 334, 2000, 7), 1);
    assert_eq!(lod_index(666 * 666, 2000, 7), 1);
    assert_eq!(lod_index(667 * 667, 2000, 7), 2);
    assert_eq!(lod_index(1000 * 1000, 2000, 7), 3);
    assert_eq!(lod_index(1999 * 1999, 2000, 7), 5);
    // A distance that is no whole number: sqrt(300^2 + 150^2) = 335.4...
    assert_eq!(lod_index(300 * 300 + 150 * 150, 2000, 7), 1);
    assert_eq!(lod_index(111_110, 2000, 7), 0);
    assert_eq!(lod_index(111_112, 2000, 7), 1);
}

#[test]
fn lod_never_decreases_with_distance() {
    let mut last = 0;
    let mut d: u64 = 0;
    while d <= 2000 {
        let lod = lod_index(d * d, 2000, 7);
        assert!(lod >= last);
        assert!(lod == (d * 6 / 2000) as usize);
        assert!(TABLE[lod] <= TABLE[last]);
        last = lod;
        d += 1;
    }
    assert_eq!(last, 6);
}

#[test]
fn a_single_level_is_always_chosen() {
    assert_eq!(lod_index(0, 10, 1), 0);
    assert_eq!(lod_index(100, 10, 1), 0);
    assert_eq!(lod_index(u32::MAX as u64 * u32::MAX as u64, u32::MAX, 0xffff_ffff), 0xffff_fffe);
}

#[test]
fn range_distance_is_exact_at_the_rim() {
    let center = ChunkCoordinate::new(0, 0);
    assert_eq!(ChunkCoordinate::new(1200, 1600).range_distance(&center, 2000), Some(4_000_000));
    assert_eq!(ChunkCoordinate::new(1200, 1601).range_distance(&center, 2000), None);
    assert!(ChunkCoordinate::new(-2000, 0).is_within_range(&center, 2000));
    assert!(!ChunkCoordinate::new(-2001, 0).is_within_range(&center, 2000));
    let far = ChunkCoordinate::new(i64::MAX, i64::MIN);
    assert_eq!(far.range_distance(&ChunkCoordinate::new(i64::MIN, i64::MAX), u32::MAX), None);
    assert_eq!(far.range_distance(&far, 1), Some(0));
}

#[test]
fn keys_round_trip() {
    for c in [
        ChunkCoordinate::new(0, 0),
        ChunkCoordinate::new(-50, 50),
        ChunkCoordinate::new(i64::MIN, i64::MAX),
        ChunkCoordinate::new(i64::MAX, i64::MIN),
    ] {
        assert_eq!(ChunkCoordinate::from_key(c.key()), c);
    }
    assert_eq!(ChunkCoordinate::new(i64::MIN, i64::MIN).key(), 0);
    assert_eq!(ChunkCoordinate::new(i64::MAX, i64::MAX).key(), u128::MAX);
    assert_ne!(ChunkCoordinate::new(1, 0).key(), ChunkCoordinate::new(0, 1).key());
}

#[test]
fn default_configuration() {
    let terrain = TerrainChunks::<u8, u8>::default();
    assert_eq!(terrain.chunk_size(), 50);
    assert_eq!(terrain.max_range(), 2000);
    assert_eq!(terrain.detail(), &vec![75, 50, 25, 15, 10, 5, 3]);
    assert!(terrain.is_empty());
    assert!(terrain.positions().is_empty());
    assert!(!terrain.is_pending(&ChunkCoordinate::new(0, 0)));
}

#[test]
fn malformed_configurations_are_refused() {
    let refused = |chunk_size: i32, max_range: u32, detail: Vec<usize>| {
        TerrainChunks::<u8, u8>::new(chunk_size, max_range, detail).err()
    };
    assert_eq!(refused(0, 2000, vec![3]), Some(ConfigError::ChunkSize));
    assert_eq!(refused(-50, 0, vec![]), Some(ConfigError::ChunkSize));
    assert_eq!(refused(50, 0, vec![]), Some(ConfigError::MaxRange));
    assert_eq!(refused(50, 2000, vec![]), Some(ConfigError::DetailLevels));
    assert_eq!(refused(50, 2000, vec![75, 1]), Some(ConfigError::Resolution));
    assert_eq!(refused(50, 2000, vec![65537, 3]), Some(ConfigError::Resolution));
    assert_eq!(refused(50, 2000, vec![65536, 2]), None);
    assert_eq!(refused(1, 1, vec![2]), None);
}

#[test]
fn desired_set_of_a_small_range() {
    let terrain = TerrainChunks::<u8, u8>::new(10, 10, vec![4, 2]).unwrap();
    let desired = terrain.desired_chunks(ReferencePoint::new(5, 19));
    let got: Vec<(i64, i64, usize)> =
        desired.iter().map(|d| (d.position.x, d.position.z, d.lod)).collect();
    assert_eq!(got, vec![(-10, 10, 1), (0, 0, 1), (0, 10, 0), (0, 20, 1), (10, 10, 1)]);
}
