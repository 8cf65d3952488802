use terrain_chunks::{ChunkCoordinate, ChunkJob, ReferencePoint, TerrainChunks};

type Terrain = TerrainChunks<u64, u64>;

fn at(x: i64, z: i64) -> ChunkCoordinate {
    ChunkCoordinate::new(x, z)
}

/// Consumes a result for each job, with a mesh handle and a world object
/// derived from the job's place in the list.
fn drain(terrain: &mut Terrain, jobs: &[ChunkJob], base: u64) -> usize {
    let mut created = 0;
    for (n, job) in jobs.iter().enumerate() {
        if terrain.consume(job.position, job.lod, base + n as u64, base + n as u64) {
            created += 1;
        }
    }
    created
}

#[test]
fn first_tick_populates_everything_in_range() {
    let mut terrain = Terrain::default();
    let tick = terrain.update_chunks(ReferencePoint::new(0, 0));
    assert!(tick.unloaded.is_empty());
    assert!(tick.plan.synchronous);
    assert_eq!(tick.plan.jobs.len(), 5025);
    for job in &tick.plan.jobs {
        assert!(terrain.is_pending(&job.position));
        let d = job.position.x * job.position.x + job.position.z * job.position.z;
        assert!(d <= 2000 * 2000);
        assert_eq!(job.position.x % 50, 0);
        assert_eq!(job.position.z % 50, 0);
    }
    let center_job = tick.plan.jobs.iter().find(|j| j.position == at(0, 0)).unwrap();
    assert_eq!(center_job.lod, 0);
    assert_eq!(center_job.resolution, 75);

    let created = drain(&mut terrain, &tick.plan.jobs, 0);
    assert_eq!(created, 5025);
    assert_eq!(terrain.positions().len(), 5025);
    assert_eq!(terrain.chunk(&at(0, 0)).unwrap().lod, 0);
    assert_eq!(terrain.detail()[terrain.chunk(&at(0, 0)).unwrap().lod], 75);
    assert_eq!(terrain.chunk(&at(2000, 0)).unwrap().lod, 6);
    assert_eq!(terrain.chunk(&at(0, -2000)).unwrap().lod, 6);
    assert!(terrain.chunk(&at(2000, 50)).is_none());
    assert!(terrain.chunk(&at(2050, 0)).is_none());
    for job in &tick.plan.jobs {
        assert!(!terrain.is_pending(&job.position));
    }
}

#[test]
fn jobs_come_in_row_major_order() {
    let mut terrain = Terrain::new(10, 25, vec![9, 5, 3]).unwrap();
    let plan = terrain.load_chunks(ReferencePoint::new(0, 0));
    let got: Vec<(i64, i64, usize, usize)> =
        plan.jobs.iter().map(|j| (j.position.x, j.position.z, j.lod, j.resolution)).collect();
    let expected = vec![
        (-20, -10, 1, 5),
        (-20, 0, 1, 5),
        (-20, 10, 1, 5),
        (-10, -20, 1, 5),
        (-10, -10, 1, 5),
        (-10, 0, 0, 9),
        (-10, 10, 1, 5),
        (-10, 20, 1, 5),
        (0, -20, 1, 5),
        (0, -10, 0, 9),
        (0, 0, 0, 9),
        (0, 10, 0, 9),
        (0, 20, 1, 5),
        (10, -20, 1, 5),
        (10, -10, 1, 5),
        (10, 0, 0, 9),
        (10, 10, 1, 5),
        (10, 20, 1, 5),
        (20, -10, 1, 5),
        (20, 0, 1, 5),
        (20, 10, 1, 5),
    ];
    assert_eq!(got, expected);
}

#[test]
fn moving_the_reference_point_evicts_and_dispatches() {
    let mut terrain = Terrain::default();
    let first = terrain.update_chunks(ReferencePoint::new(0, 0));
    drain(&mut terrain, &first.plan.jobs, 0);

    let second = terrain.update_chunks(ReferencePoint::new(2500, 0));
    assert_eq!(second.unloaded.len(), 3720);
    assert!(second.unloaded.iter().any(|u| u.position == at(0, 0)));
    for u in &second.unloaded {
        let dx = u.position.x - 2500;
        assert!(dx * dx + u.position.z * u.position.z > 2000 * 2000);
        assert!(terrain.chunk(&u.position).is_none());
    }
    assert!(terrain.chunk(&at(0, 0)).is_none());
    assert!(terrain.chunk(&at(500, 0)).is_some());
    assert_eq!(terrain.positions().len(), 1305);

    assert!(!second.plan.synchronous);
    assert_eq!(second.plan.jobs.len(), 4800);
    let fresh = second.plan.jobs.iter().filter(|j| j.position.x > 2000).count();
    assert!(fresh > 0);
    assert!(second.plan.jobs.iter().any(|j| j.position == at(2500, 0) && j.lod == 0));
    assert!(second.plan.jobs.iter().any(|j| j.position == at(4500, 0) && j.lod == 6));

    drain(&mut terrain, &second.plan.jobs, 10_000);
    let mut positions = terrain.positions();
    assert_eq!(positions.len(), 5025);
    positions.sort_by_key(|p| (p.x, p.z));
    for p in &positions {
        let dx = p.x - 2500;
        assert!(dx * dx + p.z * p.z <= 2000 * 2000);
    }
    assert_eq!(terrain.chunk(&at(2500, 0)).unwrap().lod, 0);
}

#[test]
fn unloaded_chunks_carry_their_world_objects() {
    let mut terrain = Terrain::new(10, 10, vec![4, 2]).unwrap();
    let plan = terrain.load_chunks(ReferencePoint::new(0, 0));
    assert_eq!(plan.jobs.len(), 5);
    for job in &plan.jobs {
        let tag = (job.position.x + 100 * job.position.z + 5000) as u64;
        terrain.consume(job.position, job.lod, tag, tag + 1);
    }
    let mut unloaded = terrain.unload_chunks(ReferencePoint::new(10, 0));
    unloaded.sort_by_key(|u| (u.position.x, u.position.z));
    let got: Vec<(i64, i64, u64, u64)> = unloaded
        .iter()
        .map(|u| (u.position.x, u.position.z, u.chunk.mesh, u.chunk.entity))
        .collect();
    assert_eq!(got, vec![(-10, 0, 4990, 4991), (0, -10, 4000, 4001), (0, 10, 6000, 6001)]);
    let mut left = terrain.positions();
    left.sort_by_key(|p| (p.x, p.z));
    assert_eq!(left, vec![at(0, 0), at(10, 0)]);
}

#[test]
fn a_second_load_dispatches_nothing() {
    let mut terrain = Terrain::default();
    let first = terrain.load_chunks(ReferencePoint::new(120, -75));
    assert_eq!(first.jobs.len(), 5025);
    let second = terrain.load_chunks(ReferencePoint::new(120, -75));
    assert!(second.jobs.is_empty());
    assert!(second.synchronous);
    let mut seen = std::collections::HashSet::new();
    for job in &first.jobs {
        assert!(seen.insert((job.position.x, job.position.z)));
        assert!(terrain.is_pending(&job.position));
    }
    // A neighbouring reference point asks only for what is not pending.
    let third = terrain.load_chunks(ReferencePoint::new(170, -75));
    for job in &third.jobs {
        assert!(!seen.contains(&(job.position.x, job.position.z)));
    }
    assert_eq!(third.jobs.len(), 81);
}

#[test]
fn pending_chunks_are_not_scheduled_even_when_stale() {
    let mut terrain = Terrain::new(10, 100, vec![8, 4, 2]).unwrap();
    // Resident with a level of detail that is wrong for its distance, and
    // pending at the same time.
    terrain.consume(at(0, 0), 2, 1, 1);
    let first = terrain.load_chunks(ReferencePoint::new(0, 0));
    assert!(first.jobs.iter().any(|j| j.position == at(0, 0) && j.lod == 0));
    assert!(terrain.is_pending(&at(0, 0)));
    let second = terrain.load_chunks(ReferencePoint::new(0, 0));
    assert!(second.jobs.is_empty());
    assert_eq!(terrain.chunk(&at(0, 0)).unwrap().lod, 2);
}

#[test]
fn up_to_date_chunks_are_not_redispatched() {
    let mut terrain = Terrain::new(10, 100, vec![8, 4, 2]).unwrap();
    let first = terrain.load_chunks(ReferencePoint::new(0, 0));
    drain(&mut terrain, &first.jobs, 0);
    let again = terrain.load_chunks(ReferencePoint::new(3, 9));
    assert!(again.jobs.is_empty());
    assert!(!again.synchronous);
    // One chunk further the distances, and with them some levels, change.
    let moved = terrain.load_chunks(ReferencePoint::new(10, 0));
    assert!(!moved.jobs.is_empty());
    for job in &moved.jobs {
        match terrain.chunk(&job.position) {
            Some(chunk) => assert!(chunk.lod != job.lod),
            None => assert!(
                job.position.x * job.position.x + job.position.z * job.position.z > 100 * 100
            ),
        }
    }
}

#[test]
fn consume_upserts_by_coordinate() {
    let mut terrain = Terrain::default();
    assert!(terrain.is_empty());
    assert!(terrain.consume(at(50, 100), 3, 11, 700));
    assert!(!terrain.is_empty());
    assert!(!terrain.consume(at(50, 100), 3, 12, 800));
    assert!(!terrain.consume(at(50, 100), 4, 13, 900));
    let chunk = terrain.chunk(&at(50, 100)).unwrap();
    assert_eq!((chunk.lod, chunk.mesh, chunk.entity), (4, 13, 700));
    assert_eq!(terrain.positions(), vec![at(50, 100)]);
}

#[test]
fn consuming_twice_in_either_order_keeps_one_chunk() {
    let run = |first: (u64, u64), second: (u64, u64)| {
        let mut terrain = Terrain::default();
        let plan = terrain.load_chunks(ReferencePoint::new(0, 0));
        assert!(plan.jobs.iter().any(|j| j.position == at(100, 0)));
        let created_first = terrain.consume(at(100, 0), 0, first.0, first.1);
        let created_second = terrain.consume(at(100, 0), 0, second.0, second.1);
        let chunk = terrain.chunk(&at(100, 0)).unwrap();
        (
            created_first,
            created_second,
            terrain.positions().len(),
            terrain.is_pending(&at(100, 0)),
            chunk.lod,
            chunk.mesh,
            chunk.entity,
        )
    };
    assert_eq!(run((1, 10), (2, 20)), (true, false, 1, false, 0, 2, 10));
    assert_eq!(run((2, 20), (1, 10)), (true, false, 1, false, 0, 1, 20));
}

#[test]
fn a_stale_result_is_still_applied() {
    let mut terrain = Terrain::default();
    let first = terrain.update_chunks(ReferencePoint::new(0, 0));
    let far = first.plan.jobs.iter().find(|j| j.position == at(-2000, 0)).copied().unwrap();
    let second = terrain.update_chunks(ReferencePoint::new(2500, 0));
    assert!(second.unloaded.is_empty());
    assert!(terrain.is_pending(&far.position));
    assert!(terrain.consume(far.position, far.lod, 1, 1));
    assert!(terrain.chunk(&at(-2000, 0)).is_some());
    // The next sweep takes it out again.
    let third = terrain.update_chunks(ReferencePoint::new(2500, 0));
    assert_eq!(third.unloaded.len(), 1);
    assert_eq!(third.unloaded[0].position, at(-2000, 0));
}

#[test]
fn negative_reference_points_snap_downwards() {
    let mut terrain = Terrain::new(50, 50, vec![3]).unwrap();
    let plan = terrain.load_chunks(ReferencePoint::new(-1, -51));
    let got: Vec<(i64, i64)> = plan.jobs.iter().map(|j| (j.position.x, j.position.z)).collect();
    assert_eq!(got, vec![(-100, -100), (-50, -150), (-50, -100), (-50, -50), (0, -100)]);
    assert_eq!(ReferencePoint::new(-1, -51).snap(50), at(-50, -100));
    assert_eq!(ReferencePoint::new(49, 50).snap(50), at(0, 50));
    assert_eq!(ReferencePoint::new(-50, 0).snap(50), at(-50, 0));
    assert_eq!(ReferencePoint::new(i32::MIN, i32::MAX).snap(7), at(-2147483653, 2147483646));
}

#[test]
fn extreme_reference_points_are_served() {
    let mut terrain = Terrain::new(i32::MAX, u32::MAX, vec![2, 2]).unwrap();
    let plan = terrain.load_chunks(ReferencePoint::new(i32::MAX, i32::MIN));
    assert_eq!(plan.jobs.len(), 13);
    assert_eq!(plan.jobs[0].position, at(-2147483647, -4294967294));
    assert_eq!(plan.jobs[6].position, at(2147483647, -4294967294));
    assert_eq!(plan.jobs[6].lod, 0);
    assert_eq!(plan.jobs[0].lod, 0);
}
