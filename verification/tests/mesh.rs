use terrain_chunks::{ChunkCoordinate, ChunkJob, HeightMap, PlaneAssetLoader};

fn sample(x: usize, z: usize) -> (f32, [f32; 3]) {
    ((10 * x + z) as f32, [x as f32, 1.0, z as f32])
}

#[test]
fn generate_asks_for_every_grid_point() {
    let map = HeightMap::generate(50, 4, sample);
    assert_eq!(map.size, 50);
    assert_eq!(map.row_size, 4);
    assert_eq!(map.heights.len(), 4);
    assert_eq!(map.normals.len(), 4);
    for x in 0..4 {
        assert_eq!(map.heights[x].len(), 4);
        assert_eq!(map.normals[x].len(), 4);
        for z in 0..4 {
            assert_eq!(map.heights[x][z], (10 * x + z) as f32);
            assert_eq!(map.normals[x][z], [x as f32, 1.0, z as f32]);
        }
    }
}

#[test]
fn smallest_mesh() {
    let mesh = HeightMap::generate(50, 2, sample).generate_mesh();
    assert_eq!(mesh.vertices.len(), 4);
    let order: Vec<(usize, usize, f32)> =
        mesh.vertices.iter().map(|v| (v.x_index, v.z_index, v.height)).collect();
    assert_eq!(order, vec![(0, 0, 0.0), (0, 1, 1.0), (1, 0, 10.0), (1, 1, 11.0)]);
    assert_eq!(mesh.indices, vec![0, 3, 2, 0, 1, 3]);
}

#[test]
fn mesh_of_three_by_three() {
    let mesh = HeightMap::generate(50, 3, sample).generate_mesh();
    assert_eq!(mesh.vertices.len(), 9);
    assert_eq!(
        mesh.indices,
        vec![
            0, 4, 3, 0, 1, 4, // quad ending at (1, 1)
            3, 7, 6, 3, 4, 7, // quad ending at (1, 2)
            1, 5, 4, 1, 2, 5, // quad ending at (2, 1)
            4, 8, 7, 4, 5, 8, // quad ending at (2, 2)
        ]
    );
    assert_eq!(mesh.vertices[5].x_index, 1);
    assert_eq!(mesh.vertices[5].z_index, 2);
    assert_eq!(mesh.vertices[5].normal, [1.0, 1.0, 2.0]);
}

#[test]
fn index_count_and_bounds() {
    for row_size in [2usize, 3, 5, 10, 15, 25, 50, 75] {
        let mesh = HeightMap::generate(50, row_size, sample).generate_mesh();
        assert_eq!(mesh.vertices.len(), row_size * row_size);
        assert_eq!(mesh.indices.len(), 6 * (row_size - 1) * (row_size - 1));
        assert!(mesh.indices.iter().all(|&i| (i as usize) < mesh.vertices.len()));
    }
}

#[test]
fn triangles_wind_upwards_and_are_not_degenerate() {
    let row_size = 6;
    let mesh = HeightMap::generate(50, row_size, sample).generate_mesh();
    for triangle in mesh.indices.chunks(3) {
        let corner: Vec<(i64, i64)> = triangle
            .iter()
            .map(|&i| {
                let v = &mesh.vertices[i as usize];
                (v.x_index as i64, v.z_index as i64)
            })
            .collect();
        // The y component of the cross product of the two edges that leave
        // the first corner, for corners (x, 0, z).
        let (a, b, c) = (corner[0], corner[1], corner[2]);
        let up = (b.1 - a.1) * (c.0 - a.0) - (b.0 - a.0) * (c.1 - a.1);
        assert_eq!(up, 1);
    }
}

#[test]
fn a_job_yields_the_map_and_the_mesh_of_its_chunk() {
    let job = ChunkJob { position: ChunkCoordinate::new(150, -50), lod: 4, resolution: 10 };
    let update = job.run(50, sample);
    assert_eq!(update.position, ChunkCoordinate::new(150, -50));
    assert_eq!(update.lod, 4);
    assert_eq!(update.height_map.size, 50);
    assert_eq!(update.height_map.row_size, 10);
    assert_eq!(update.height_map.heights[9][9], 99.0);
    assert_eq!(update.mesh.vertices.len(), 100);
    assert_eq!(update.mesh.indices.len(), 486);
    assert_eq!(update.mesh.vertices[37].height, update.height_map.heights[3][7]);
}

#[test]
fn plane_assets_are_found_by_extension() {
    assert_eq!(PlaneAssetLoader.extensions(), &["plane.ron"]);
}
