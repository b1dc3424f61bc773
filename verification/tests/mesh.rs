use scene_viewer::light::PointLightVertex;
use scene_viewer::mesh::{IndexOutOfRangeError, MeshData};

fn sub(a: [i32; 3], b: [i32; 3]) -> [i32; 3] {
    [a[0] - b[0], a[1] - b[1], a[2] - b[2]]
}

fn cross(a: [i32; 3], b: [i32; 3]) -> [i32; 3] {
    [
        a[1] * b[2] - a[2] * b[1],
        a[2] * b[0] - a[0] * b[2],
        a[0] * b[1] - a[1] * b[0],
    ]
}

fn dot(a: [i32; 3], b: [i32; 3]) -> i32 {
    a[0] * b[0] + a[1] * b[1] + a[2] * b[2]
}

fn corner(v: &PointLightVertex) -> [i32; 3] {
    [
        v.position[0] as i32,
        v.position[1] as i32,
        v.position[2] as i32,
    ]
}

#[test]
fn create_keeps_valid_data() {
    let mesh = MeshData::create(vec!['a', 'b', 'c'], vec![0, 1, 2, 2, 1, 0]).unwrap();
    assert_eq!(mesh.vertices(), &vec!['a', 'b', 'c']);
    assert_eq!(mesh.indices(), &vec![0u16, 1, 2, 2, 1, 0]);
    let (vertices, indices) = mesh.into_parts();
    assert_eq!(vertices, vec!['a', 'b', 'c']);
    assert_eq!(indices, vec![0u16, 1, 2, 2, 1, 0]);
}

#[test]
fn create_rejects_index_past_the_vertices() {
    let res = MeshData::create(vec![10u8, 20, 30], vec![0, 1, 5]);
    assert_eq!(
        res.err(),
        Some(IndexOutOfRangeError {
            index: 5,
            vertex_count: 3
        })
    );
}

#[test]
fn create_reports_the_first_offender() {
    let res = MeshData::create(vec![10u8, 20], vec![1, 7, 0, 9]);
    assert_eq!(
        res.err(),
        Some(IndexOutOfRangeError {
            index: 7,
            vertex_count: 2
        })
    );
}

#[test]
fn create_rejects_index_equal_to_the_vertex_count() {
    let res = MeshData::create(vec![10u8, 20, 30], vec![3]);
    assert_eq!(
        res.err(),
        Some(IndexOutOfRangeError {
            index: 3,
            vertex_count: 3
        })
    );
}

#[test]
fn create_accepts_empty_buffers() {
    let mesh = MeshData::<u8>::create(vec![], vec![]).unwrap();
    assert!(mesh.vertices().is_empty());
    assert!(mesh.indices().is_empty());
}

#[test]
fn create_rejects_any_index_without_vertices() {
    let res = MeshData::<u8>::create(vec![], vec![0]);
    assert_eq!(
        res.err(),
        Some(IndexOutOfRangeError {
            index: 0,
            vertex_count: 0
        })
    );
}

#[test]
fn cube_has_24_vertices_and_36_indices_in_range() {
    let cube = MeshData::<PointLightVertex>::cube();
    assert_eq!(cube.vertices().len(), 24);
    assert_eq!(cube.indices().len(), 36);
    assert!(cube.indices().iter().all(|i| *i < 24));
}

#[test]
fn cube_indices_are_two_triangles_per_face() {
    let cube = MeshData::<PointLightVertex>::cube();
    let expected: Vec<u16> = vec![
        0, 1, 2, 0, 2, 3, 4, 5, 6, 4, 6, 7, 8, 9, 10, 8, 10, 11, 12, 13, 14, 12, 14, 15, 16, 17,
        18, 16, 18, 19, 20, 21, 22, 20, 22, 23,
    ];
    assert_eq!(cube.indices(), &expected);
    for t in 0..12 {
        let face = (t / 2) as u16;
        for i in 0..3 {
            let index = cube.indices()[3 * t + i];
            assert!(4 * face <= index && index < 4 * face + 4);
        }
    }
}

#[test]
fn cube_corners_are_the_canonical_ones() {
    let cube = MeshData::<PointLightVertex>::cube();
    let v = cube.vertices();
    assert_eq!(v[0].position, [-1, -1, 1, 1]);
    assert_eq!(v[2].position, [1, 1, 1, 1]);
    assert_eq!(v[4].position, [-1, -1, -1, 1]);
    assert_eq!(v[11].position, [1, 1, -1, 1]);
    assert_eq!(v[16].position, [1, -1, -1, 1]);
    assert_eq!(v[23].position, [-1, 1, -1, 1]);
    assert!(v.iter().all(|p| p.position[3] == 1));
    assert!(v
        .iter()
        .all(|p| p.position[..3].iter().all(|c| *c == 1 || *c == -1)));
}

#[test]
fn cube_triangles_wind_outward() {
    let cube = MeshData::<PointLightVertex>::cube();
    let normals = [
        [0, 0, 1],
        [0, 0, -1],
        [0, 1, 0],
        [0, -1, 0],
        [1, 0, 0],
        [-1, 0, 0],
    ];
    for t in 0..12 {
        let a = corner(&cube.vertices()[cube.indices()[3 * t] as usize]);
        let b = corner(&cube.vertices()[cube.indices()[3 * t + 1] as usize]);
        let c = corner(&cube.vertices()[cube.indices()[3 * t + 2] as usize]);
        let n = cross(sub(b, a), sub(c, a));
        let face = normals[t / 2];
        assert_eq!(n, [4 * face[0], 4 * face[1], 4 * face[2]]);
        assert!(dot(n, a) > 0);
        assert_eq!(dot(a, face), 1);
        assert_eq!(dot(b, face), 1);
        assert_eq!(dot(c, face), 1);
    }
}

#[test]
fn cube_passes_its_own_validation() {
    let (vertices, indices) = MeshData::<PointLightVertex>::cube().into_parts();
    assert!(MeshData::create(vertices, indices).is_ok());
}
