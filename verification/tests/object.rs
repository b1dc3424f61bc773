use scene_viewer::object::{
    vertex_attributes_to_indexed_vertex_attributes, AttributeCounts, IndexTuple, ObjectKind,
    TooManyVerticesError, VertexLookupError, VertexSource,
};

fn bits(v: [f32; 3]) -> [u32; 3] {
    [v[0].to_bits(), v[1].to_bits(), v[2].to_bits()]
}

#[test]
fn shared_vertex_is_stored_once() {
    // two triangles that share the edge b-c
    let a = ([0.0f32, 0.0, 0.0], [0.0f32, 0.0, 1.0]);
    let b = ([1.0f32, 0.0, 0.0], [0.0f32, 0.0, 1.0]);
    let c = ([0.0f32, 1.0, 0.0], [0.0f32, 0.0, 1.0]);
    let d = ([1.0f32, 1.0, 0.0], [0.0f32, 0.0, 1.0]);
    let corners = vec![a, b, c, c, b, d];
    let items: Vec<_> = corners
        .iter()
        .map(|v| ((bits(v.0), bits(v.1)), *v))
        .collect();
    let (vertices, indices) = vertex_attributes_to_indexed_vertex_attributes(items).unwrap();
    assert_eq!(vertices, vec![a, b, c, d]);
    assert_eq!(indices, vec![0u16, 1, 2, 2, 1, 3]);
}

#[test]
fn first_occurrence_wins() {
    let items = vec![(7u32, "first"), (8, "other"), (7, "second"), (7, "third")];
    let (vertices, indices) = vertex_attributes_to_indexed_vertex_attributes(items).unwrap();
    assert_eq!(vertices, vec!["first", "other"]);
    assert_eq!(indices, vec![0u16, 1, 0, 0]);
}

#[test]
fn same_position_with_other_normal_is_another_vertex() {
    let items = vec![((1u32, 10u32), 'a'), ((1, 11), 'b'), ((1, 10), 'c')];
    let (vertices, indices) = vertex_attributes_to_indexed_vertex_attributes(items).unwrap();
    assert_eq!(vertices, vec!['a', 'b']);
    assert_eq!(indices, vec![0u16, 1, 0]);
}

#[test]
fn nothing_gives_nothing() {
    let items: Vec<(u32, u8)> = vec![];
    let (vertices, indices) = vertex_attributes_to_indexed_vertex_attributes(items).unwrap();
    assert!(vertices.is_empty());
    assert!(indices.is_empty());
}

#[test]
fn all_distinct_keeps_order() {
    let items: Vec<(u32, u32)> = (0..100).map(|i| (1000 - i, i)).collect();
    let (vertices, indices) = vertex_attributes_to_indexed_vertex_attributes(items).unwrap();
    assert_eq!(vertices, (0..100).collect::<Vec<u32>>());
    assert_eq!(indices, (0..100).collect::<Vec<u16>>());
}

#[test]
fn as_many_vertices_as_indices_can_name_are_accepted() {
    let mut items: Vec<(u32, u32)> = (0..65536).map(|i| (i, i)).collect();
    items.push((65535, 0));
    items.push((0, 0));
    let (vertices, indices) = vertex_attributes_to_indexed_vertex_attributes(items).unwrap();
    assert_eq!(vertices.len(), 65536);
    assert_eq!(indices.len(), 65538);
    assert_eq!(indices[65535], 65535);
    assert_eq!(indices[65536], 65535);
    assert_eq!(indices[65537], 0);
}

#[test]
fn one_vertex_too_many_is_rejected() {
    let items: Vec<(u32, u32)> = (0..65537).map(|i| (i, i)).collect();
    assert_eq!(
        vertex_attributes_to_indexed_vertex_attributes(items).err(),
        Some(TooManyVerticesError)
    );
}

fn counts() -> AttributeCounts {
    AttributeCounts {
        positions: 4,
        texture_coords: Some(3),
        normals: 2,
    }
}

#[test]
fn resolve_gives_the_three_indices() {
    let t = IndexTuple(3, Some(2), Some(1));
    assert_eq!(
        counts().resolve(ObjectKind::WithTexture, &t),
        Ok(VertexSource {
            position: 3,
            texture_coord: Some(2),
            normal: 1
        })
    );
    assert_eq!(
        counts().resolve(ObjectKind::NoTexture, &t),
        Ok(VertexSource {
            position: 3,
            texture_coord: Some(2),
            normal: 1
        })
    );
}

#[test]
fn resolve_drops_texture_index_when_model_has_no_texture_coords() {
    let c = AttributeCounts {
        positions: 4,
        texture_coords: None,
        normals: 2,
    };
    assert_eq!(
        c.resolve(ObjectKind::NoTexture, &IndexTuple(0, Some(99), Some(0))),
        Ok(VertexSource {
            position: 0,
            texture_coord: None,
            normal: 0
        })
    );
    assert_eq!(
        c.resolve(ObjectKind::WithTexture, &IndexTuple(0, Some(99), Some(0))),
        Err(VertexLookupError::MissingTextureCoord)
    );
}

#[test]
fn resolve_position_not_found() {
    assert_eq!(
        counts().resolve(ObjectKind::NoTexture, &IndexTuple(4, Some(9), Some(9))),
        Err(VertexLookupError::PositionNotFound)
    );
}

#[test]
fn resolve_texture_coord_not_found() {
    assert_eq!(
        counts().resolve(ObjectKind::NoTexture, &IndexTuple(0, Some(3), Some(9))),
        Err(VertexLookupError::TextureCoordNotFound)
    );
}

#[test]
fn resolve_normal_not_found() {
    assert_eq!(
        counts().resolve(ObjectKind::WithTexture, &IndexTuple(0, None, Some(2))),
        Err(VertexLookupError::NormalNotFound)
    );
}

#[test]
fn resolve_missing_normal() {
    assert_eq!(
        counts().resolve(ObjectKind::WithTexture, &IndexTuple(0, None, None)),
        Err(VertexLookupError::MissingNormal)
    );
    assert_eq!(
        counts().resolve(ObjectKind::NoTexture, &IndexTuple(0, Some(0), None)),
        Err(VertexLookupError::MissingNormal)
    );
}

#[test]
fn resolve_missing_texture_coord() {
    assert_eq!(
        counts().resolve(ObjectKind::WithTexture, &IndexTuple(0, None, Some(0))),
        Err(VertexLookupError::MissingTextureCoord)
    );
    assert_eq!(
        counts().resolve(ObjectKind::NoTexture, &IndexTuple(0, None, Some(0))),
        Ok(VertexSource {
            position: 0,
            texture_coord: None,
            normal: 0
        })
    );
}

#[test]
fn resolve_group_flattens_polygons_in_order() {
    let polys = vec![
        vec![
            IndexTuple(0, Some(0), Some(0)),
            IndexTuple(1, Some(1), Some(0)),
            IndexTuple(2, Some(2), Some(0)),
        ],
        vec![],
        vec![IndexTuple(3, Some(0), Some(1))],
    ];
    let out = counts()
        .resolve_group(ObjectKind::WithTexture, &polys)
        .unwrap();
    assert_eq!(
        out,
        vec![
            VertexSource {
                position: 0,
                texture_coord: Some(0),
                normal: 0
            },
            VertexSource {
                position: 1,
                texture_coord: Some(1),
                normal: 0
            },
            VertexSource {
                position: 2,
                texture_coord: Some(2),
                normal: 0
            },
            VertexSource {
                position: 3,
                texture_coord: Some(0),
                normal: 1
            },
        ]
    );
}

#[test]
fn resolve_group_reports_the_first_failing_corner() {
    let polys = vec![
        vec![IndexTuple(0, Some(0), Some(0)), IndexTuple(1, None, Some(5))],
        vec![IndexTuple(9, Some(0), Some(1))],
    ];
    assert_eq!(
        counts().resolve_group(ObjectKind::NoTexture, &polys),
        Err(VertexLookupError::NormalNotFound)
    );
    assert_eq!(
        counts().resolve_group(ObjectKind::NoTexture, &vec![]),
        Ok(vec![])
    );
}

#[test]
fn faces_sharing_a_vertex_reference_one_entry() {
    // a quad split into two faces; corners 0 and 2 are shared
    let positions = [[0.0f32, 0.0, 0.0], [1.0, 0.0, 0.0], [1.0, 1.0, 0.0], [0.0, 1.0, 0.0]];
    let normals = [[0.0f32, 0.0, 1.0]];
    let uvs = [[0.0f32, 0.0], [1.0, 0.0], [1.0, 1.0], [0.0, 1.0]];
    let c = AttributeCounts {
        positions: positions.len(),
        texture_coords: Some(uvs.len()),
        normals: normals.len(),
    };
    let polys = vec![
        vec![
            IndexTuple(0, Some(0), Some(0)),
            IndexTuple(1, Some(1), Some(0)),
            IndexTuple(2, Some(2), Some(0)),
        ],
        vec![
            IndexTuple(0, Some(0), Some(0)),
            IndexTuple(2, Some(2), Some(0)),
            IndexTuple(3, Some(3), Some(0)),
        ],
    ];
    let sources = c.resolve_group(ObjectKind::WithTexture, &polys).unwrap();
    let items: Vec<_> = sources
        .iter()
        .map(|s| {
            let p = positions[s.position];
            let n = normals[s.normal];
            let uv = uvs[s.texture_coord.unwrap()];
            (
                (bits(p), bits(n), [uv[0].to_bits(), uv[1].to_bits()]),
                (p, n, uv),
            )
        })
        .collect();
    let (vertices, indices) = vertex_attributes_to_indexed_vertex_attributes(items).unwrap();
    assert_eq!(vertices.len(), 4);
    assert_eq!(indices, vec![0u16, 1, 2, 0, 2, 3]);
    assert_eq!(vertices[0], (positions[0], normals[0], uvs[0]));
    assert_eq!(vertices[2], (positions[2], normals[0], uvs[2]));
}
