//! Indexed triangle geometry, validated before it is handed to the GPU.
//!
//! A [`MeshData`] pairs a vertex list with 16-bit indices into it and carries
//! the guarantee that every index names an existing vertex.

use vstd::prelude::*;

verus! {

/// A vertex that can be made from a position alone.
///
/// Positions are given in whole units, which is all the built-in gizmo
/// geometry needs.
pub trait SimpleVertex: Sized {
    /// The position this vertex stands at.
    spec fn position(&self) -> (int, int, int);

    fn create_from_position(x: i8, y: i8, z: i8) -> (v: Self)
        ensures
            v.position() == (x as int, y as int, z as int),
    ;
}

/// An index of a mesh names no vertex.
#[derive(Debug, Clone, Copy, PartialEq, Eq)]
pub struct IndexOutOfRangeError {
    /// The first offending index, in buffer order.
    pub index: u16,
    /// The length of the vertex buffer it was checked against.
    pub vertex_count: usize,
}

/// Every index names one of `vertex_count` vertices.
pub open spec fn indices_in_range(indices: Seq<u16>, vertex_count: nat) -> bool {
    forall|i: int| 0 <= i < indices.len() ==> (#[trigger] indices[i] as nat) < vertex_count
}

/// `k` is the first place in `indices` that names no vertex.
pub open spec fn first_out_of_range(indices: Seq<u16>, vertex_count: nat, k: int) -> bool {
    &&& 0 <= k < indices.len()
    &&& indices[k] as nat >= vertex_count
    &&& indices_in_range(indices.take(k), vertex_count)
}

/// The difference of two vectors.
pub open spec fn sub3(a: (int, int, int), b: (int, int, int)) -> (int, int, int) {
    (a.0 - b.0, a.1 - b.1, a.2 - b.2)
}

/// The dot product of two vectors.
pub open spec fn dot3(a: (int, int, int), b: (int, int, int)) -> int {
    a.0 * b.0 + a.1 * b.1 + a.2 * b.2
}

/// The cross product of two vectors.
pub open spec fn cross3(a: (int, int, int), b: (int, int, int)) -> (int, int, int) {
    (a.1 * b.2 - a.2 * b.1, a.2 * b.0 - a.0 * b.2, a.0 * b.1 - a.1 * b.0)
}

/// The normal of triangle `(a, b, c)` by the right-hand rule, scaled by twice
/// its area.
pub open spec fn triangle_normal(a: (int, int, int), b: (int, int, int), c: (int, int, int)) -> (
    int,
    int,
    int,
) {
    cross3(sub3(b, a), sub3(c, a))
}

/// The 24 corner positions of the canonical cube: four per face, in the order
/// front, back, top, bottom, right, left.
pub open spec fn cube_positions() -> Seq<(int, int, int)> {
    seq![
        (-1int, -1int, 1int), (1int, -1int, 1int), (1int, 1int, 1int), (-1int, 1int, 1int),
        (-1int, -1int, -1int), (-1int, 1int, -1int), (1int, 1int, -1int), (1int, -1int, -1int),
        (-1int, 1int, -1int), (-1int, 1int, 1int), (1int, 1int, 1int), (1int, 1int, -1int),
        (-1int, -1int, -1int), (1int, -1int, -1int), (1int, -1int, 1int), (-1int, -1int, 1int),
        (1int, -1int, -1int), (1int, 1int, -1int), (1int, 1int, 1int), (1int, -1int, 1int),
        (-1int, -1int, -1int), (-1int, -1int, 1int), (-1int, 1int, 1int), (-1int, 1int, -1int),
    ]
}

/// The 36 indices of the canonical cube: two triangles per face.
pub open spec fn cube_indices() -> Seq<u16> {
    seq![
        0u16, 1u16, 2u16, 0u16, 2u16, 3u16,
        4u16, 5u16, 6u16, 4u16, 6u16, 7u16,
        8u16, 9u16, 10u16, 8u16, 10u16, 11u16,
        12u16, 13u16, 14u16, 12u16, 14u16, 15u16,
        16u16, 17u16, 18u16, 16u16, 18u16, 19u16,
        20u16, 21u16, 22u16, 20u16, 22u16, 23u16,
    ]
}

/// The outward unit normal of each cube face, in face order.
pub open spec fn cube_face_normals() -> Seq<(int, int, int)> {
    seq![
        (0int, 0int, 1int), (0int, 0int, -1int),
        (0int, 1int, 0int), (0int, -1int, 0int),
        (1int, 0int, 0int), (-1int, 0int, 0int),
    ]
}

/// Corner `i` of triangle `t` of the canonical cube.
pub open spec fn cube_triangle_corner(t: int, i: int) -> (int, int, int) {
    cube_positions()[cube_indices()[3 * t + i] as int]
}

/// Triangle `t` of the canonical cube belongs to face `t / 2`: its corners
/// are among that face's four vertices, and its right-hand normal is four
/// times the face's outward normal.
pub open spec fn cube_triangle_is_outward(t: int) -> bool {
    let f = t / 2;
    &&& forall|i: int|
        0 <= i < 3 ==> 4 * f <= #[trigger] cube_indices()[3 * t + i] < 4 * f + 4
    &&& triangle_normal(
        cube_triangle_corner(t, 0),
        cube_triangle_corner(t, 1),
        cube_triangle_corner(t, 2),
    ) == (
        4 * cube_face_normals()[f].0,
        4 * cube_face_normals()[f].1,
        4 * cube_face_normals()[f].2,
    )
}

/// The canonical cube has 24 vertices and 36 indices, and every index names a
/// vertex.
pub proof fn lemma_cube_indices_in_range()
    ensures
        cube_positions().len() == 24,
        cube_indices().len() == 36,
        indices_in_range(cube_indices(), 24),
{
}

/// Each of the six faces of the canonical cube lies in the plane at distance
/// one from the origin along its outward normal.
pub proof fn lemma_cube_faces_are_planar(f: int, j: int)
    requires
        0 <= f < 6,
        0 <= j < 4,
    ensures
        dot3(cube_positions()[4 * f + j], cube_face_normals()[f]) == 1,
{
    let p = cube_positions();
    let n = cube_face_normals();
    if f == 0 {
        assert(n[0] == (0int, 0int, 1int));
        if j == 0 {
            assert(p[0] == (-1int, -1int, 1int));
            assert(dot3((-1int, -1int, 1int), (0int, 0int, 1int)) == 1) by (nonlinear_arith);
        } else if j == 1 {
            assert(p[1] == (1int, -1int, 1int));
            assert(dot3((1int, -1int, 1int), (0int, 0int, 1int)) == 1) by (nonlinear_arith);
        } else if j == 2 {
            assert(p[2] == (1int, 1int, 1int));
            assert(dot3((1int, 1int, 1int), (0int, 0int, 1int)) == 1) by (nonlinear_arith);
        } else if j == 3 {
            assert(p[3] == (-1int, 1int, 1int));
            assert(dot3((-1int, 1int, 1int), (0int, 0int, 1int)) == 1) by (nonlinear_arith);
        }
    } else if f == 1 {
        assert(n[1] == (0int, 0int, -1int));
        if j == 0 {
            assert(p[4] == (-1int, -1int, -1int));
            assert(dot3((-1int, -1int, -1int), (0int, 0int, -1int)) == 1) by (nonlinear_arith);
        } else if j == 1 {
            assert(p[5] == (-1int, 1int, -1int));
            assert(dot3((-1int, 1int, -1int), (0int, 0int, -1int)) == 1) by (nonlinear_arith);
        } else if j == 2 {
            assert(p[6] == (1int, 1int, -1int));
            assert(dot3((1int, 1int, -1int), (0int, 0int, -1int)) == 1) by (nonlinear_arith);
        } else if j == 3 {
            assert(p[7] == (1int, -1int, -1int));
            assert(dot3((1int, -1int, -1int), (0int, 0int, -1int)) == 1) by (nonlinear_arith);
        }
    } else if f == 2 {
        assert(n[2] == (0int, 1int, 0int));
        if j == 0 {
            assert(p[8] == (-1int, 1int, -1int));
            assert(dot3((-1int, 1int, -1int), (0int, 1int, 0int)) == 1) by (nonlinear_arith);
        } else if j == 1 {
            assert(p[9] == (-1int, 1int, 1int));
            assert(dot3((-1int, 1int, 1int), (0int, 1int, 0int)) == 1) by (nonlinear_arith);
        } else if j == 2 {
            assert(p[10] == (1int, 1int, 1int));
            assert(dot3((1int, 1int, 1int), (0int, 1int, 0int)) == 1) by (nonlinear_arith);
        } else if j == 3 {
            assert(p[11] == (1int, 1int, -1int));
            assert(dot3((1int, 1int, -1int), (0int, 1int, 0int)) == 1) by (nonlinear_arith);
        }
    } else if f == 3 {
        assert(n[3] == (0int, -1int, 0int));
        if j == 0 {
            assert(p[12] == (-1int, -1int, -1int));
            assert(dot3((-1int, -1int, -1int), (0int, -1int, 0int)) == 1) by (nonlinear_arith);
        } else if j == 1 {
            assert(p[13] == (1int, -1int, -1int));
            assert(dot3((1int, -1int, -1int), (0int, -1int, 0int)) == 1) by (nonlinear_arith);
        } else if j == 2 {
            assert(p[14] == (1int, -1int, 1int));
            assert(dot3((1int, -1int, 1int), (0int, -1int, 0int)) == 1) by (nonlinear_arith);
        } else if j == 3 {
            assert(p[15] == (-1int, -1int, 1int));
            assert(dot3((-1int, -1int, 1int), (0int, -1int, 0int)) == 1) by (nonlinear_arith);
        }
    } else if f == 4 {
        assert(n[4] == (1int, 0int, 0int));
        if j == 0 {
            assert(p[16] == (1int, -1int, -1int));
            assert(dot3((1int, -1int, -1int), (1int, 0int, 0int)) == 1) by (nonlinear_arith);
        } else if j == 1 {
            assert(p[17] == (1int, 1int, -1int));
            assert(dot3((1int, 1int, -1int), (1int, 0int, 0int)) == 1) by (nonlinear_arith);
        } else if j == 2 {
            assert(p[18] == (1int, 1int, 1int));
            assert(dot3((1int, 1int, 1int), (1int, 0int, 0int)) == 1) by (nonlinear_arith);
        } else if j == 3 {
            assert(p[19] == (1int, -1int, 1int));
            assert(dot3((1int, -1int, 1int), (1int, 0int, 0int)) == 1) by (nonlinear_arith);
        }
    } else if f == 5 {
        assert(n[5] == (-1int, 0int, 0int));
        if j == 0 {
            assert(p[20] == (-1int, -1int, -1int));
            assert(dot3((-1int, -1int, -1int), (-1int, 0int, 0int)) == 1) by (nonlinear_arith);
        } else if j == 1 {
            assert(p[21] == (-1int, -1int, 1int));
            assert(dot3((-1int, -1int, 1int), (-1int, 0int, 0int)) == 1) by (nonlinear_arith);
        } else if j == 2 {
            assert(p[22] == (-1int, 1int, 1int));
            assert(dot3((-1int, 1int, 1int), (-1int, 0int, 0int)) == 1) by (nonlinear_arith);
        } else if j == 3 {
            assert(p[23] == (-1int, 1int, -1int));
            assert(dot3((-1int, 1int, -1int), (-1int, 0int, 0int)) == 1) by (nonlinear_arith);
        }
    }
}

/// Each of the six faces of the canonical cube contributes two triangles,
/// both wound so that they face outward.
pub proof fn lemma_cube_winding_is_outward(t: int)
    requires
        0 <= t < 12,
    ensures
        cube_triangle_is_outward(t),
{
    let ix = cube_indices();
    let p = cube_positions();
    let n = cube_face_normals();
    if t == 0 {
        assert(ix[0] == 0 && p[0] == (-1int, -1int, 1int));
        assert(ix[1] == 1 && p[1] == (1int, -1int, 1int));
        assert(ix[2] == 2 && p[2] == (1int, 1int, 1int));
        assert(n[0] == (0int, 0int, 1int));
        assert(triangle_normal((-1int, -1int, 1int), (1int, -1int, 1int), (1int, 1int, 1int)) == (0int, 0int, 4int)) by (nonlinear_arith);
    } else if t == 1 {
        assert(ix[3] == 0 && p[0] == (-1int, -1int, 1int));
        assert(ix[4] == 2 && p[2] == (1int, 1int, 1int));
        assert(ix[5] == 3 && p[3] == (-1int, 1int, 1int));
        assert(n[0] == (0int, 0int, 1int));
        assert(triangle_normal((-1int, -1int, 1int), (1int, 1int, 1int), (-1int, 1int, 1int)) == (0int, 0int, 4int)) by (nonlinear_arith);
    } else if t == 2 {
        assert(ix[6] == 4 && p[4] == (-1int, -1int, -1int));
        assert(ix[7] == 5 && p[5] == (-1int, 1int, -1int));
        assert(ix[8] == 6 && p[6] == (1int, 1int, -1int));
        assert(n[1] == (0int, 0int, -1int));
        assert(triangle_normal((-1int, -1int, -1int), (-1int, 1int, -1int), (1int, 1int, -1int)) == (0int, 0int, -4int)) by (nonlinear_arith);
    } else if t == 3 {
        assert(ix[9] == 4 && p[4] == (-1int, -1int, -1int));
        assert(ix[10] == 6 && p[6] == (1int, 1int, -1int));
        assert(ix[11] == 7 && p[7] == (1int, -1int, -1int));
        assert(n[1] == (0int, 0int, -1int));
        assert(triangle_normal((-1int, -1int, -1int), (1int, 1int, -1int), (1int, -1int, -1int)) == (0int, 0int, -4int)) by (nonlinear_arith);
    } else if t == 4 {
        assert(ix[12] == 8 && p[8] == (-1int, 1int, -1int));
        assert(ix[13] == 9 && p[9] == (-1int, 1int, 1int));
        assert(ix[14] == 10 && p[10] == (1int, 1int, 1int));
        assert(n[2] == (0int, 1int, 0int));
        assert(triangle_normal((-1int, 1int, -1int), (-1int, 1int, 1int), (1int, 1int, 1int)) == (0int, 4int, 0int)) by (nonlinear_arith);
    } else if t == 5 {
        assert(ix[15] == 8 && p[8] == (-1int, 1int, -1int));
        assert(ix[16] == 10 && p[10] == (1int, 1int, 1int));
        assert(ix[17] == 11 && p[11] == (1int, 1int, -1int));
        assert(n[2] == (0int, 1int, 0int));
        assert(triangle_normal((-1int, 1int, -1int), (1int, 1int, 1int), (1int, 1int, -1int)) == (0int, 4int, 0int)) by (nonlinear_arith);
    } else if t == 6 {
        assert(ix[18] == 12 && p[12] == (-1int, -1int, -1int));
        assert(ix[19] == 13 && p[13] == (1int, -1int, -1int));
        assert(ix[20] == 14 && p[14] == (1int, -1int, 1int));
        assert(n[3] == (0int, -1int, 0int));
        assert(triangle_normal((-1int, -1int, -1int), (1int, -1int, -1int), (1int, -1int, 1int)) == (0int, -4int, 0int)) by (nonlinear_arith);
    } else if t == 7 {
        assert(ix[21] == 12 && p[12] == (-1int, -1int, -1int));
        assert(ix[22] == 14 && p[14] == (1int, -1int, 1int));
        assert(ix[23] == 15 && p[15] == (-1int, -1int, 1int));
        assert(n[3] == (0int, -1int, 0int));
        assert(triangle_normal((-1int, -1int, -1int), (1int, -1int, 1int), (-1int, -1int, 1int)) == (0int, -4int, 0int)) by (nonlinear_arith);
    } else if t == 8 {
        assert(ix[24] == 16 && p[16] == (1int, -1int, -1int));
        assert(ix[25] == 17 && p[17] == (1int, 1int, -1int));
        assert(ix[26] == 18 && p[18] == (1int, 1int, 1int));
        assert(n[4] == (1int, 0int, 0int));
        assert(triangle_normal((1int, -1int, -1int), (1int, 1int, -1int), (1int, 1int, 1int)) == (4int, 0int, 0int)) by (nonlinear_arith);
    } else if t == 9 {
        assert(ix[27] == 16 && p[16] == (1int, -1int, -1int));
        assert(ix[28] == 18 && p[18] == (1int, 1int, 1int));
        assert(ix[29] == 19 && p[19] == (1int, -1int, 1int));
        assert(n[4] == (1int, 0int, 0int));
        assert(triangle_normal((1int, -1int, -1int), (1int, 1int, 1int), (1int, -1int, 1int)) == (4int, 0int, 0int)) by (nonlinear_arith);
    } else if t == 10 {
        assert(ix[30] == 20 && p[20] == (-1int, -1int, -1int));
        assert(ix[31] == 21 && p[21] == (-1int, -1int, 1int));
        assert(ix[32] == 22 && p[22] == (-1int, 1int, 1int));
        assert(n[5] == (-1int, 0int, 0int));
        assert(triangle_normal((-1int, -1int, -1int), (-1int, -1int, 1int), (-1int, 1int, 1int)) == (-4int, 0int, 0int)) by (nonlinear_arith);
    } else if t == 11 {
        assert(ix[33] == 20 && p[20] == (-1int, -1int, -1int));
        assert(ix[34] == 22 && p[22] == (-1int, 1int, 1int));
        assert(ix[35] == 23 && p[23] == (-1int, 1int, -1int));
        assert(n[5] == (-1int, 0int, 0int));
        assert(triangle_normal((-1int, -1int, -1int), (-1int, 1int, 1int), (-1int, 1int, -1int)) == (-4int, 0int, 0int)) by (nonlinear_arith);
    }
}

/// Vertices and indices of one mesh, with every index in range.
pub struct MeshData<V> {
    vertices: Vec<V>,
    indices: Vec<u16>,
}

impl<V> MeshData<V> {
    #[verifier::type_invariant]
    spec fn well_formed(self) -> bool {
        indices_in_range(self.indices@, self.vertices@.len())
    }

    /// The vertex buffer.
    pub closed spec fn spec_vertices(&self) -> Seq<V> {
        self.vertices@
    }

    /// The index buffer.
    pub closed spec fn spec_indices(&self) -> Seq<u16> {
        self.indices@
    }

    /// Pairs `vertices` with `indices`, or reports the first index that names
    /// no vertex.
    pub fn create(vertices: Vec<V>, indices: Vec<u16>) -> (res: Result<Self, IndexOutOfRangeError>)
        ensures
            match res {
                Ok(mesh) => {
                    &&& indices_in_range(indices@, vertices@.len())
                    &&& mesh.spec_vertices() == vertices@
                    &&& mesh.spec_indices() == indices@
                },
                Err(e) => {
                    &&& e.vertex_count == vertices@.len()
                    &&& exists|k: int|
                        first_out_of_range(indices@, vertices@.len(), k) && indices@[k] == e.index
                },
            },
    {
        let vertex_count = vertices.len();
        let mut i: usize = 0;
        while i < indices.len()
            invariant
                i <= indices@.len(),
                vertex_count == vertices@.len(),
                indices_in_range(indices@.take(i as int), vertices@.len()),
            decreases indices@.len() - i,
        {
            let index = indices[i];
            if index as usize >= vertex_count {
                assert(first_out_of_range(indices@, vertices@.len(), i as int));
                return Err(IndexOutOfRangeError { index, vertex_count });
            }
            assert forall|j: int| 0 <= j < i + 1 implies (#[trigger] indices@.take(i + 1)[j] as nat)
                < vertices@.len() by {
                if j < i {
                    assert(indices@.take(i as int)[j] == indices@[j]);
                }
            }
            i += 1;
        }
        assert(indices@.take(i as int) =~= indices@);
        Ok(MeshData { vertices, indices })
    }

    /// The vertex buffer.
    pub fn vertices(&self) -> (v: &Vec<V>)
        ensures
            v@ == self.spec_vertices(),
    {
        &self.vertices
    }

    /// The index buffer; every index in it names a vertex.
    pub fn indices(&self) -> (ix: &Vec<u16>)
        ensures
            ix@ == self.spec_indices(),
            indices_in_range(ix@, self.spec_vertices().len()),
    {
        proof {
            use_type_invariant(self);
        }
        &self.indices
    }

    /// Gives up the two buffers, vertices first.
    pub fn into_parts(self) -> (parts: (Vec<V>, Vec<u16>))
        ensures
            parts.0@ == self.spec_vertices(),
            parts.1@ == self.spec_indices(),
            indices_in_range(parts.1@, parts.0@.len()),
    {
        proof {
            use_type_invariant(&self);
        }
        (self.vertices, self.indices)
    }
}

impl<V: SimpleVertex> MeshData<V> {
    /// The canonical cube spanning -1 to 1 on every axis: 6 faces of 4
    /// vertices each, two outward-wound triangles per face.
    pub fn cube() -> (mesh: Self)
        ensures
            mesh.spec_indices() == cube_indices(),
            mesh.spec_vertices().len() == 24,
            forall|i: int|
                0 <= i < 24 ==> (#[trigger] mesh.spec_vertices()[i]).position()
                    == cube_positions()[i],
    {
        let v = vec![
            // front
            V::create_from_position(-1, -1, 1),
            V::create_from_position(1, -1, 1),
            V::create_from_position(1, 1, 1),
            V::create_from_position(-1, 1, 1),
            // back
            V::create_from_position(-1, -1, -1),
            V::create_from_position(-1, 1, -1),
            V::create_from_position(1, 1, -1),
            V::create_from_position(1, -1, -1),
            // top
            V::create_from_position(-1, 1, -1),
            V::create_from_position(-1, 1, 1),
            V::create_from_position(1, 1, 1),
            V::create_from_position(1, 1, -1),
            // bottom
            V::create_from_position(-1, -1, -1),
            V::create_from_position(1, -1, -1),
            V::create_from_position(1, -1, 1),
            V::create_from_position(-1, -1, 1),
            // right
            V::create_from_position(1, -1, -1),
            V::create_from_position(1, 1, -1),
            V::create_from_position(1, 1, 1),
            V::create_from_position(1, -1, 1),
            // left
            V::create_from_position(-1, -1, -1),
            V::create_from_position(-1, -1, 1),
            V::create_from_position(-1, 1, 1),
            V::create_from_position(-1, 1, -1),
        ];
        let ix: Vec<u16> = vec![
            0, 1, 2, 0, 2, 3,  // front
            4, 5, 6, 4, 6, 7,  // back
            8, 9, 10, 8, 10, 11,  // top
            12, 13, 14, 12, 14, 15,  // bottom
            16, 17, 18, 16, 18, 19,  // right
            20, 21, 22, 20, 22, 23,  // left
        ];
        proof {
            assert(ix@ =~= cube_indices());
            lemma_cube_indices_in_range();
        }
        MeshData { vertices: v, indices: ix }
    }
}

} // verus!
