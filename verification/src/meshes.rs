//! Built-in meshes on the unit lattice: a cube with a separate triangle pair per face,
//! single faces, an indexed textured cube, and the index list of a UV sphere.
//! Coordinates are whole numbers here; the renderer reads them as `f32`.
use vstd::prelude::*;

verus! {

/// A vertex of a flat-colored mesh.
#[derive(Clone, Copy, Debug, PartialEq, Eq)]
pub struct PrimitiveVertex {
    pub quad_id: u32,
    pub position: [i8; 3],
    pub color: [i8; 3],
    pub normal: [i8; 3],
}

/// A vertex of a textured mesh.
#[derive(Clone, Copy, Debug, PartialEq, Eq)]
pub struct TexturedVertex {
    pub position: [i8; 3],
    pub tex_coords: [i8; 2],
    pub normal: [i8; 3],
}

/// A flat-colored mesh with 32-bit indices.
pub struct Primitive {
    pub vertices: Vec<PrimitiveVertex>,
    pub indices: Vec<u32>,
}

/// The six corners (two triangles) of face `f` of the unit cube: front, back, right,
/// left, top, bottom.
pub open spec fn face_positions(f: int) -> Seq<[i8; 3]> {
    if f == 0 {
        seq![[0i8, 0, 1], [1i8, 0, 1], [1i8, 1, 1], [0i8, 0, 1], [1i8, 1, 1], [0i8, 1, 1]]
    } else if f == 1 {
        seq![[1i8, 0, 0], [0i8, 0, 0], [0i8, 1, 0], [1i8, 0, 0], [0i8, 1, 0], [1i8, 1, 0]]
    } else if f == 2 {
        seq![[1i8, 0, 1], [1i8, 0, 0], [1i8, 1, 0], [1i8, 0, 1], [1i8, 1, 0], [1i8, 1, 1]]
    } else if f == 3 {
        seq![[0i8, 0, 0], [0i8, 0, 1], [0i8, 1, 1], [0i8, 0, 0], [0i8, 1, 1], [0i8, 1, 0]]
    } else if f == 4 {
        seq![[0i8, 1, 1], [1i8, 1, 1], [1i8, 1, 0], [0i8, 1, 1], [1i8, 1, 0], [0i8, 1, 0]]
    } else {
        seq![[0i8, 0, 0], [1i8, 0, 0], [1i8, 0, 1], [0i8, 0, 0], [1i8, 0, 1], [0i8, 0, 1]]
    }
}

/// The outward normal of face `f`.
pub open spec fn face_normal(f: int) -> [i8; 3] {
    if f == 0 {
        [0i8, 0, 1]
    } else if f == 1 {
        [0i8, 0, -1i8]
    } else if f == 2 {
        [1i8, 0, 0]
    } else if f == 3 {
        [-1i8, 0, 0]
    } else if f == 4 {
        [0i8, 1, 0]
    } else {
        [0i8, -1i8, 0i8]
    }
}

/// The color of every vertex of the built-in flat-colored meshes: magenta.
pub open spec fn face_color() -> [i8; 3] {
    [1i8, 0, 1]
}

/// Vertex `k` of a mesh made of faces pushed in order.
pub open spec fn face_vertex(k: int) -> PrimitiveVertex {
    PrimitiveVertex {
        quad_id: 0,
        position: face_positions(k / 6)[k % 6],
        color: face_color(),
        normal: face_normal(k / 6),
    }
}

/// The first `faces` faces, six vertices each, indexed in order.
pub open spec fn is_face_mesh(vertices: Seq<PrimitiveVertex>, faces: int) -> bool {
    &&& vertices.len() == 6 * faces
    &&& forall|k: int| 0 <= k < 6 * faces ==> #[trigger] vertices[k] == face_vertex(k)
}

fn face(f: usize) -> (r: ([[i8; 3]; 6], [i8; 3]))
    requires
        f < 6,
    ensures
        r.0@ == face_positions(f as int),
        r.1 == face_normal(f as int),
{
    let r = if f == 0 {
        ([[0i8, 0, 1], [1, 0, 1], [1, 1, 1], [0, 0, 1], [1, 1, 1], [0, 1, 1]], [0i8, 0, 1])
    } else if f == 1 {
        ([[1i8, 0, 0], [0, 0, 0], [0, 1, 0], [1, 0, 0], [0, 1, 0], [1, 1, 0]], [0i8, 0, -1i8])
    } else if f == 2 {
        ([[1i8, 0, 1], [1, 0, 0], [1, 1, 0], [1, 0, 1], [1, 1, 0], [1, 1, 1]], [1i8, 0, 0])
    } else if f == 3 {
        ([[0i8, 0, 0], [0, 0, 1], [0, 1, 1], [0, 0, 0], [0, 1, 1], [0, 1, 0]], [-1i8, 0, 0])
    } else if f == 4 {
        ([[0i8, 1, 1], [1, 1, 1], [1, 1, 0], [0, 1, 1], [1, 1, 0], [0, 1, 0]], [0i8, 1, 0])
    } else {
        ([[0i8, 0, 0], [1, 0, 0], [1, 0, 1], [0, 0, 0], [1, 0, 1], [0, 0, 1]], [0i8, -1i8, 0i8])
    };
    assert(r.0@ =~= face_positions(f as int));
    r
}

/// The vertices of the first `faces` faces of the cube, in face order.
fn face_vertices(faces: usize) -> (r: Vec<PrimitiveVertex>)
    requires
        faces <= 6,
    ensures
        is_face_mesh(r@, faces as int),
{
    let mut vertices: Vec<PrimitiveVertex> = Vec::new();
    let mut f: usize = 0;
    while f < faces
        invariant
            f <= faces <= 6,
            is_face_mesh(vertices@, f as int),
        decreases faces - f,
    {
        let (positions, normal) = face(f);
        let mut j: usize = 0;
        while j < 6
            invariant
                f < faces <= 6,
                j <= 6,
                positions@ == face_positions(f as int),
                normal == face_normal(f as int),
                vertices@.len() == 6 * f + j,
                forall|k: int| 0 <= k < 6 * f + j ==> #[trigger] vertices@[k] == face_vertex(k),
            decreases 6 - j,
        {
            vertices.push(PrimitiveVertex { quad_id: 0, position: positions[j], color: [1, 0, 1], normal });
            proof {
                let k = 6 * f + j;
                assert(k / 6 == f as int && k % 6 == j as int);
                assert([1i8, 0, 1] == face_color());
            }
            j = j + 1;
        }
        f = f + 1;
    }
    vertices
}

/// The indices 0, 1, 2, ... below `n`.
pub open spec fn counts_up_u32(indices: Seq<u32>, n: int) -> bool {
    &&& indices.len() == n
    &&& forall|k: int| 0 <= k < n ==> #[trigger] indices[k] == k
}

pub open spec fn counts_up_u16(indices: Seq<u16>, n: int) -> bool {
    &&& indices.len() == n
    &&& forall|k: int| 0 <= k < n ==> #[trigger] indices[k] == k
}

fn indices_u32(n: u32) -> (r: Vec<u32>)
    ensures
        counts_up_u32(r@, n as int),
{
    let mut r: Vec<u32> = Vec::new();
    let mut i: u32 = 0;
    while i < n
        invariant
            i <= n,
            counts_up_u32(r@, i as int),
        decreases n - i,
    {
        r.push(i);
        i = i + 1;
    }
    r
}

fn indices_u16(n: u16) -> (r: Vec<u16>)
    ensures
        counts_up_u16(r@, n as int),
{
    let mut r: Vec<u16> = Vec::new();
    let mut i: u16 = 0;
    while i < n
        invariant
            i <= n,
            counts_up_u16(r@, i as int),
        decreases n - i,
    {
        r.push(i);
        i = i + 1;
    }
    r
}

/// A unit cube, each face its own pair of triangles with the face's outward normal.
pub fn new_cube() -> (r: Primitive)
    ensures
        is_face_mesh(r.vertices@, 6),
        counts_up_u32(r.indices@, 36),
{
    Primitive { vertices: face_vertices(6), indices: indices_u32(36) }
}

/// The built-in flat-colored meshes.
#[derive(Clone, Copy, Debug, PartialEq, Eq)]
pub enum Meshes {
    Cube,
    Sphere,
}

impl Meshes {
    /// The flat-colored version of the mesh. Only the cube has one.
    pub fn create_primitive(&self) -> (r: Primitive)
        requires
            *self == Meshes::Cube,
        ensures
            is_face_mesh(r.vertices@, 6),
            counts_up_u32(r.indices@, 36),
    {
        new_cube()
    }
}

/// The flat-colored unit cube, with 32-bit indices.
pub struct PrimitiveCube {
    pub vertices: Vec<PrimitiveVertex>,
    pub indices: Vec<u32>,
}

impl PrimitiveCube {
    pub fn new() -> (r: PrimitiveCube)
        ensures
            is_face_mesh(r.vertices@, 6),
            counts_up_u32(r.indices@, 36),
    {
        PrimitiveCube { vertices: face_vertices(6), indices: indices_u32(36) }
    }
}

/// The front and back faces of the unit cube, with 16-bit indices.
pub struct PrimitiveFace {
    pub vertices: Vec<PrimitiveVertex>,
    pub indices: Vec<u16>,
}

impl PrimitiveFace {
    pub fn new() -> (r: PrimitiveFace)
        ensures
            is_face_mesh(r.vertices@, 2),
            counts_up_u16(r.indices@, 12),
    {
        PrimitiveFace { vertices: face_vertices(2), indices: indices_u16(12) }
    }
}

} // verus!

verus! {

/// The z component of the cross product of `p1 - p0` and `p2 - p0`, dotted with `n`:
/// positive when the triangle winds counterclockwise seen from the side `n` points to.
pub open spec fn winding(p0: [i8; 3], p1: [i8; 3], p2: [i8; 3], n: [i8; 3]) -> int {
    cross_dot(
        p1[0] - p0[0],
        p1[1] - p0[1],
        p1[2] - p0[2],
        p2[0] - p0[0],
        p2[1] - p0[1],
        p2[2] - p0[2],
        n[0] as int,
        n[1] as int,
        n[2] as int,
    )
}

/// The cross product of `a` and `b`, dotted with `n`.
pub open spec fn cross_dot(ax: int, ay: int, az: int, bx: int, by: int, bz: int, nx: int, ny: int, nz: int) -> int {
    (ay * bz - az * by) * nx + (az * bx - ax * bz) * ny + (ax * by - ay * bx) * nz
}

/// `p` lies on the face of the unit cube that the axis-aligned unit vector `n` points out of.
pub open spec fn on_face(p: [i8; 3], n: [i8; 3]) -> bool {
    forall|a: int|
        0 <= a < 3 ==> (n[a] == 1 ==> p[a] == 1) && (n[a] == -1 ==> p[a] == 0)
}

/// Every vertex of the cube lies on the face its normal points out of, and every triangle
/// winds counterclockwise seen from outside the cube, so none is culled as a back face.
pub proof fn cube_triangles_face_outward(vertices: Seq<PrimitiveVertex>)
    requires
        is_face_mesh(vertices, 6),
    ensures
        forall|k: int| 0 <= k < 36 ==> on_face(#[trigger] vertices[k].position, vertices[k].normal),
        forall|t: int|
            0 <= t < 12 ==> winding(
                #[trigger] vertices[3 * t].position,
                vertices[3 * t + 1].position,
                vertices[3 * t + 2].position,
                vertices[3 * t].normal,
            ) > 0,
{
    assert forall|k: int| 0 <= k < 36 implies on_face(#[trigger] vertices[k].position, vertices[k].normal) by {
        assert(vertices[k] == face_vertex(k));
        let f = k / 6;
        let j = k % 6;
        assert(0 <= f < 6 && 0 <= j < 6);
        assert forall|a: int| 0 <= a < 3 implies (face_normal(f)[a] == 1 ==> face_positions(f)[j][a] == 1)
            && (face_normal(f)[a] == -1 ==> face_positions(f)[j][a] == 0) by {
            if f == 0 { } else if f == 1 { } else if f == 2 { } else if f == 3 { } else if f == 4 { } else { }
        }
    }
    assert forall|t: int| 0 <= t < 12 implies winding(
        #[trigger] vertices[3 * t].position,
        vertices[3 * t + 1].position,
        vertices[3 * t + 2].position,
        vertices[3 * t].normal,
    ) > 0 by {
        assert(vertices[3 * t] == face_vertex(3 * t));
        assert(vertices[3 * t + 1] == face_vertex(3 * t + 1));
        assert(vertices[3 * t + 2] == face_vertex(3 * t + 2));
        if t == 0 {
            assert(face_positions(0) =~= seq![[0i8, 0i8, 1i8], [1i8, 0i8, 1i8], [1i8, 1i8, 1i8], [0i8, 0i8, 1i8], [1i8, 1i8, 1i8], [0i8, 1i8, 1i8]]);
            assert(cross_dot(1, 0, 0, 1, 1, 0, 0, 0, 1) == 1) by (nonlinear_arith);
            assert(winding([0i8, 0i8, 1i8], [1i8, 0i8, 1i8], [1i8, 1i8, 1i8], [0i8, 0i8, 1i8]) == 1);
        } else if t == 1 {
            assert(face_positions(0) =~= seq![[0i8, 0i8, 1i8], [1i8, 0i8, 1i8], [1i8, 1i8, 1i8], [0i8, 0i8, 1i8], [1i8, 1i8, 1i8], [0i8, 1i8, 1i8]]);
            assert(cross_dot(1, 1, 0, 0, 1, 0, 0, 0, 1) == 1) by (nonlinear_arith);
            assert(winding([0i8, 0i8, 1i8], [1i8, 1i8, 1i8], [0i8, 1i8, 1i8], [0i8, 0i8, 1i8]) == 1);
        } else if t == 2 {
            assert(face_positions(1) =~= seq![[1i8, 0i8, 0i8], [0i8, 0i8, 0i8], [0i8, 1i8, 0i8], [1i8, 0i8, 0i8], [0i8, 1i8, 0i8], [1i8, 1i8, 0i8]]);
            assert(cross_dot(-1, 0, 0, -1, 1, 0, 0, 0, -1) == 1) by (nonlinear_arith);
            assert(winding([1i8, 0i8, 0i8], [0i8, 0i8, 0i8], [0i8, 1i8, 0i8], [0i8, 0i8, -1i8]) == 1);
        } else if t == 3 {
            assert(face_positions(1) =~= seq![[1i8, 0i8, 0i8], [0i8, 0i8, 0i8], [0i8, 1i8, 0i8], [1i8, 0i8, 0i8], [0i8, 1i8, 0i8], [1i8, 1i8, 0i8]]);
            assert(cross_dot(-1, 1, 0, 0, 1, 0, 0, 0, -1) == 1) by (nonlinear_arith);
            assert(winding([1i8, 0i8, 0i8], [0i8, 1i8, 0i8], [1i8, 1i8, 0i8], [0i8, 0i8, -1i8]) == 1);
        } else if t == 4 {
            assert(face_positions(2) =~= seq![[1i8, 0i8, 1i8], [1i8, 0i8, 0i8], [1i8, 1i8, 0i8], [1i8, 0i8, 1i8], [1i8, 1i8, 0i8], [1i8, 1i8, 1i8]]);
            assert(cross_dot(0, 0, -1, 0, 1, -1, 1, 0, 0) == 1) by (nonlinear_arith);
            assert(winding([1i8, 0i8, 1i8], [1i8, 0i8, 0i8], [1i8, 1i8, 0i8], [1i8, 0i8, 0i8]) == 1);
        } else if t == 5 {
            assert(face_positions(2) =~= seq![[1i8, 0i8, 1i8], [1i8, 0i8, 0i8], [1i8, 1i8, 0i8], [1i8, 0i8, 1i8], [1i8, 1i8, 0i8], [1i8, 1i8, 1i8]]);
            assert(cross_dot(0, 1, -1, 0, 1, 0, 1, 0, 0) == 1) by (nonlinear_arith);
            assert(winding([1i8, 0i8, 1i8], [1i8, 1i8, 0i8], [1i8, 1i8, 1i8], [1i8, 0i8, 0i8]) == 1);
        } else if t == 6 {
            assert(face_positions(3) =~= seq![[0i8, 0i8, 0i8], [0i8, 0i8, 1i8], [0i8, 1i8, 1i8], [0i8, 0i8, 0i8], [0i8, 1i8, 1i8], [0i8, 1i8, 0i8]]);
            assert(cross_dot(0, 0, 1, 0, 1, 1, -1, 0, 0) == 1) by (nonlinear_arith);
            assert(winding([0i8, 0i8, 0i8], [0i8, 0i8, 1i8], [0i8, 1i8, 1i8], [-1i8, 0i8, 0i8]) == 1);
        } else if t == 7 {
            assert(face_positions(3) =~= seq![[0i8, 0i8, 0i8], [0i8, 0i8, 1i8], [0i8, 1i8, 1i8], [0i8, 0i8, 0i8], [0i8, 1i8, 1i8], [0i8, 1i8, 0i8]]);
            assert(cross_dot(0, 1, 1, 0, 1, 0, -1, 0, 0) == 1) by (nonlinear_arith);
            assert(winding([0i8, 0i8, 0i8], [0i8, 1i8, 1i8], [0i8, 1i8, 0i8], [-1i8, 0i8, 0i8]) == 1);
        } else if t == 8 {
            assert(face_positions(4) =~= seq![[0i8, 1i8, 1i8], [1i8, 1i8, 1i8], [1i8, 1i8, 0i8], [0i8, 1i8, 1i8], [1i8, 1i8, 0i8], [0i8, 1i8, 0i8]]);
            assert(cross_dot(1, 0, 0, 1, 0, -1, 0, 1, 0) == 1) by (nonlinear_arith);
            assert(winding([0i8, 1i8, 1i8], [1i8, 1i8, 1i8], [1i8, 1i8, 0i8], [0i8, 1i8, 0i8]) == 1);
        } else if t == 9 {
            assert(face_positions(4) =~= seq![[0i8, 1i8, 1i8], [1i8, 1i8, 1i8], [1i8, 1i8, 0i8], [0i8, 1i8, 1i8], [1i8, 1i8, 0i8], [0i8, 1i8, 0i8]]);
            assert(cross_dot(1, 0, -1, 0, 0, -1, 0, 1, 0) == 1) by (nonlinear_arith);
            assert(winding([0i8, 1i8, 1i8], [1i8, 1i8, 0i8], [0i8, 1i8, 0i8], [0i8, 1i8, 0i8]) == 1);
        } else if t == 10 {
            assert(face_positions(5) =~= seq![[0i8, 0i8, 0i8], [1i8, 0i8, 0i8], [1i8, 0i8, 1i8], [0i8, 0i8, 0i8], [1i8, 0i8, 1i8], [0i8, 0i8, 1i8]]);
            assert(cross_dot(1, 0, 0, 1, 0, 1, 0, -1, 0) == 1) by (nonlinear_arith);
            assert(winding([0i8, 0i8, 0i8], [1i8, 0i8, 0i8], [1i8, 0i8, 1i8], [0i8, -1i8, 0i8]) == 1);
        } else if t == 11 {
            assert(face_positions(5) =~= seq![[0i8, 0i8, 0i8], [1i8, 0i8, 0i8], [1i8, 0i8, 1i8], [0i8, 0i8, 0i8], [1i8, 0i8, 1i8], [0i8, 0i8, 1i8]]);
            assert(cross_dot(1, 0, 1, 0, 0, 1, 0, -1, 0) == 1) by (nonlinear_arith);
            assert(winding([0i8, 0i8, 0i8], [1i8, 0i8, 1i8], [0i8, 0i8, 1i8], [0i8, -1i8, 0i8]) == 1);
        }
    }
}

} // verus!

verus! {

/// The eight corners of the indexed textured cube, with their texture coordinates and
/// normals as the engine has always shipped them.
pub open spec fn textured_cube_vertices() -> Seq<TexturedVertex> {
    seq![
        TexturedVertex { position: [0i8, 0i8, 0i8], tex_coords: [1i8, 0i8], normal: [0i8, -1i8, 0i8] },
        TexturedVertex { position: [0i8, 0i8, 1i8], tex_coords: [0i8, 0i8], normal: [0i8, 0i8, 1i8] },
        TexturedVertex { position: [1i8, 0i8, 0i8], tex_coords: [1i8, 1i8], normal: [0i8, 0i8, 0i8] },
        TexturedVertex { position: [1i8, 0i8, 1i8], tex_coords: [0i8, 1i8], normal: [1i8, 0i8, 0i8] },
        TexturedVertex { position: [1i8, 1i8, 0i8], tex_coords: [1i8, 0i8], normal: [0i8, 1i8, 0i8] },
        TexturedVertex { position: [1i8, 1i8, 1i8], tex_coords: [0i8, 0i8], normal: [0i8, 0i8, 0i8] },
        TexturedVertex { position: [0i8, 1i8, 0i8], tex_coords: [1i8, 1i8], normal: [0i8, 0i8, -1i8] },
        TexturedVertex { position: [0i8, 1i8, 1i8], tex_coords: [0i8, 1i8], normal: [-1i8, 0i8, 0i8] },
    ]
}

/// Two triangles per face of the indexed textured cube: front, back, right, left,
/// bottom, top.
pub open spec fn textured_cube_indices() -> Seq<u16> {
    seq![
        0u16, 2, 3, 0, 3, 1,
        4, 6, 7, 4, 7, 5,
        3, 2, 4, 3, 4, 5,
        7, 6, 0, 7, 0, 1,
        6, 4, 2, 6, 2, 0,
        1, 3, 5, 1, 5, 7,
    ]
}

/// The unit cube as eight shared corners and 36 indices.
pub struct TexturedCube {
    pub vertices: Vec<TexturedVertex>,
    pub indices: Vec<u16>,
}

impl TexturedCube {
    pub fn new() -> (r: TexturedCube)
        ensures
            r.vertices@ == textured_cube_vertices(),
            r.indices@ == textured_cube_indices(),
    {
        let vertices = vec![
            TexturedVertex { position: [0, 0, 0], tex_coords: [1, 0], normal: [0, -1, 0] },
            TexturedVertex { position: [0, 0, 1], tex_coords: [0, 0], normal: [0, 0, 1] },
            TexturedVertex { position: [1, 0, 0], tex_coords: [1, 1], normal: [0, 0, 0] },
            TexturedVertex { position: [1, 0, 1], tex_coords: [0, 1], normal: [1, 0, 0] },
            TexturedVertex { position: [1, 1, 0], tex_coords: [1, 0], normal: [0, 1, 0] },
            TexturedVertex { position: [1, 1, 1], tex_coords: [0, 0], normal: [0, 0, 0] },
            TexturedVertex { position: [0, 1, 0], tex_coords: [1, 1], normal: [0, 0, -1] },
            TexturedVertex { position: [0, 1, 1], tex_coords: [0, 1], normal: [-1, 0, 0] },
        ];
        let indices: Vec<u16> = vec![
            0, 2, 3, 0, 3, 1,
            4, 6, 7, 4, 7, 5,
            3, 2, 4, 3, 4, 5,
            7, 6, 0, 7, 0, 1,
            6, 4, 2, 6, 2, 0,
            1, 3, 5, 1, 5, 7,
        ];
        assert(vertices@ =~= textured_cube_vertices());
        assert(indices@ =~= textured_cube_indices());
        TexturedCube { vertices, indices }
    }
}

/// Every index of the textured cube names one of its eight corners.
pub proof fn textured_cube_indices_in_range()
    ensures
        forall|i: int| 0 <= i < textured_cube_indices().len() ==> #[trigger] textured_cube_indices()[i] < textured_cube_vertices().len(),
{
}

/// The six indices of quad (`ring`, `segment`) of a UV sphere with `segments` segments:
/// two triangles between that ring's vertex row and the next.
pub open spec fn sphere_quad(segments: int, ring: int, segment: int) -> Seq<int> {
    let current = ring * (segments + 1) + segment;
    let next = current + segments + 1;
    seq![current, current + 1, next, current + 1, next + 1, next]
}

/// The index list of a UV sphere: quads row by row, six indices each.
pub open spec fn is_sphere_index_list(indices: Seq<u32>, segments: int, rings: int) -> bool {
    &&& indices.len() == 6 * rings * segments
    &&& forall|ring: int, segment: int, j: int|
        0 <= ring < rings && 0 <= segment < segments && 0 <= j < 6 ==> #[trigger] indices[6
            * (ring * segments + segment) + j] == sphere_quad(segments, ring, segment)[j]
}

proof fn lemma_row_major(r2: int, s2: int, ring: int, segments: int)
    requires
        0 <= r2,
        0 <= ring,
        0 <= s2 < segments,
    ensures
        (r2 * segments + s2 < ring * segments) <==> r2 < ring,
{
    assert((r2 * segments + s2 < ring * segments) <==> r2 < ring) by (nonlinear_arith)
        requires
            0 <= r2,
            0 <= ring,
            0 <= s2 < segments,
    ;
}

proof fn lemma_quad_bound(segments: int, rings: int, ring: int, segment: int)
    requires
        0 <= ring < rings,
        0 <= segment < segments,
    ensures
        ring * (segments + 1) + segment + segments + 2 < (rings + 1) * (segments + 1),
        0 <= ring * (segments + 1),
{
    assert(ring * (segments + 1) + segment + segments + 2 < (rings + 1) * (segments + 1)) by (nonlinear_arith)
        requires
            0 <= ring < rings,
            0 <= segment < segments,
    ;
    assert(0 <= ring * (segments + 1)) by (nonlinear_arith)
        requires
            0 <= ring,
            0 <= segments,
    ;
}

/// The index list of a UV sphere with `segments` segments and `rings` rings, whose
/// `(rings + 1) * (segments + 1)` vertices are laid out ring by ring. The vertex count
/// must fit the 32-bit indices.
pub fn sphere_indices(segments: u32, rings: u32) -> (r: Vec<u32>)
    requires
        segments < u32::MAX,
        (rings + 1) * (segments + 1) <= u32::MAX + 1,
    ensures
        is_sphere_index_list(r@, segments as int, rings as int),
{
    let mut indices: Vec<u32> = Vec::new();
    let row_size = segments + 1;
    let mut ring: u32 = 0;
    assert(6 * 0 * segments == 0);
    while ring < rings
        invariant
            (rings + 1) * (segments + 1) <= u32::MAX + 1,
            row_size == segments + 1,
            ring <= rings,
            indices@.len() == 6 * ring * segments,
            forall|r2: int, s2: int, j: int|
                0 <= r2 < ring && 0 <= s2 < segments && 0 <= j < 6 ==> #[trigger] indices@[6
                    * (r2 * segments + s2) + j] == sphere_quad(segments as int, r2, s2)[j],
        decreases rings - ring,
    {
        let mut segment: u32 = 0;
        proof {
            assert(6 * ring * segments == 6 * (ring * segments + 0)) by (nonlinear_arith);
            assert forall|r2: int, s2: int, j: int|
                0 <= r2 < rings && 0 <= s2 < segments && 0 <= j < 6 && r2 * segments + s2 < ring * segments + 0 implies #[trigger] indices@[6
                    * (r2 * segments + s2) + j] == sphere_quad(segments as int, r2, s2)[j] by {
                lemma_row_major(r2, s2, ring as int, segments as int);
            }
        }
        while segment < segments
            invariant
                (rings + 1) * (segments + 1) <= u32::MAX + 1,
                row_size == segments + 1,
                ring < rings,
                segment <= segments,
                indices@.len() == 6 * (ring * segments + segment),
                forall|r2: int, s2: int, j: int|
                    0 <= r2 < rings && 0 <= s2 < segments && 0 <= j < 6 && r2 * segments + s2 < ring * segments + segment ==> #[trigger] indices@[6
                        * (r2 * segments + s2) + j] == sphere_quad(segments as int, r2, s2)[j],
            decreases segments - segment,
        {
            proof {
                lemma_quad_bound(segments as int, rings as int, ring as int, segment as int);
            }
            let current = ring * row_size + segment;
            let next = current + row_size;
            let ghost before = indices@;
            indices.push(current);
            indices.push(current + 1);
            indices.push(next);
            indices.push(current + 1);
            indices.push(next + 1);
            indices.push(next);
            proof {
                let q = ring * segments + segment;
                assert forall|r2: int, s2: int, j: int|
                    0 <= r2 < rings && 0 <= s2 < segments && 0 <= j < 6 && r2 * segments + s2 < q + 1 implies #[trigger] indices@[6
                        * (r2 * segments + s2) + j] == sphere_quad(segments as int, r2, s2)[j] by {
                    if r2 * segments + s2 < q {
                        assert(6 * (r2 * segments + s2) + j < 6 * q);
                        assert(indices@[6 * (r2 * segments + s2) + j] == before[6 * (r2 * segments + s2) + j]);
                    } else {
                        assert(r2 * segments + s2 == q);
                        assert(r2 == ring && s2 == segment) by (nonlinear_arith)
                            requires
                                r2 * segments + s2 == ring * segments + segment,
                                0 <= s2 < segments,
                                0 <= segment < segments,
                                0 <= r2,
                                0 <= ring,
                        ;
                    }
                }
            }
            segment = segment + 1;
        }
        proof {
            assert(ring * segments + segments == (ring + 1) * segments) by (nonlinear_arith);
            assert(6 * (ring + 1) * segments == 6 * (ring * segments + segments)) by (nonlinear_arith);
            assert forall|r2: int, s2: int, j: int|
                0 <= r2 < ring + 1 && 0 <= s2 < segments && 0 <= j < 6 implies #[trigger] indices@[6
                    * (r2 * segments + s2) + j] == sphere_quad(segments as int, r2, s2)[j] by {
                assert(r2 * segments + s2 < (ring + 1) * segments) by (nonlinear_arith)
                    requires
                        0 <= r2 < ring + 1,
                        0 <= s2 < segments,
                ;
            }
        }
        ring = ring + 1;
    }
    indices
}

/// Every index of a sphere's index list names one of its `(rings + 1) * (segments + 1)`
/// vertices.
pub proof fn sphere_indices_in_range(indices: Seq<u32>, segments: int, rings: int)
    requires
        segments >= 0,
        rings >= 0,
        is_sphere_index_list(indices, segments, rings),
    ensures
        forall|i: int| 0 <= i < indices.len() ==> #[trigger] indices[i] < (rings + 1) * (segments + 1),
{
    assert forall|i: int| 0 <= i < indices.len() implies #[trigger] indices[i] < (rings + 1) * (segments + 1) by {
        let q = i / 6;
        let j = i % 6;
        let ring = q / segments;
        let segment = q % segments;
        assert(segments > 0) by (nonlinear_arith)
            requires
                0 <= i < 6 * rings * segments,
                segments >= 0,
                rings >= 0,
        ;
        assert(0 <= ring < rings && 0 <= segment < segments && q == ring * segments + segment) by (nonlinear_arith)
            requires
                0 <= i < 6 * rings * segments,
                q == i / 6,
                ring == q / segments,
                segment == q % segments,
                segments > 0,
        ;
        assert(i == 6 * (ring * segments + segment) + j);
        lemma_quad_bound(segments, rings, ring, segment);
    }
}

} // verus!
