use vstd::prelude::*;
use crate::world::{Chunk, lemma_lin_index_bounds, lemma_lin_index_decode, lin_index};

verus! {

/// A vertex position or normal in chunk-local integer coordinates.
/// Voxel corners lie on the integer grid, and face normals are axis-aligned
/// unit vectors, so exact integers represent both.
#[derive(Copy, Clone, Debug, PartialEq, Eq, Structural)]
pub struct Vec3i {
    pub x: i32,
    pub y: i32,
    pub z: i32,
}

/// A texture coordinate of the canonical unit-square quad pattern.
#[derive(Copy, Clone, Debug, PartialEq, Eq, Structural)]
pub struct Vec2i {
    pub u: i32,
    pub v: i32,
}

/// One of the six axis-aligned directions a voxel face can point in.
#[derive(Copy, Clone, Debug, PartialEq, Eq, Structural)]
pub enum FaceDir {
    NegX,
    PosX,
    NegY,
    PosY,
    NegZ,
    PosZ,
}

/// An exposed voxel face: the voxel's local coordinate and the direction the
/// face points in.
pub type Face = (int, int, int, FaceDir);

/// A triangle mesh of the visible voxel faces, as four parallel flat buffers:
/// four vertices and six indices (two counter-clockwise triangles) per quad.
/// Vertices are never shared between faces.
#[derive(Clone)]
pub struct SurfaceMesh {
    pub positions: Vec<Vec3i>,
    pub normals: Vec<Vec3i>,
    pub uvs: Vec<Vec2i>,
    pub indices: Vec<u32>,
}

/// Integer vector literal, used by the face-pattern definitions below.
pub open spec fn v3(a: int, b: int, c: int) -> Vec3i {
    Vec3i { x: a as i32, y: b as i32, z: c as i32 }
}

/// Integer texture-coordinate literal.
pub open spec fn v2(a: int, b: int) -> Vec2i {
    Vec2i { u: a as i32, v: b as i32 }
}

/// Whether the chunk holds a solid voxel at (x, y, z); coordinates outside
/// the chunk count as empty.
pub open spec fn solid_at(c: Chunk, x: int, y: int, z: int) -> bool {
    c.spec_get(x, y, z) != 0
}

/// Whether the voxel at (x, y, z) exposes a face in direction `d`: the voxel
/// is solid and its neighbor in that direction is empty or outside the chunk.
pub open spec fn face_exposed(c: Chunk, x: int, y: int, z: int, d: FaceDir) -> bool {
    solid_at(c, x, y, z) && match d {
        FaceDir::NegX => !solid_at(c, x - 1, y, z),
        FaceDir::PosX => !solid_at(c, x + 1, y, z),
        FaceDir::NegY => !solid_at(c, x, y - 1, z),
        FaceDir::PosY => !solid_at(c, x, y + 1, z),
        FaceDir::NegZ => !solid_at(c, x, y, z - 1),
        FaceDir::PosZ => !solid_at(c, x, y, z + 1),
    }
}

/// The face of one voxel in one direction, as a sequence: a singleton when
/// the face is exposed, empty otherwise.
pub open spec fn dir_faces(c: Chunk, x: int, y: int, z: int, d: FaceDir) -> Seq<Face> {
    if face_exposed(c, x, y, z, d) {
        seq![(x, y, z, d)]
    } else {
        Seq::empty()
    }
}

/// All exposed faces of the voxel at (x, y, z), in the fixed emission order
/// -x, +x, -y, +y, -z, +z.
pub open spec fn cell_faces(c: Chunk, x: int, y: int, z: int) -> Seq<Face> {
    dir_faces(c, x, y, z, FaceDir::NegX)
        + dir_faces(c, x, y, z, FaceDir::PosX)
        + dir_faces(c, x, y, z, FaceDir::NegY)
        + dir_faces(c, x, y, z, FaceDir::PosY)
        + dir_faces(c, x, y, z, FaceDir::NegZ)
        + dir_faces(c, x, y, z, FaceDir::PosZ)
}

/// The exposed faces of the first `n` cells in traversal order. Cells are
/// visited with x innermost, then y, then z, which is exactly increasing
/// linear storage index.
pub open spec fn faces_up_to(c: Chunk, n: int) -> Seq<Face>
    decreases n,
{
    if n <= 0 {
        Seq::empty()
    } else {
        let e = c.edge();
        let m = n - 1;
        faces_up_to(c, m) + cell_faces(c, m % e, (m / e) % e, (m / e) / e)
    }
}

/// Every exposed face of the chunk, in emission order.
pub open spec fn face_list(c: Chunk) -> Seq<Face> {
    faces_up_to(c, c.edge() * c.edge() * c.edge())
}

/// The four corner positions of a unit quad on the given face, in winding
/// order: counter-clockwise seen from outside along the face normal.
pub open spec fn quad_positions(x: int, y: int, z: int, d: FaceDir) -> Seq<Vec3i> {
    match d {
        FaceDir::NegX => seq![
            v3(x, y, z), v3(x, y, z + 1), v3(x, y + 1, z + 1), v3(x, y + 1, z),
        ],
        FaceDir::PosX => seq![
            v3(x + 1, y, z), v3(x + 1, y + 1, z), v3(x + 1, y + 1, z + 1), v3(x + 1, y, z + 1),
        ],
        FaceDir::NegY => seq![
            v3(x, y, z), v3(x + 1, y, z), v3(x + 1, y, z + 1), v3(x, y, z + 1),
        ],
        FaceDir::PosY => seq![
            v3(x, y + 1, z), v3(x, y + 1, z + 1), v3(x + 1, y + 1, z + 1), v3(x + 1, y + 1, z),
        ],
        FaceDir::NegZ => seq![
            v3(x, y, z), v3(x, y + 1, z), v3(x + 1, y + 1, z), v3(x + 1, y, z),
        ],
        FaceDir::PosZ => seq![
            v3(x, y, z + 1), v3(x + 1, y, z + 1), v3(x + 1, y + 1, z + 1), v3(x, y + 1, z + 1),
        ],
    }
}

/// Corner `k` (0 to 3) of the quad on face `d` of voxel (x, y, z), as exact
/// integer coordinates; `quad_positions` stores exactly these values.
pub open spec fn quad_corner(x: int, y: int, z: int, d: FaceDir, k: int) -> (int, int, int)
    recommends
        0 <= k < 4,
{
    match d {
        FaceDir::NegX => {
            if k == 0 { (x, y, z) } else if k == 1 { (x, y, z + 1) }
            else if k == 2 { (x, y + 1, z + 1) } else { (x, y + 1, z) }
        },
        FaceDir::PosX => {
            if k == 0 { (x + 1, y, z) } else if k == 1 { (x + 1, y + 1, z) }
            else if k == 2 { (x + 1, y + 1, z + 1) } else { (x + 1, y, z + 1) }
        },
        FaceDir::NegY => {
            if k == 0 { (x, y, z) } else if k == 1 { (x + 1, y, z) }
            else if k == 2 { (x + 1, y, z + 1) } else { (x, y, z + 1) }
        },
        FaceDir::PosY => {
            if k == 0 { (x, y + 1, z) } else if k == 1 { (x, y + 1, z + 1) }
            else if k == 2 { (x + 1, y + 1, z + 1) } else { (x + 1, y + 1, z) }
        },
        FaceDir::NegZ => {
            if k == 0 { (x, y, z) } else if k == 1 { (x, y + 1, z) }
            else if k == 2 { (x + 1, y + 1, z) } else { (x + 1, y, z) }
        },
        FaceDir::PosZ => {
            if k == 0 { (x, y, z + 1) } else if k == 1 { (x + 1, y, z + 1) }
            else if k == 2 { (x + 1, y + 1, z + 1) } else { (x, y + 1, z + 1) }
        },
    }
}

/// Difference of two integer points, as a vector.
pub open spec fn vec_sub(a: (int, int, int), b: (int, int, int)) -> (int, int, int) {
    (a.0 - b.0, a.1 - b.1, a.2 - b.2)
}

/// Cross product of two integer vectors.
pub open spec fn vec_cross(a: (int, int, int), b: (int, int, int)) -> (int, int, int) {
    (
        a.1 * b.2 - a.2 * b.1,
        a.2 * b.0 - a.0 * b.2,
        a.0 * b.1 - a.1 * b.0,
    )
}

/// The outward unit normal of a face in direction `d`.
pub open spec fn face_normal(d: FaceDir) -> Vec3i {
    match d {
        FaceDir::NegX => v3(-1, 0, 0),
        FaceDir::PosX => v3(1, 0, 0),
        FaceDir::NegY => v3(0, -1, 0),
        FaceDir::PosY => v3(0, 1, 0),
        FaceDir::NegZ => v3(0, 0, -1),
        FaceDir::PosZ => v3(0, 0, 1),
    }
}

/// `quad_positions` stores, for each corner, exactly the integer coordinates
/// that `quad_corner` gives.
pub proof fn lemma_quad_positions_are_corners(x: int, y: int, z: int, d: FaceDir, k: int)
    requires
        0 <= k < 4,
    ensures
        ({
            let c = quad_corner(x, y, z, d, k);
            quad_positions(x, y, z, d)[k] == v3(c.0, c.1, c.2)
        }),
{
}

/// Every quad winds counter-clockwise seen from outside: for both of its
/// triangles - corners (0, 1, 2) and (0, 2, 3), as the index pattern lays
/// them out - the cross product of the edge vectors is the face's outward
/// unit normal.
pub proof fn lemma_quad_winding_ccw(x: int, y: int, z: int, d: FaceDir)
    ensures
        ({
            let p0 = quad_corner(x, y, z, d, 0);
            let p1 = quad_corner(x, y, z, d, 1);
            let p2 = quad_corner(x, y, z, d, 2);
            let p3 = quad_corner(x, y, z, d, 3);
            let n = face_normal(d);
            &&& vec_cross(vec_sub(p1, p0), vec_sub(p2, p0))
                == (n.x as int, n.y as int, n.z as int)
            &&& vec_cross(vec_sub(p2, p0), vec_sub(p3, p0))
                == (n.x as int, n.y as int, n.z as int)
        }),
{
    let p0 = quad_corner(x, y, z, d, 0);
    let p1 = quad_corner(x, y, z, d, 1);
    let p2 = quad_corner(x, y, z, d, 2);
    let p3 = quad_corner(x, y, z, d, 3);
    match d {
        FaceDir::NegX => {
            assert(vec_sub(p1, p0) == (0int, 0int, 1int));
            assert(vec_sub(p2, p0) == (0int, 1int, 1int));
            assert(vec_sub(p3, p0) == (0int, 1int, 0int));
            assert(vec_cross((0int, 0int, 1int), (0int, 1int, 1int)) == (-1int, 0int, 0int)) by (nonlinear_arith);
            assert(vec_cross((0int, 1int, 1int), (0int, 1int, 0int)) == (-1int, 0int, 0int)) by (nonlinear_arith);
        },
        FaceDir::PosX => {
            assert(vec_sub(p1, p0) == (0int, 1int, 0int));
            assert(vec_sub(p2, p0) == (0int, 1int, 1int));
            assert(vec_sub(p3, p0) == (0int, 0int, 1int));
            assert(vec_cross((0int, 1int, 0int), (0int, 1int, 1int)) == (1int, 0int, 0int)) by (nonlinear_arith);
            assert(vec_cross((0int, 1int, 1int), (0int, 0int, 1int)) == (1int, 0int, 0int)) by (nonlinear_arith);
        },
        FaceDir::NegY => {
            assert(vec_sub(p1, p0) == (1int, 0int, 0int));
            assert(vec_sub(p2, p0) == (1int, 0int, 1int));
            assert(vec_sub(p3, p0) == (0int, 0int, 1int));
            assert(vec_cross((1int, 0int, 0int), (1int, 0int, 1int)) == (0int, -1int, 0int)) by (nonlinear_arith);
            assert(vec_cross((1int, 0int, 1int), (0int, 0int, 1int)) == (0int, -1int, 0int)) by (nonlinear_arith);
        },
        FaceDir::PosY => {
            assert(vec_sub(p1, p0) == (0int, 0int, 1int));
            assert(vec_sub(p2, p0) == (1int, 0int, 1int));
            assert(vec_sub(p3, p0) == (1int, 0int, 0int));
            assert(vec_cross((0int, 0int, 1int), (1int, 0int, 1int)) == (0int, 1int, 0int)) by (nonlinear_arith);
            assert(vec_cross((1int, 0int, 1int), (1int, 0int, 0int)) == (0int, 1int, 0int)) by (nonlinear_arith);
        },
        FaceDir::NegZ => {
            assert(vec_sub(p1, p0) == (0int, 1int, 0int));
            assert(vec_sub(p2, p0) == (1int, 1int, 0int));
            assert(vec_sub(p3, p0) == (1int, 0int, 0int));
            assert(vec_cross((0int, 1int, 0int), (1int, 1int, 0int)) == (0int, 0int, -1int)) by (nonlinear_arith);
            assert(vec_cross((1int, 1int, 0int), (1int, 0int, 0int)) == (0int, 0int, -1int)) by (nonlinear_arith);
        },
        FaceDir::PosZ => {
            assert(vec_sub(p1, p0) == (1int, 0int, 0int));
            assert(vec_sub(p2, p0) == (1int, 1int, 0int));
            assert(vec_sub(p3, p0) == (0int, 1int, 0int));
            assert(vec_cross((1int, 0int, 0int), (1int, 1int, 0int)) == (0int, 0int, 1int)) by (nonlinear_arith);
            assert(vec_cross((1int, 1int, 0int), (0int, 1int, 0int)) == (0int, 0int, 1int)) by (nonlinear_arith);
        },
    }
}

/// The face normal, replicated over the quad's four vertices.
pub open spec fn quad_normals(d: FaceDir) -> Seq<Vec3i> {
    seq![face_normal(d), face_normal(d), face_normal(d), face_normal(d)]
}

/// The canonical texture coordinates of a quad.
pub open spec fn quad_uvs() -> Seq<Vec2i> {
    seq![v2(0, 0), v2(1, 0), v2(1, 1), v2(0, 1)]
}

/// The six indices of a quad whose first vertex sits at index `b`: the two
/// triangles (b, b+1, b+2) and (b, b+2, b+3).
pub open spec fn quad_indices(b: int) -> Seq<u32> {
    seq![
        b as u32, (b + 1) as u32, (b + 2) as u32,
        b as u32, (b + 2) as u32, (b + 3) as u32,
    ]
}

/// The position buffer a face list produces: four corners per face, in order.
pub open spec fn list_positions(fl: Seq<Face>) -> Seq<Vec3i>
    decreases fl.len(),
{
    if fl.len() == 0 {
        Seq::empty()
    } else {
        let f = fl.last();
        list_positions(fl.drop_last()) + quad_positions(f.0, f.1, f.2, f.3)
    }
}

/// The normal buffer a face list produces.
pub open spec fn list_normals(fl: Seq<Face>) -> Seq<Vec3i>
    decreases fl.len(),
{
    if fl.len() == 0 {
        Seq::empty()
    } else {
        list_normals(fl.drop_last()) + quad_normals(fl.last().3)
    }
}

/// The texture-coordinate buffer a face list produces.
pub open spec fn list_uvs(fl: Seq<Face>) -> Seq<Vec2i>
    decreases fl.len(),
{
    if fl.len() == 0 {
        Seq::empty()
    } else {
        list_uvs(fl.drop_last()) + quad_uvs()
    }
}

/// The index buffer a face list produces: each quad references the four
/// vertices appended for it, at monotonically increasing base offsets.
pub open spec fn list_indices(fl: Seq<Face>) -> Seq<u32>
    decreases fl.len(),
{
    if fl.len() == 0 {
        Seq::empty()
    } else {
        list_indices(fl.drop_last()) + quad_indices(4 * (fl.len() - 1))
    }
}

/// The mesh holds exactly the buffers of the given face list.
pub open spec fn mesh_matches(m: SurfaceMesh, fl: Seq<Face>) -> bool {
    &&& m.positions@ == list_positions(fl)
    &&& m.normals@ == list_normals(fl)
    &&& m.uvs@ == list_uvs(fl)
    &&& m.indices@ == list_indices(fl)
}

/// Buffer lengths of a face list: four vertices and six indices per face.
pub proof fn lemma_list_lens(fl: Seq<Face>)
    ensures
        list_positions(fl).len() == 4 * fl.len(),
        list_normals(fl).len() == 4 * fl.len(),
        list_uvs(fl).len() == 4 * fl.len(),
        list_indices(fl).len() == 6 * fl.len(),
    decreases fl.len(),
{
    if fl.len() > 0 {
        lemma_list_lens(fl.drop_last());
    }
}

/// Appending one face appends exactly one quad to every buffer.
pub proof fn lemma_list_push(fl: Seq<Face>, f: Face)
    ensures
        list_positions(fl.push(f)) == list_positions(fl) + quad_positions(f.0, f.1, f.2, f.3),
        list_normals(fl.push(f)) == list_normals(fl) + quad_normals(f.3),
        list_uvs(fl.push(f)) == list_uvs(fl) + quad_uvs(),
        list_indices(fl.push(f)) == list_indices(fl) + quad_indices(4 * fl.len() as int),
{
    let g = fl.push(f);
    assert(g.drop_last() =~= fl);
    assert(g.last() == f);
}

/// A cell contributes at most six faces, so the first n cells contribute at
/// most 6n.
pub proof fn lemma_faces_up_to_len_bound(c: Chunk, n: int)
    ensures
        faces_up_to(c, n).len() <= if n <= 0 { 0 } else { 6 * n },
    decreases n,
{
    if n > 0 {
        lemma_faces_up_to_len_bound(c, n - 1);
    }
}

/// An entirely empty chunk exposes no face at all.
proof fn lemma_faces_up_to_all_empty(c: Chunk, n: int)
    requires
        forall|x: int, y: int, z: int|
            c.in_range(x, y, z) ==> c.spec_get(x, y, z) == 0,
    ensures
        faces_up_to(c, n).len() == 0,
    decreases n,
{
    if n > 0 {
        lemma_faces_up_to_all_empty(c, n - 1);
        assert forall|x: int, y: int, z: int| !solid_at(c, x, y, z) by {
            if !c.in_range(x, y, z) {
                c.lemma_get_out_of_range(x, y, z);
            }
        }
    }
}

/// Meshing an all-empty chunk yields empty position, normal, texture and
/// index buffers.
pub proof fn lemma_empty_chunk_mesh_empty(c: Chunk, m: SurfaceMesh)
    requires
        forall|x: int, y: int, z: int|
            c.in_range(x, y, z) ==> c.spec_get(x, y, z) == 0,
        mesh_matches(m, face_list(c)),
    ensures
        m.positions@.len() == 0,
        m.normals@.len() == 0,
        m.uvs@.len() == 0,
        m.indices@.len() == 0,
{
    lemma_faces_up_to_all_empty(c, c.edge() * c.edge() * c.edge());
    lemma_list_lens(face_list(c));
}

/// The normal stored for vertex `k` of quad `q` is the outward unit normal
/// of face `q` of the list.
proof fn lemma_list_normals_index(fl: Seq<Face>, q: int, k: int)
    requires
        0 <= q < fl.len(),
        0 <= k < 4,
    ensures
        list_normals(fl)[4 * q + k] == face_normal(fl[q].3),
    decreases fl.len(),
{
    lemma_list_lens(fl.drop_last());
    if q == fl.len() - 1 {
    } else {
        lemma_list_normals_index(fl.drop_last(), q, k);
    }
}

/// Every emitted quad's four normals equal the axis-aligned outward unit
/// vector of that quad's face direction.
pub proof fn lemma_quad_normals_axis_aligned(m: SurfaceMesh, fl: Seq<Face>, q: int)
    requires
        mesh_matches(m, fl),
        0 <= q < fl.len(),
    ensures
        m.normals@[4 * q] == face_normal(fl[q].3),
        m.normals@[4 * q + 1] == face_normal(fl[q].3),
        m.normals@[4 * q + 2] == face_normal(fl[q].3),
        m.normals@[4 * q + 3] == face_normal(fl[q].3),
{
    lemma_list_normals_index(fl, q, 0);
    lemma_list_normals_index(fl, q, 1);
    lemma_list_normals_index(fl, q, 2);
    lemma_list_normals_index(fl, q, 3);
}

/// Occupancy alone decides the face list: two chunks of one edge length that
/// agree on which cells are solid expose the same faces in the same order.
pub proof fn lemma_face_list_congruent(c1: Chunk, c2: Chunk)
    requires
        c1.edge() == c2.edge(),
        forall|x: int, y: int, z: int|
            #[trigger] solid_at(c1, x, y, z) == solid_at(c2, x, y, z),
    ensures
        face_list(c1) == face_list(c2),
{
    lemma_faces_up_to_congruent(c1, c2, c1.edge() * c1.edge() * c1.edge());
}

proof fn lemma_faces_up_to_congruent(c1: Chunk, c2: Chunk, n: int)
    requires
        c1.edge() == c2.edge(),
        forall|x: int, y: int, z: int|
            #[trigger] solid_at(c1, x, y, z) == solid_at(c2, x, y, z),
    ensures
        faces_up_to(c1, n) == faces_up_to(c2, n),
    decreases n,
{
    if n > 0 {
        lemma_faces_up_to_congruent(c1, c2, n - 1);
        let e = c1.edge();
        let m = n - 1;
        let x = m % e;
        let y = (m / e) % e;
        let z = (m / e) / e;
        assert(solid_at(c1, x, y, z) == solid_at(c2, x, y, z));
        assert(solid_at(c1, x - 1, y, z) == solid_at(c2, x - 1, y, z));
        assert(solid_at(c1, x + 1, y, z) == solid_at(c2, x + 1, y, z));
        assert(solid_at(c1, x, y - 1, z) == solid_at(c2, x, y - 1, z));
        assert(solid_at(c1, x, y + 1, z) == solid_at(c2, x, y + 1, z));
        assert(solid_at(c1, x, y, z - 1) == solid_at(c2, x, y, z - 1));
        assert(solid_at(c1, x, y, z + 1) == solid_at(c2, x, y, z + 1));
        assert(cell_faces(c1, x, y, z) =~= cell_faces(c2, x, y, z));
        assert(faces_up_to(c1, n) =~= faces_up_to(c2, n));
    } else {
        assert(faces_up_to(c1, n) =~= faces_up_to(c2, n));
    }
}

impl Default for SurfaceMesh {
    /// An empty mesh: all four buffers empty.
    fn default() -> (m: SurfaceMesh)
        ensures
            mesh_matches(m, Seq::empty()),
            m.positions@.len() == 0,
            m.normals@.len() == 0,
            m.uvs@.len() == 0,
            m.indices@.len() == 0,
    {
        let m = SurfaceMesh {
            positions: Vec::new(),
            normals: Vec::new(),
            uvs: Vec::new(),
            indices: Vec::new(),
        };
        proof {
            assert(m.positions@ =~= list_positions(Seq::empty()));
            assert(m.normals@ =~= list_normals(Seq::empty()));
            assert(m.uvs@ =~= list_uvs(Seq::empty()));
            assert(m.indices@ =~= list_indices(Seq::empty()));
        }
        m
    }
}

/// Appends one quad: its four corners, its normal replicated four times, the
/// canonical texture pattern, and six indices referencing the new vertices.
fn push_quad(
    mesh: &mut SurfaceMesh,
    c0: Vec3i,
    c1: Vec3i,
    c2: Vec3i,
    c3: Vec3i,
    normal: Vec3i,
)
    requires
        old(mesh).positions@.len() + 4 <= u32::MAX,
    ensures
        final(mesh).positions@ == old(mesh).positions@ + seq![c0, c1, c2, c3],
        final(mesh).normals@ == old(mesh).normals@
            + seq![normal, normal, normal, normal],
        final(mesh).uvs@ == old(mesh).uvs@ + quad_uvs(),
        final(mesh).indices@ == old(mesh).indices@
            + quad_indices(old(mesh).positions@.len() as int),
{
    let base = mesh.positions.len() as u32;
    mesh.positions.push(c0);
    mesh.positions.push(c1);
    mesh.positions.push(c2);
    mesh.positions.push(c3);
    mesh.normals.push(normal);
    mesh.normals.push(normal);
    mesh.normals.push(normal);
    mesh.normals.push(normal);
    mesh.uvs.push(Vec2i { u: 0, v: 0 });
    mesh.uvs.push(Vec2i { u: 1, v: 0 });
    mesh.uvs.push(Vec2i { u: 1, v: 1 });
    mesh.uvs.push(Vec2i { u: 0, v: 1 });
    mesh.indices.push(base);
    mesh.indices.push(base + 1);
    mesh.indices.push(base + 2);
    mesh.indices.push(base);
    mesh.indices.push(base + 2);
    mesh.indices.push(base + 3);
    proof {
        assert(mesh.positions@ =~= old(mesh).positions@ + seq![c0, c1, c2, c3]);
        assert(mesh.normals@ =~= old(mesh).normals@
            + seq![normal, normal, normal, normal]);
        assert(mesh.uvs@ =~= old(mesh).uvs@ + quad_uvs());
        assert(mesh.indices@ =~= old(mesh).indices@
            + quad_indices(old(mesh).positions@.len() as int));
    }
}

/// Appends the quad of the -x face of voxel (x, y, z).
fn push_face_neg_x(mesh: &mut SurfaceMesh, x: u32, y: u32, z: u32)
    requires
        x < 0x40000000,
        y < 0x40000000,
        z < 0x40000000,
        old(mesh).positions@.len() + 4 <= u32::MAX,
    ensures
        final(mesh).positions@ == old(mesh).positions@
            + quad_positions(x as int, y as int, z as int, FaceDir::NegX),
        final(mesh).normals@ == old(mesh).normals@ + quad_normals(FaceDir::NegX),
        final(mesh).uvs@ == old(mesh).uvs@ + quad_uvs(),
        final(mesh).indices@ == old(mesh).indices@
            + quad_indices(old(mesh).positions@.len() as int),
{
    let x0 = x as i32;
    let y0 = y as i32;
    let z0 = z as i32;
    let p0 = Vec3i { x: x0, y: y0, z: z0 };
    let p1 = Vec3i { x: x0, y: y0, z: z0 + 1 };
    let p2 = Vec3i { x: x0, y: y0 + 1, z: z0 + 1 };
    let p3 = Vec3i { x: x0, y: y0 + 1, z: z0 };
    let nrm = Vec3i { x: -1, y: 0, z: 0 };
    push_quad(mesh, p0, p1, p2, p3, nrm);
    proof {
        assert(seq![p0, p1, p2, p3]
            =~= quad_positions(x as int, y as int, z as int, FaceDir::NegX));
        assert(seq![nrm, nrm, nrm, nrm] =~= quad_normals(FaceDir::NegX));
    }
}

/// Appends the quad of the +x face of voxel (x, y, z).
fn push_face_pos_x(mesh: &mut SurfaceMesh, x: u32, y: u32, z: u32)
    requires
        x < 0x40000000,
        y < 0x40000000,
        z < 0x40000000,
        old(mesh).positions@.len() + 4 <= u32::MAX,
    ensures
        final(mesh).positions@ == old(mesh).positions@
            + quad_positions(x as int, y as int, z as int, FaceDir::PosX),
        final(mesh).normals@ == old(mesh).normals@ + quad_normals(FaceDir::PosX),
        final(mesh).uvs@ == old(mesh).uvs@ + quad_uvs(),
        final(mesh).indices@ == old(mesh).indices@
            + quad_indices(old(mesh).positions@.len() as int),
{
    let x1 = x as i32 + 1;
    let y0 = y as i32;
    let z0 = z as i32;
    let p0 = Vec3i { x: x1, y: y0, z: z0 };
    let p1 = Vec3i { x: x1, y: y0 + 1, z: z0 };
    let p2 = Vec3i { x: x1, y: y0 + 1, z: z0 + 1 };
    let p3 = Vec3i { x: x1, y: y0, z: z0 + 1 };
    let nrm = Vec3i { x: 1, y: 0, z: 0 };
    push_quad(mesh, p0, p1, p2, p3, nrm);
    proof {
        assert(seq![p0, p1, p2, p3]
            =~= quad_positions(x as int, y as int, z as int, FaceDir::PosX));
        assert(seq![nrm, nrm, nrm, nrm] =~= quad_normals(FaceDir::PosX));
    }
}

/// Appends the quad of the -y face of voxel (x, y, z).
fn push_face_neg_y(mesh: &mut SurfaceMesh, x: u32, y: u32, z: u32)
    requires
        x < 0x40000000,
        y < 0x40000000,
        z < 0x40000000,
        old(mesh).positions@.len() + 4 <= u32::MAX,
    ensures
        final(mesh).positions@ == old(mesh).positions@
            + quad_positions(x as int, y as int, z as int, FaceDir::NegY),
        final(mesh).normals@ == old(mesh).normals@ + quad_normals(FaceDir::NegY),
        final(mesh).uvs@ == old(mesh).uvs@ + quad_uvs(),
        final(mesh).indices@ == old(mesh).indices@
            + quad_indices(old(mesh).positions@.len() as int),
{
    let x0 = x as i32;
    let y0 = y as i32;
    let z0 = z as i32;
    let p0 = Vec3i { x: x0, y: y0, z: z0 };
    let p1 = Vec3i { x: x0 + 1, y: y0, z: z0 };
    let p2 = Vec3i { x: x0 + 1, y: y0, z: z0 + 1 };
    let p3 = Vec3i { x: x0, y: y0, z: z0 + 1 };
    let nrm = Vec3i { x: 0, y: -1, z: 0 };
    push_quad(mesh, p0, p1, p2, p3, nrm);
    proof {
        assert(seq![p0, p1, p2, p3]
            =~= quad_positions(x as int, y as int, z as int, FaceDir::NegY));
        assert(seq![nrm, nrm, nrm, nrm] =~= quad_normals(FaceDir::NegY));
    }
}

/// Appends the quad of the +y face of voxel (x, y, z).
fn push_face_pos_y(mesh: &mut SurfaceMesh, x: u32, y: u32, z: u32)
    requires
        x < 0x40000000,
        y < 0x40000000,
        z < 0x40000000,
        old(mesh).positions@.len() + 4 <= u32::MAX,
    ensures
        final(mesh).positions@ == old(mesh).positions@
            + quad_positions(x as int, y as int, z as int, FaceDir::PosY),
        final(mesh).normals@ == old(mesh).normals@ + quad_normals(FaceDir::PosY),
        final(mesh).uvs@ == old(mesh).uvs@ + quad_uvs(),
        final(mesh).indices@ == old(mesh).indices@
            + quad_indices(old(mesh).positions@.len() as int),
{
    let x0 = x as i32;
    let y1 = y as i32 + 1;
    let z0 = z as i32;
    let p0 = Vec3i { x: x0, y: y1, z: z0 };
    let p1 = Vec3i { x: x0, y: y1, z: z0 + 1 };
    let p2 = Vec3i { x: x0 + 1, y: y1, z: z0 + 1 };
    let p3 = Vec3i { x: x0 + 1, y: y1, z: z0 };
    let nrm = Vec3i { x: 0, y: 1, z: 0 };
    push_quad(mesh, p0, p1, p2, p3, nrm);
    proof {
        assert(seq![p0, p1, p2, p3]
            =~= quad_positions(x as int, y as int, z as int, FaceDir::PosY));
        assert(seq![nrm, nrm, nrm, nrm] =~= quad_normals(FaceDir::PosY));
    }
}

/// Appends the quad of the -z face of voxel (x, y, z).
fn push_face_neg_z(mesh: &mut SurfaceMesh, x: u32, y: u32, z: u32)
    requires
        x < 0x40000000,
        y < 0x40000000,
        z < 0x40000000,
        old(mesh).positions@.len() + 4 <= u32::MAX,
    ensures
        final(mesh).positions@ == old(mesh).positions@
            + quad_positions(x as int, y as int, z as int, FaceDir::NegZ),
        final(mesh).normals@ == old(mesh).normals@ + quad_normals(FaceDir::NegZ),
        final(mesh).uvs@ == old(mesh).uvs@ + quad_uvs(),
        final(mesh).indices@ == old(mesh).indices@
            + quad_indices(old(mesh).positions@.len() as int),
{
    let x0 = x as i32;
    let y0 = y as i32;
    let z0 = z as i32;
    let p0 = Vec3i { x: x0, y: y0, z: z0 };
    let p1 = Vec3i { x: x0, y: y0 + 1, z: z0 };
    let p2 = Vec3i { x: x0 + 1, y: y0 + 1, z: z0 };
    let p3 = Vec3i { x: x0 + 1, y: y0, z: z0 };
    let nrm = Vec3i { x: 0, y: 0, z: -1 };
    push_quad(mesh, p0, p1, p2, p3, nrm);
    proof {
        assert(seq![p0, p1, p2, p3]
            =~= quad_positions(x as int, y as int, z as int, FaceDir::NegZ));
        assert(seq![nrm, nrm, nrm, nrm] =~= quad_normals(FaceDir::NegZ));
    }
}

/// Appends the quad of the +z face of voxel (x, y, z).
fn push_face_pos_z(mesh: &mut SurfaceMesh, x: u32, y: u32, z: u32)
    requires
        x < 0x40000000,
        y < 0x40000000,
        z < 0x40000000,
        old(mesh).positions@.len() + 4 <= u32::MAX,
    ensures
        final(mesh).positions@ == old(mesh).positions@
            + quad_positions(x as int, y as int, z as int, FaceDir::PosZ),
        final(mesh).normals@ == old(mesh).normals@ + quad_normals(FaceDir::PosZ),
        final(mesh).uvs@ == old(mesh).uvs@ + quad_uvs(),
        final(mesh).indices@ == old(mesh).indices@
            + quad_indices(old(mesh).positions@.len() as int),
{
    let x0 = x as i32;
    let y0 = y as i32;
    let z1 = z as i32 + 1;
    let p0 = Vec3i { x: x0, y: y0, z: z1 };
    let p1 = Vec3i { x: x0 + 1, y: y0, z: z1 };
    let p2 = Vec3i { x: x0 + 1, y: y0 + 1, z: z1 };
    let p3 = Vec3i { x: x0, y: y0 + 1, z: z1 };
    let nrm = Vec3i { x: 0, y: 0, z: 1 };
    push_quad(mesh, p0, p1, p2, p3, nrm);
    proof {
        assert(seq![p0, p1, p2, p3]
            =~= quad_positions(x as int, y as int, z as int, FaceDir::PosZ));
        assert(seq![nrm, nrm, nrm, nrm] =~= quad_normals(FaceDir::PosZ));
    }
}

/// Emits the -x face of the solid voxel at (x, y, z) exactly
/// when that face is exposed, extending the face list `fl` by that face's
/// singleton or by nothing.
fn emit_face_neg_x(
    mesh: &mut SurfaceMesh,
    chunk: &Chunk,
    x: u32,
    y: u32,
    z: u32,
    Ghost(fl): Ghost<Seq<Face>>,
)
    requires
        chunk.wf(),
        chunk.edge() <= 512,
        (x as int) < chunk.edge(),
        (y as int) < chunk.edge(),
        (z as int) < chunk.edge(),
        solid_at(*chunk, x as int, y as int, z as int),
        fl.len() <= 1000000000,
        mesh_matches(*old(mesh), fl),
    ensures
        mesh_matches(
            *final(mesh),
            fl + dir_faces(*chunk, x as int, y as int, z as int, FaceDir::NegX),
        ),
{
    let ghost xi: int = x as int;
    let ghost yi: int = y as int;
    let ghost zi: int = z as int;
    if x == 0 || chunk.get(x - 1, y, z).is_empty() {
        proof {
            if x == 0 {
                chunk.lemma_get_out_of_range(xi - 1, yi, zi);
            }
            assert(face_exposed(*chunk, xi, yi, zi, FaceDir::NegX));
            lemma_list_lens(fl);
        }
        push_face_neg_x(&mut *mesh, x, y, z);
        proof {
            lemma_list_push(fl, (xi, yi, zi, FaceDir::NegX));
            assert(fl + dir_faces(*chunk, xi, yi, zi, FaceDir::NegX)
                =~= fl.push((xi, yi, zi, FaceDir::NegX)));
        }
    } else {
        proof {
            assert(!face_exposed(*chunk, xi, yi, zi, FaceDir::NegX));
            assert(fl + dir_faces(*chunk, xi, yi, zi, FaceDir::NegX) =~= fl);
        }
    }
}

/// Emits the +x face of the solid voxel at (x, y, z) exactly
/// when that face is exposed, extending the face list `fl` by that face's
/// singleton or by nothing.
fn emit_face_pos_x(
    mesh: &mut SurfaceMesh,
    chunk: &Chunk,
    x: u32,
    y: u32,
    z: u32,
    Ghost(fl): Ghost<Seq<Face>>,
)
    requires
        chunk.wf(),
        chunk.edge() <= 512,
        (x as int) < chunk.edge(),
        (y as int) < chunk.edge(),
        (z as int) < chunk.edge(),
        solid_at(*chunk, x as int, y as int, z as int),
        fl.len() <= 1000000000,
        mesh_matches(*old(mesh), fl),
    ensures
        mesh_matches(
            *final(mesh),
            fl + dir_faces(*chunk, x as int, y as int, z as int, FaceDir::PosX),
        ),
{
    let ghost xi: int = x as int;
    let ghost yi: int = y as int;
    let ghost zi: int = z as int;
    let e = chunk.size();
    if x + 1 >= e || chunk.get(x + 1, y, z).is_empty() {
        proof {
            if xi + 1 >= chunk.edge() {
                chunk.lemma_get_out_of_range(xi + 1, yi, zi);
            }
            assert(face_exposed(*chunk, xi, yi, zi, FaceDir::PosX));
            lemma_list_lens(fl);
        }
        push_face_pos_x(&mut *mesh, x, y, z);
        proof {
            lemma_list_push(fl, (xi, yi, zi, FaceDir::PosX));
            assert(fl + dir_faces(*chunk, xi, yi, zi, FaceDir::PosX)
                =~= fl.push((xi, yi, zi, FaceDir::PosX)));
        }
    } else {
        proof {
            assert(!face_exposed(*chunk, xi, yi, zi, FaceDir::PosX));
            assert(fl + dir_faces(*chunk, xi, yi, zi, FaceDir::PosX) =~= fl);
        }
    }
}

/// Emits the -y face of the solid voxel at (x, y, z) exactly
/// when that face is exposed, extending the face list `fl` by that face's
/// singleton or by nothing.
fn emit_face_neg_y(
    mesh: &mut SurfaceMesh,
    chunk: &Chunk,
    x: u32,
    y: u32,
    z: u32,
    Ghost(fl): Ghost<Seq<Face>>,
)
    requires
        chunk.wf(),
        chunk.edge() <= 512,
        (x as int) < chunk.edge(),
        (y as int) < chunk.edge(),
        (z as int) < chunk.edge(),
        solid_at(*chunk, x as int, y as int, z as int),
        fl.len() <= 1000000000,
        mesh_matches(*old(mesh), fl),
    ensures
        mesh_matches(
            *final(mesh),
            fl + dir_faces(*chunk, x as int, y as int, z as int, FaceDir::NegY),
        ),
{
    let ghost xi: int = x as int;
    let ghost yi: int = y as int;
    let ghost zi: int = z as int;
    if y == 0 || chunk.get(x, y - 1, z).is_empty() {
        proof {
            if y == 0 {
                chunk.lemma_get_out_of_range(xi, yi - 1, zi);
            }
            assert(face_exposed(*chunk, xi, yi, zi, FaceDir::NegY));
            lemma_list_lens(fl);
        }
        push_face_neg_y(&mut *mesh, x, y, z);
        proof {
            lemma_list_push(fl, (xi, yi, zi, FaceDir::NegY));
            assert(fl + dir_faces(*chunk, xi, yi, zi, FaceDir::NegY)
                =~= fl.push((xi, yi, zi, FaceDir::NegY)));
        }
    } else {
        proof {
            assert(!face_exposed(*chunk, xi, yi, zi, FaceDir::NegY));
            assert(fl + dir_faces(*chunk, xi, yi, zi, FaceDir::NegY) =~= fl);
        }
    }
}

/// Emits the +y face of the solid voxel at (x, y, z) exactly
/// when that face is exposed, extending the face list `fl` by that face's
/// singleton or by nothing.
fn emit_face_pos_y(
    mesh: &mut SurfaceMesh,
    chunk: &Chunk,
    x: u32,
    y: u32,
    z: u32,
    Ghost(fl): Ghost<Seq<Face>>,
)
    requires
        chunk.wf(),
        chunk.edge() <= 512,
        (x as int) < chunk.edge(),
        (y as int) < chunk.edge(),
        (z as int) < chunk.edge(),
        solid_at(*chunk, x as int, y as int, z as int),
        fl.len() <= 1000000000,
        mesh_matches(*old(mesh), fl),
    ensures
        mesh_matches(
            *final(mesh),
            fl + dir_faces(*chunk, x as int, y as int, z as int, FaceDir::PosY),
        ),
{
    let ghost xi: int = x as int;
    let ghost yi: int = y as int;
    let ghost zi: int = z as int;
    let e = chunk.size();
    if y + 1 >= e || chunk.get(x, y + 1, z).is_empty() {
        proof {
            if yi + 1 >= chunk.edge() {
                chunk.lemma_get_out_of_range(xi, yi + 1, zi);
            }
            assert(face_exposed(*chunk, xi, yi, zi, FaceDir::PosY));
            lemma_list_lens(fl);
        }
        push_face_pos_y(&mut *mesh, x, y, z);
        proof {
            lemma_list_push(fl, (xi, yi, zi, FaceDir::PosY));
            assert(fl + dir_faces(*chunk, xi, yi, zi, FaceDir::PosY)
                =~= fl.push((xi, yi, zi, FaceDir::PosY)));
        }
    } else {
        proof {
            assert(!face_exposed(*chunk, xi, yi, zi, FaceDir::PosY));
            assert(fl + dir_faces(*chunk, xi, yi, zi, FaceDir::PosY) =~= fl);
        }
    }
}

/// Emits the -z face of the solid voxel at (x, y, z) exactly
/// when that face is exposed, extending the face list `fl` by that face's
/// singleton or by nothing.
fn emit_face_neg_z(
    mesh: &mut SurfaceMesh,
    chunk: &Chunk,
    x: u32,
    y: u32,
    z: u32,
    Ghost(fl): Ghost<Seq<Face>>,
)
    requires
        chunk.wf(),
        chunk.edge() <= 512,
        (x as int) < chunk.edge(),
        (y as int) < chunk.edge(),
        (z as int) < chunk.edge(),
        solid_at(*chunk, x as int, y as int, z as int),
        fl.len() <= 1000000000,
        mesh_matches(*old(mesh), fl),
    ensures
        mesh_matches(
            *final(mesh),
            fl + dir_faces(*chunk, x as int, y as int, z as int, FaceDir::NegZ),
        ),
{
    let ghost xi: int = x as int;
    let ghost yi: int = y as int;
    let ghost zi: int = z as int;
    if z == 0 || chunk.get(x, y, z - 1).is_empty() {
        proof {
            if z == 0 {
                chunk.lemma_get_out_of_range(xi, yi, zi - 1);
            }
            assert(face_exposed(*chunk, xi, yi, zi, FaceDir::NegZ));
            lemma_list_lens(fl);
        }
        push_face_neg_z(&mut *mesh, x, y, z);
        proof {
            lemma_list_push(fl, (xi, yi, zi, FaceDir::NegZ));
            assert(fl + dir_faces(*chunk, xi, yi, zi, FaceDir::NegZ)
                =~= fl.push((xi, yi, zi, FaceDir::NegZ)));
        }
    } else {
        proof {
            assert(!face_exposed(*chunk, xi, yi, zi, FaceDir::NegZ));
            assert(fl + dir_faces(*chunk, xi, yi, zi, FaceDir::NegZ) =~= fl);
        }
    }
}

/// Emits the +z face of the solid voxel at (x, y, z) exactly
/// when that face is exposed, extending the face list `fl` by that face's
/// singleton or by nothing.
fn emit_face_pos_z(
    mesh: &mut SurfaceMesh,
    chunk: &Chunk,
    x: u32,
    y: u32,
    z: u32,
    Ghost(fl): Ghost<Seq<Face>>,
)
    requires
        chunk.wf(),
        chunk.edge() <= 512,
        (x as int) < chunk.edge(),
        (y as int) < chunk.edge(),
        (z as int) < chunk.edge(),
        solid_at(*chunk, x as int, y as int, z as int),
        fl.len() <= 1000000000,
        mesh_matches(*old(mesh), fl),
    ensures
        mesh_matches(
            *final(mesh),
            fl + dir_faces(*chunk, x as int, y as int, z as int, FaceDir::PosZ),
        ),
{
    let ghost xi: int = x as int;
    let ghost yi: int = y as int;
    let ghost zi: int = z as int;
    let e = chunk.size();
    if z + 1 >= e || chunk.get(x, y, z + 1).is_empty() {
        proof {
            if zi + 1 >= chunk.edge() {
                chunk.lemma_get_out_of_range(xi, yi, zi + 1);
            }
            assert(face_exposed(*chunk, xi, yi, zi, FaceDir::PosZ));
            lemma_list_lens(fl);
        }
        push_face_pos_z(&mut *mesh, x, y, z);
        proof {
            lemma_list_push(fl, (xi, yi, zi, FaceDir::PosZ));
            assert(fl + dir_faces(*chunk, xi, yi, zi, FaceDir::PosZ)
                =~= fl.push((xi, yi, zi, FaceDir::PosZ)));
        }
    } else {
        proof {
            assert(!face_exposed(*chunk, xi, yi, zi, FaceDir::PosZ));
            assert(fl + dir_faces(*chunk, xi, yi, zi, FaceDir::PosZ) =~= fl);
        }
    }
}

/// Emits the exposed faces of the single voxel at (x, y, z), extending a
/// mesh that holds the faces of all earlier cells in traversal order.
#[verifier::rlimit(100)]
fn mesh_cell(mesh: &mut SurfaceMesh, chunk: &Chunk, x: u32, y: u32, z: u32)
    requires
        chunk.wf(),
        chunk.edge() <= 512,
        (x as int) < chunk.edge(),
        (y as int) < chunk.edge(),
        (z as int) < chunk.edge(),
        mesh_matches(
            *old(mesh),
            faces_up_to(*chunk, lin_index(chunk.edge(), x as int, y as int, z as int)),
        ),
    ensures
        mesh_matches(
            *final(mesh),
            faces_up_to(*chunk, lin_index(chunk.edge(), x as int, y as int, z as int) + 1),
        ),
{
    let ghost ge: int = chunk.edge();
    let ghost xi: int = x as int;
    let ghost yi: int = y as int;
    let ghost zi: int = z as int;
    let ghost n: int = lin_index(ge, xi, yi, zi);
    let ghost fl0 = faces_up_to(*chunk, n);
    proof {
        lemma_lin_index_bounds(ge, xi, yi, zi);
        lemma_lin_index_decode(ge, xi, yi, zi);
        lemma_faces_up_to_len_bound(*chunk, n);
        assert(ge * ge * ge <= 134217728) by (nonlinear_arith)
            requires 0 <= ge <= 512;
        assert(faces_up_to(*chunk, n + 1) == fl0 + cell_faces(*chunk, xi, yi, zi));
    }

    let v = chunk.get(x, y, z);
    if v.is_empty() {
        proof {
            assert(!solid_at(*chunk, xi, yi, zi));
            assert(cell_faces(*chunk, xi, yi, zi) =~= Seq::<Face>::empty());
            assert(faces_up_to(*chunk, n + 1) =~= fl0);
        }
    } else {
        let ghost f1 = fl0 + dir_faces(*chunk, xi, yi, zi, FaceDir::NegX);
        let ghost f2 = f1 + dir_faces(*chunk, xi, yi, zi, FaceDir::PosX);
        let ghost f3 = f2 + dir_faces(*chunk, xi, yi, zi, FaceDir::NegY);
        let ghost f4 = f3 + dir_faces(*chunk, xi, yi, zi, FaceDir::PosY);
        let ghost f5 = f4 + dir_faces(*chunk, xi, yi, zi, FaceDir::NegZ);
        let ghost f6 = f5 + dir_faces(*chunk, xi, yi, zi, FaceDir::PosZ);
        emit_face_neg_x(&mut *mesh, chunk, x, y, z, Ghost(fl0));
        emit_face_pos_x(&mut *mesh, chunk, x, y, z, Ghost(f1));
        emit_face_neg_y(&mut *mesh, chunk, x, y, z, Ghost(f2));
        emit_face_pos_y(&mut *mesh, chunk, x, y, z, Ghost(f3));
        emit_face_neg_z(&mut *mesh, chunk, x, y, z, Ghost(f4));
        emit_face_pos_z(&mut *mesh, chunk, x, y, z, Ghost(f5));
        proof {
            assert(f6 =~= fl0 + cell_faces(*chunk, xi, yi, zi));
            assert(mesh_matches(*mesh, faces_up_to(*chunk, n + 1)));
        }
    }
}

/// Builds the surface mesh of a chunk: every voxel is visited with x
/// innermost, then y, then z, and each of its six faces is emitted exactly
/// when the face is exposed - the neighbor is empty or outside the chunk.
/// The result holds the buffers of the chunk's face list: four vertices and
/// six indices per exposed face, and nothing else.
#[verifier::loop_isolation(false)]
pub fn mesh_chunk(chunk: &Chunk) -> (mesh: SurfaceMesh)
    requires
        chunk.wf(),
        chunk.edge() <= 512,
    ensures
        mesh_matches(mesh, face_list(*chunk)),
        mesh.positions@.len() == 4 * face_list(*chunk).len(),
        mesh.normals@.len() == mesh.positions@.len(),
        mesh.uvs@.len() == mesh.positions@.len(),
        mesh.indices@.len() == 6 * face_list(*chunk).len(),
        mesh.positions@.len() % 4 == 0,
        mesh.indices@.len() % 6 == 0,
{
    let e = chunk.size();
    let ghost ge: int = chunk.edge();
    let ghost ge2: int = ge * ge;
    let ghost ge3: int = ge * ge * ge;
    let mut mesh = SurfaceMesh::default();

    let mut z: u32 = 0;
    while z < e
        invariant
            z <= e,
            mesh_matches(mesh, faces_up_to(*chunk, z as int * ge2)),
        decreases e - z,
    {
        proof {
            assert((z as int + 1) * ge2 == z as int * ge2 + ge2
                && 0 <= z as int * ge2) by (nonlinear_arith)
                requires 0 <= z as int, 0 <= ge2, ge2 == ge * ge;
        }
        let mut y: u32 = 0;
        while y < e
            invariant
                y <= e,
                z < e,
                mesh_matches(mesh, faces_up_to(*chunk, z as int * ge2 + y as int * ge)),
            decreases e - y,
        {
            proof {
                assert((y as int + 1) * ge == y as int * ge + ge
                    && 0 <= y as int * ge) by (nonlinear_arith)
                    requires 0 <= y as int, 0 <= ge;
            }
            let mut x: u32 = 0;
            while x < e
                invariant
                    x <= e,
                    y < e,
                    z < e,
                    mesh_matches(
                        mesh,
                        faces_up_to(*chunk, z as int * ge2 + y as int * ge + x as int),
                    ),
                decreases e - x,
            {
                proof {
                    assert(z as int * ge2 + y as int * ge + x as int
                        == lin_index(ge, x as int, y as int, z as int)) by (nonlinear_arith)
                        requires ge2 == ge * ge;
                }
                mesh_cell(&mut mesh, chunk, x, y, z);
                x = x + 1;
            }
            y = y + 1;
        }
        z = z + 1;
    }
    proof {
        assert(ge * ge2 == ge3) by (nonlinear_arith)
            requires ge2 == ge * ge, ge3 == ge * ge * ge;
        assert(face_list(*chunk) == faces_up_to(*chunk, ge3));
        lemma_list_lens(face_list(*chunk));
    }
    mesh
}

} // verus!
