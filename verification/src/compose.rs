use vstd::prelude::*;
use crate::heightfield::{gen_solid, populate_chunk_heightfield, COORD_LIMIT};
use crate::meshing::{
    face_list, lemma_face_list_congruent, mesh_chunk, mesh_matches, solid_at, SurfaceMesh,
};
use crate::world::{lemma_lin_index_bounds, lemma_lin_index_injective, lin_index, Chunk};

verus! {

/// Number of chunks along each axis of the standard world lattice.
pub const WORLD_DIM: u32 = 9;

/// The chunk `c` holds exactly the terrain generated for lattice coordinate
/// (cx, cy, cz) in a world of `world_dim` chunks per axis with chunk edge `e`.
pub open spec fn chunk_is_generated(
    c: Chunk,
    cx: int, cy: int, cz: int,
    world_dim: int, e: int,
) -> bool {
    &&& c.wf()
    &&& c.edge() == e
    &&& forall|x: int, y: int, z: int| c.in_range(x, y, z) ==>
            (#[trigger] solid_at(c, x, y, z)
                <==> gen_solid(cx, cy, cz, x, y, z, world_dim, e))
}

/// A chunk's mesh together with the lattice coordinate it belongs to; its
/// world-space translation is (cx, cy, cz) scaled by the chunk edge length.
pub struct PlacedMesh {
    pub cx: u32,
    pub cy: u32,
    pub cz: u32,
    pub mesh: SurfaceMesh,
}

impl PlacedMesh {
    /// World-space translation of this chunk's mesh: the lattice coordinate
    /// scaled by the chunk edge length.
    pub fn translation(&self, chunk_edge: u32) -> (t: (u64, u64, u64))
        ensures
            t.0 == self.cx as int * chunk_edge as int,
            t.1 == self.cy as int * chunk_edge as int,
            t.2 == self.cz as int * chunk_edge as int,
    {
        proof {
            let a = self.cx as int;
            let b = self.cy as int;
            let c = self.cz as int;
            let e = chunk_edge as int;
            assert(a * e <= 0xfffffffe00000001
                && b * e <= 0xfffffffe00000001
                && c * e <= 0xfffffffe00000001) by (nonlinear_arith)
                requires
                    0 <= a < 0x100000000,
                    0 <= b < 0x100000000,
                    0 <= c < 0x100000000,
                    0 <= e < 0x100000000;
        }
        (
            (self.cx as u64) * (chunk_edge as u64),
            (self.cy as u64) * (chunk_edge as u64),
            (self.cz as u64) * (chunk_edge as u64),
        )
    }
}

/// Position of a lattice coordinate in traversal order: cx innermost, then
/// cy, then cz.
pub open spec fn entry_rank(p: PlacedMesh, world_dim: int) -> int {
    lin_index(world_dim, p.cx as int, p.cy as int, p.cz as int)
}

/// A sound output entry: it lies in the lattice, its mesh is non-empty, and
/// its mesh is exactly the meshing of the terrain generated for its
/// coordinate.
pub open spec fn entry_ok(p: PlacedMesh, world_dim: int, e: int) -> bool {
    &&& (p.cx as int) < world_dim
    &&& (p.cy as int) < world_dim
    &&& (p.cz as int) < world_dim
    &&& p.mesh.indices@.len() > 0
    &&& exists|c: Chunk|
            #[trigger] chunk_is_generated(c, p.cx as int, p.cy as int, p.cz as int, world_dim, e)
            && mesh_matches(p.mesh, face_list(c))
}

/// Some entry of `s` sits at lattice coordinate (cx, cy, cz).
pub open spec fn has_entry_at(s: Seq<PlacedMesh>, cx: int, cy: int, cz: int) -> bool {
    exists|i: int|
        0 <= i < s.len() && (#[trigger] s[i]).cx == cx && s[i].cy == cy && s[i].cz == cz
}

/// The terrain generated for lattice coordinate (cx, cy, cz) exposes no
/// face: every chunk holding that terrain has an empty face list.
pub open spec fn empty_at(cx: int, cy: int, cz: int, world_dim: int, e: int) -> bool {
    forall|c: Chunk|
        #[trigger] chunk_is_generated(c, cx, cy, cz, world_dim, e)
            ==> face_list(c).len() == 0
}

/// Generates the chunk at lattice coordinate (cx, cy, cz) and meshes it.
/// The mesh is the meshing of the generated terrain, and it is empty only
/// when that terrain exposes no face.
fn generate_chunk_mesh(
    cx: u32, cy: u32, cz: u32,
    world_dim: u32, chunk_edge: u32,
) -> (r: SurfaceMesh)
    requires
        world_dim >= 1,
        1 <= chunk_edge <= 512,
        cx < world_dim,
        cy < world_dim,
        cz < world_dim,
        world_dim as int * chunk_edge as int <= COORD_LIMIT,
    ensures
        exists|c: Chunk|
            #[trigger] chunk_is_generated(
                c, cx as int, cy as int, cz as int, world_dim as int, chunk_edge as int,
            ) && mesh_matches(r, face_list(c)),
        r.indices@.len() == 0
            ==> empty_at(cx as int, cy as int, cz as int, world_dim as int, chunk_edge as int),
{
    let ghost wdi: int = world_dim as int;
    let ghost ei: int = chunk_edge as int;
    proof {
        assert(ei * ei * ei <= 134217728
            && (cx as int + 1) * ei <= wdi * ei
            && (cz as int + 1) * ei <= wdi * ei) by (nonlinear_arith)
            requires
                1 <= ei <= 512,
                cx as int + 1 <= wdi,
                cz as int + 1 <= wdi;
    }
    let mut chunk = Chunk::new(chunk_edge);
    populate_chunk_heightfield(cx, cy, cz, &mut chunk, world_dim);
    let r = mesh_chunk(&chunk);
    proof {
        assert forall|x: int, y: int, z: int| chunk.in_range(x, y, z) implies
            (#[trigger] solid_at(chunk, x, y, z)
                <==> gen_solid(cx as int, cy as int, cz as int, x, y, z, wdi, ei)) by {
        }
        assert(chunk_is_generated(chunk, cx as int, cy as int, cz as int, wdi, ei));
        if r.indices@.len() == 0 {
            assert forall|c: Chunk|
                #[trigger] chunk_is_generated(c, cx as int, cy as int, cz as int, wdi, ei)
                    implies face_list(c).len() == 0 by {
                assert forall|x: int, y: int, z: int|
                    #[trigger] solid_at(c, x, y, z) == solid_at(chunk, x, y, z) by {
                    if !c.in_range(x, y, z) {
                        c.lemma_get_out_of_range(x, y, z);
                        chunk.lemma_get_out_of_range(x, y, z);
                    }
                }
                lemma_face_list_congruent(c, chunk);
            }
        }
    }
    r
}

/// Walks the whole chunk lattice: generates each chunk, meshes it, and
/// collects the non-empty meshes with their lattice coordinates, in
/// traversal order (cx innermost, then cy, then cz). Chunks whose mesh is
/// empty are dropped - a valid result, not an error.
#[verifier::loop_isolation(false)]
#[verifier::rlimit(100)]
pub fn build_world(world_dim: u32, chunk_edge: u32) -> (out: Vec<PlacedMesh>)
    requires
        world_dim >= 1,
        1 <= chunk_edge <= 512,
        world_dim as int * chunk_edge as int <= COORD_LIMIT,
    ensures
        forall|i: int| 0 <= i < out@.len()
            ==> entry_ok(#[trigger] out@[i], world_dim as int, chunk_edge as int),
        forall|i: int, j: int| 0 <= i < j < out@.len()
            ==> entry_rank(out@[i], world_dim as int) < entry_rank(out@[j], world_dim as int),
        forall|cx: int, cy: int, cz: int|
            0 <= cx < world_dim && 0 <= cy < world_dim && 0 <= cz < world_dim
                ==> #[trigger] has_entry_at(out@, cx, cy, cz)
                    || empty_at(cx, cy, cz, world_dim as int, chunk_edge as int),
{
    let ghost wdi: int = world_dim as int;
    let ghost wd2: int = wdi * wdi;
    let ghost wd3: int = wdi * wdi * wdi;
    let ghost ei: int = chunk_edge as int;
    let mut out: Vec<PlacedMesh> = Vec::new();

    let mut cz: u32 = 0;
    while cz < world_dim
        invariant
            cz <= world_dim,
            forall|i: int| 0 <= i < out@.len()
                ==> entry_ok(#[trigger] out@[i], wdi, ei),
            forall|i: int, j: int| 0 <= i < j < out@.len()
                ==> entry_rank(out@[i], wdi) < entry_rank(out@[j], wdi),
            forall|i: int| 0 <= i < out@.len()
                ==> entry_rank(#[trigger] out@[i], wdi) < cz as int * wd2,
            forall|a: int, b: int, c: int|
                0 <= a < wdi && 0 <= b < wdi && 0 <= c < wdi
                    && lin_index(wdi, a, b, c) < cz as int * wd2
                    ==> #[trigger] has_entry_at(out@, a, b, c) || empty_at(a, b, c, wdi, ei),
        decreases world_dim - cz,
    {
        proof {
            assert((cz as int + 1) * wd2 == cz as int * wd2 + wd2
                && 0 <= cz as int * wd2) by (nonlinear_arith)
                requires 0 <= cz as int, 0 <= wd2, wd2 == wdi * wdi;
        }
        let mut cy: u32 = 0;
        while cy < world_dim
            invariant
                cy <= world_dim,
                cz < world_dim,
                forall|i: int| 0 <= i < out@.len()
                    ==> entry_ok(#[trigger] out@[i], wdi, ei),
                forall|i: int, j: int| 0 <= i < j < out@.len()
                    ==> entry_rank(out@[i], wdi) < entry_rank(out@[j], wdi),
                forall|i: int| 0 <= i < out@.len()
                    ==> entry_rank(#[trigger] out@[i], wdi)
                        < cz as int * wd2 + cy as int * wdi,
                forall|a: int, b: int, c: int|
                    0 <= a < wdi && 0 <= b < wdi && 0 <= c < wdi
                        && lin_index(wdi, a, b, c) < cz as int * wd2 + cy as int * wdi
                        ==> #[trigger] has_entry_at(out@, a, b, c)
                            || empty_at(a, b, c, wdi, ei),
            decreases world_dim - cy,
        {
            proof {
                assert((cy as int + 1) * wdi == cy as int * wdi + wdi
                    && 0 <= cy as int * wdi) by (nonlinear_arith)
                    requires 0 <= cy as int, 0 <= wdi;
            }
            let mut cx: u32 = 0;
            while cx < world_dim
                invariant
                    cx <= world_dim,
                    cy < world_dim,
                    cz < world_dim,
                    forall|i: int| 0 <= i < out@.len()
                        ==> entry_ok(#[trigger] out@[i], wdi, ei),
                    forall|i: int, j: int| 0 <= i < j < out@.len()
                        ==> entry_rank(out@[i], wdi) < entry_rank(out@[j], wdi),
                    forall|i: int| 0 <= i < out@.len()
                        ==> entry_rank(#[trigger] out@[i], wdi)
                            < cz as int * wd2 + cy as int * wdi + cx as int,
                    forall|a: int, b: int, c: int|
                        0 <= a < wdi && 0 <= b < wdi && 0 <= c < wdi
                            && lin_index(wdi, a, b, c)
                                < cz as int * wd2 + cy as int * wdi + cx as int
                            ==> #[trigger] has_entry_at(out@, a, b, c)
                                || empty_at(a, b, c, wdi, ei),
                decreases world_dim - cx,
            {
                let ghost n: int = cz as int * wd2 + cy as int * wdi + cx as int;
                proof {
                    assert(n == lin_index(wdi, cx as int, cy as int, cz as int))
                        by (nonlinear_arith)
                        requires
                            n == cz as int * wd2 + cy as int * wdi + cx as int,
                            wd2 == wdi * wdi;
                }
                let ghost old_out = out@;
                let pm = generate_chunk_mesh(cx, cy, cz, world_dim, chunk_edge);
                if pm.indices.len() > 0 {
                    out.push(PlacedMesh { cx, cy, cz, mesh: pm });
                    proof {
                        assert(out@ == old_out.push(out@[old_out.len() as int]));
                        assert(entry_ok(out@[old_out.len() as int], wdi, ei));
                        assert(has_entry_at(out@, cx as int, cy as int, cz as int));
                    }
                }
                proof {
                    assert forall|a: int, b: int, c: int|
                        0 <= a < wdi && 0 <= b < wdi && 0 <= c < wdi
                            && lin_index(wdi, a, b, c) < n + 1
                            implies #[trigger] has_entry_at(out@, a, b, c)
                                || empty_at(a, b, c, wdi, ei) by {
                        if lin_index(wdi, a, b, c) == n {
                            lemma_lin_index_injective(
                                wdi, a, b, c, cx as int, cy as int, cz as int,
                            );
                        } else {
                            if has_entry_at(old_out, a, b, c) {
                                let i = choose|i: int|
                                    0 <= i < old_out.len() && (#[trigger] old_out[i]).cx == a
                                        && old_out[i].cy == b && old_out[i].cz == c;
                                assert(out@[i] == old_out[i]);
                                assert(has_entry_at(out@, a, b, c));
                            }
                        }
                    }
                }
                cx = cx + 1;
            }
            cy = cy + 1;
        }
        cz = cz + 1;
    }
    proof {
        assert(wdi * wd2 == wd3) by (nonlinear_arith)
            requires wd2 == wdi * wdi, wd3 == wdi * wdi * wdi;
        assert forall|a: int, b: int, c: int|
            0 <= a < wdi && 0 <= b < wdi && 0 <= c < wdi
                implies #[trigger] has_entry_at(out@, a, b, c)
                    || empty_at(a, b, c, wdi, ei) by {
            lemma_lin_index_bounds(wdi, a, b, c);
        }
    }
    out
}

} // verus!
