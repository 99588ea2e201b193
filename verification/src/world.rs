use vstd::prelude::*;
use vstd::arithmetic::div_mod::lemma_fundamental_div_mod_converse;
use crate::voxel::Voxel;

verus! {

/// Edge length, in voxels, of a chunk in the standard world configuration.
pub const CHUNK_SIZE: u32 = 32;

/// Linear storage index of local coordinate (x, y, z) in a cube of edge `e`:
/// x varies fastest, then y, then z.
pub open spec fn lin_index(e: int, x: int, y: int, z: int) -> int {
    x + y * e + z * e * e
}

/// The linear index of an in-range coordinate lies within the cube's storage.
pub proof fn lemma_lin_index_bounds(e: int, x: int, y: int, z: int)
    by (nonlinear_arith)
    requires
        0 <= x < e,
        0 <= y < e,
        0 <= z < e,
    ensures
        0 <= y * e,
        x + y * e < e * e,
        e * e <= e * e * e,
        0 <= z * e,
        z * e < e * e,
        0 <= z * e * e,
        z * e * e < e * e * e,
        0 <= lin_index(e, x, y, z) < e * e * e,
{
}

/// The linear index decomposes back into its coordinates by division and
/// remainder, so distinct in-range coordinates get distinct indices.
pub proof fn lemma_lin_index_decode(e: int, x: int, y: int, z: int)
    requires
        e > 0,
        0 <= x < e,
        0 <= y < e,
        0 <= z,
    ensures
        lin_index(e, x, y, z) % e == x,
        (lin_index(e, x, y, z) / e) % e == y,
        (lin_index(e, x, y, z) / e) / e == z,
{
    let n = lin_index(e, x, y, z);
    assert(x + y * e + z * e * e == (y + z * e) * e + x) by (nonlinear_arith);
    assert(0 <= y + z * e) by (nonlinear_arith)
        requires 0 <= y && 0 <= z && e > 0;
    lemma_fundamental_div_mod_converse(n, e, y + z * e, x);
    lemma_fundamental_div_mod_converse(y + z * e, e, z, y);
}

/// Distinct in-range coordinates never share a storage slot.
pub proof fn lemma_lin_index_injective(
    e: int,
    x1: int, y1: int, z1: int,
    x2: int, y2: int, z2: int,
)
    requires
        e > 0,
        0 <= x1 < e,
        0 <= y1 < e,
        0 <= z1,
        0 <= x2 < e,
        0 <= y2 < e,
        0 <= z2,
        lin_index(e, x1, y1, z1) == lin_index(e, x2, y2, z2),
    ensures
        x1 == x2,
        y1 == y2,
        z1 == z2,
{
    lemma_lin_index_decode(e, x1, y1, z1);
    lemma_lin_index_decode(e, x2, y2, z2);
}

/// A dense cube of voxels of edge length `size`, stored row-major with
/// x fastest-varying, then y, then z. Created with every voxel set to air.
#[derive(Clone)]
pub struct Chunk {
    size: u32,
    data: Vec<Voxel>,
}

impl Chunk {
    /// Edge length of the cube, as a mathematical integer.
    pub closed spec fn edge(&self) -> int {
        self.size as int
    }

    /// The chunk owns exactly edge-cubed voxels.
    pub closed spec fn wf(&self) -> bool {
        &&& self.data@.len() == self.edge() * self.edge() * self.edge()
        &&& self.edge() * self.edge() * self.edge() <= usize::MAX
    }

    /// Whether (x, y, z) is a valid local coordinate of this chunk.
    pub open spec fn in_range(&self, x: int, y: int, z: int) -> bool {
        0 <= x < self.edge() && 0 <= y < self.edge() && 0 <= z < self.edge()
    }

    /// The tag stored at (x, y, z); air (0) for out-of-range coordinates.
    pub closed spec fn spec_get(&self, x: int, y: int, z: int) -> u8 {
        if self.in_range(x, y, z) {
            self.data@[lin_index(self.edge(), x, y, z)].0
        } else {
            0
        }
    }

    /// Reads outside the cube always see air.
    pub broadcast proof fn lemma_get_out_of_range(&self, x: int, y: int, z: int)
        requires
            !self.in_range(x, y, z),
        ensures
            #[trigger] self.spec_get(x, y, z) == 0,
    {
    }

    /// A fresh chunk of the given edge length, entirely air.
    pub fn new(size: u32) -> (c: Chunk)
        requires
            size * size * size <= usize::MAX,
        ensures
            c.wf(),
            c.edge() == size as int,
            forall|x: int, y: int, z: int| c.spec_get(x, y, z) == 0,
    {
        let s = size as usize;
        assert(s * s <= usize::MAX && s * s * s <= usize::MAX) by (nonlinear_arith)
            requires
                s as int == size as int,
                size as int * size as int * size as int <= usize::MAX as int;
        let volume: usize = s * s * s;
        let c = Chunk { size, data: vec![Voxel(0); volume] };
        assert forall|x: int, y: int, z: int| c.spec_get(x, y, z) == 0 by {
            if c.in_range(x, y, z) {
                lemma_lin_index_bounds(c.edge(), x, y, z);
            }
        }
        c
    }

    /// The edge length this chunk was created with.
    pub fn size(&self) -> (s: u32)
        ensures
            s as int == self.edge(),
    {
        self.size
    }

    /// Whether (x, y, z) lies inside the cube.
    pub fn in_bounds(&self, x: u32, y: u32, z: u32) -> (r: bool)
        ensures
            r == self.in_range(x as int, y as int, z as int),
    {
        x < self.size && y < self.size && z < self.size
    }

    /// Storage index of an in-range coordinate.
    pub fn index(&self, x: u32, y: u32, z: u32) -> (i: usize)
        requires
            self.wf(),
            self.in_range(x as int, y as int, z as int),
        ensures
            i == lin_index(self.edge(), x as int, y as int, z as int),
    {
        proof {
            lemma_lin_index_bounds(self.edge(), x as int, y as int, z as int);
        }
        (x as usize) + (y as usize) * (self.size as usize)
            + (z as usize) * (self.size as usize) * (self.size as usize)
    }

    /// The voxel at (x, y, z); air for any out-of-range coordinate.
    pub fn get(&self, x: u32, y: u32, z: u32) -> (v: Voxel)
        requires
            self.wf(),
        ensures
            v.0 == self.spec_get(x as int, y as int, z as int),
            !self.in_range(x as int, y as int, z as int) ==> v.0 == 0,
    {
        if !self.in_bounds(x, y, z) {
            return Voxel(0);
        }
        let i = self.index(x, y, z);
        proof {
            lemma_lin_index_bounds(self.edge(), x as int, y as int, z as int);
        }
        self.data[i]
    }

    /// Writes the voxel at (x, y, z); a silent no-op out of range.
    /// Every other coordinate keeps its previous value.
    pub fn set(&mut self, x: u32, y: u32, z: u32, v: Voxel)
        requires
            old(self).wf(),
        ensures
            final(self).wf(),
            final(self).edge() == old(self).edge(),
            forall|i: int, j: int, k: int|
                final(self).spec_get(i, j, k)
                    == (if old(self).in_range(x as int, y as int, z as int)
                            && i == x as int && j == y as int && k == z as int {
                        v.0
                    } else {
                        old(self).spec_get(i, j, k)
                    }),
    {
        if !self.in_bounds(x, y, z) {
            return;
        }
        let idx = self.index(x, y, z);
        proof {
            lemma_lin_index_bounds(self.edge(), x as int, y as int, z as int);
        }
        self.data[idx] = v;
        proof {
            let e = self.edge();
            assert forall|i: int, j: int, k: int|
                self.spec_get(i, j, k)
                    == (if old(self).in_range(x as int, y as int, z as int)
                            && i == x as int && j == y as int && k == z as int {
                        v.0
                    } else {
                        old(self).spec_get(i, j, k)
                    }) by {
                if self.in_range(i, j, k) {
                    lemma_lin_index_bounds(e, i, j, k);
                    if lin_index(e, i, j, k) == lin_index(e, x as int, y as int, z as int) {
                        lemma_lin_index_injective(
                            e, i, j, k, x as int, y as int, z as int,
                        );
                    }
                }
            }
        }
    }
}

} // verus!
