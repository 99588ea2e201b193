use vstd::prelude::*;

verus! {

/// One cell of the voxel grid: an occupancy/material tag.
/// A tag of 0 is air; any nonzero tag is solid.
#[derive(Copy, Clone, Debug, PartialEq, Eq, Structural)]
pub struct Voxel(pub u8);

impl Voxel {
    /// The empty voxel, `Voxel(0)`.
    pub fn air() -> (v: Voxel)
        ensures
            v.0 == 0,
    {
        Voxel(0)
    }

    /// A voxel is empty exactly when its tag is zero.
    pub fn is_empty(self) -> (r: bool)
        ensures
            r == (self.0 == 0),
    {
        self.0 == 0
    }
}

} // verus!
