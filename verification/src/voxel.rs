//! The integer lattice address of a voxel cell.

use vstd::prelude::*;

verus! {

/// A cell address on the voxel lattice: one signed coordinate per axis.
///
/// Two perceptual points fall into the same cell exactly when they quantize
/// to the same triple, so equality here is exact integer equality — no
/// floating-point comparison is ever needed once a point has been keyed.
#[derive(Hash, PartialEq, Eq, Copy, Clone, Structural, Debug)]
pub struct VoxelPoint(pub i32, pub i32, pub i32);

impl VoxelPoint {
    /// Componentwise translation of one cell address by another.
    pub fn add(self, rhs: VoxelPoint) -> (r: VoxelPoint)
        requires
            i32::MIN <= self.0 + rhs.0 <= i32::MAX,
            i32::MIN <= self.1 + rhs.1 <= i32::MAX,
            i32::MIN <= self.2 + rhs.2 <= i32::MAX,
        ensures
            r.0 == self.0 + rhs.0,
            r.1 == self.1 + rhs.1,
            r.2 == self.2 + rhs.2,
    {
        VoxelPoint(self.0 + rhs.0, self.1 + rhs.1, self.2 + rhs.2)
    }
}

} // verus!
