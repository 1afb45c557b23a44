use vstd::prelude::*;

verus! {

/// The material of one voxel.
#[derive(Clone, Copy, PartialEq, Eq, Structural, Debug, Hash)]
pub enum VoxelType {
    Air,
    Rock,
    Dirt,
    Grass,
    Core,
}

impl VoxelType {
    /// Whether this voxel type is solid material: everything but air.
    pub open spec fn spec_is_solid(self) -> bool {
        self != VoxelType::Air
    }

    /// Check if this voxel type represents solid material
    pub fn is_solid(&self) -> (r: bool)
        ensures
            r == self.spec_is_solid(),
    {
        match self {
            VoxelType::Air => false,
            _ => true,
        }
    }
}

} // verus!
