use crate::planet::world::voxel::VoxelType;
use bevy::ecs::entity::Entity;
use bevy::math::Vec2;
use vstd::prelude::*;

verus! {

/// Width and height of a chunk, in voxels.
pub const CHUNK_SIZE: usize = 16;

/// A square grid of voxels together with its bookkeeping flags.
pub struct Chunk {
    /// Simple grid of voxel types, row by row
    voxels: Vec<VoxelType>,
    /// Whether this chunk needs to be re-meshed
    dirty: bool,
    /// Whether this chunk has been modified apart from the initial generation
    modified: bool,
    /// Pairs of (position of the normal, the normal vector itself)
    surface_normals: Vec<(Vec2, Vec2)>,
    foliage: Vec<Entity>,
}

/// The abstract contents of a chunk.
pub struct ChunkModel {
    pub voxels: Seq<VoxelType>,
    pub dirty: bool,
    pub modified: bool,
    pub surface_normals: Seq<(Vec2, Vec2)>,
    pub foliage: Seq<Entity>,
}

/// Index of the voxel at local coordinates `(x, y)` in the row-by-row grid.
pub open spec fn voxel_index(x: int, y: int) -> int {
    y * (CHUNK_SIZE as int) + x
}

impl ChunkModel {
    /// The voxel stored at `(x, y)`: air where the index falls outside the grid.
    pub open spec fn voxel_at(self, x: int, y: int) -> VoxelType {
        let idx = voxel_index(x, y);
        if 0 <= idx < self.voxels.len() {
            self.voxels[idx]
        } else {
            VoxelType::Air
        }
    }

    /// The model after writing `vtype` at `(x, y)`: an index outside the grid
    /// changes nothing; a write inside it stores the value and, when the value
    /// differs from the stored one, raises the dirty and modified flags.
    pub open spec fn with_voxel(self, x: int, y: int, vtype: VoxelType) -> ChunkModel {
        let idx = voxel_index(x, y);
        if 0 <= idx < self.voxels.len() {
            let changed = self.voxels[idx] != vtype;
            ChunkModel {
                voxels: self.voxels.update(idx, vtype),
                dirty: self.dirty || changed,
                modified: self.modified || changed,
                ..self
            }
        } else {
            self
        }
    }

    pub open spec fn with_dirty(self, dirty: bool) -> ChunkModel {
        ChunkModel { dirty, ..self }
    }
}

/// Reading a voxel back after writing it inside the grid gives what was
/// written; every other voxel keeps its value.
pub proof fn law_chunk_read_after_write(c: ChunkModel, x: int, y: int, vtype: VoxelType, x2: int, y2: int)
    requires
        0 <= x < CHUNK_SIZE,
        0 <= y < CHUNK_SIZE,
        0 <= x2 < CHUNK_SIZE,
        0 <= y2 < CHUNK_SIZE,
        c.voxels.len() == CHUNK_SIZE * CHUNK_SIZE,
    ensures
        c.with_voxel(x, y, vtype).voxel_at(x, y) == vtype,
        (x2, y2) != (x, y) ==> c.with_voxel(x, y, vtype).voxel_at(x2, y2) == c.voxel_at(x2, y2),
        c.with_voxel(x, y, vtype).voxels.len() == c.voxels.len(),
{
}

impl View for Chunk {
    type V = ChunkModel;

    closed spec fn view(&self) -> ChunkModel {
        ChunkModel {
            voxels: self.voxels@,
            dirty: self.dirty,
            modified: self.modified,
            surface_normals: self.surface_normals@,
            foliage: self.foliage@,
        }
    }
}

impl Chunk {
    /// A chunk always holds a full grid of voxels.
    #[verifier::type_invariant]
    spec fn full_grid(self) -> bool {
        self.voxels@.len() == CHUNK_SIZE * CHUNK_SIZE
    }

    /// A freshly generated chunk holding `voxels` (a full grid, row by row):
    /// it needs meshing, has not been modified, and has neither surface
    /// normals nor foliage yet.
    pub fn from_voxels(voxels: Vec<VoxelType>) -> (r: Chunk)
        requires
            voxels@.len() == CHUNK_SIZE * CHUNK_SIZE,
        ensures
            r@.voxels == voxels@,
            r@.dirty,
            !r@.modified,
            r@.surface_normals.len() == 0,
            r@.foliage.len() == 0,
    {
        Chunk {
            voxels,
            dirty: true,
            modified: false,
            surface_normals: Vec::new(),
            foliage: Vec::new(),
        }
    }

    /// Writes `vtype` at `(x, y)` when the index lies inside the grid, and marks
    /// the chunk dirty and modified when that changes the stored value.
    pub fn set_voxel(&mut self, x: usize, y: usize, vtype: VoxelType)
        requires
            voxel_index(x as int, y as int) <= usize::MAX,
        ensures
            final(self)@ == old(self)@.with_voxel(x as int, y as int, vtype),
            old(self)@.voxels.len() == CHUNK_SIZE * CHUNK_SIZE,
            x < CHUNK_SIZE && y < CHUNK_SIZE ==> final(self)@.voxel_at(x as int, y as int) == vtype,
    {
        proof {
            use_type_invariant(&*self);
        }
        let idx = y * CHUNK_SIZE + x;

        if idx < self.voxels.len() {
            let old_voxel = self.voxels[idx];
            let mut voxels = self.voxels.clone();
            proof {
                assert(voxels@ =~= self.voxels@);
            }
            voxels.set(idx, vtype);
            self.voxels = voxels;

            let is_changed = old_voxel != vtype;
            if is_changed {
                self.dirty = true;
                self.modified = true;
            }
        }
        proof {
            assert(self@ =~= old(self)@.with_voxel(x as int, y as int, vtype));
        }
    }

    /// The voxel at `(x, y)`, or air when the index lies outside the grid.
    pub fn get_voxel(&self, x: usize, y: usize) -> (r: VoxelType)
        requires
            voxel_index(x as int, y as int) <= usize::MAX,
        ensures
            r == self@.voxel_at(x as int, y as int),
            self@.voxels.len() == CHUNK_SIZE * CHUNK_SIZE,
    {
        proof {
            use_type_invariant(self);
        }
        let idx = y * CHUNK_SIZE + x;

        if idx < self.voxels.len() {
            self.voxels[idx]
        } else {
            VoxelType::Air
        }
    }

    pub fn surface_normals(&self) -> (r: &[(Vec2, Vec2)])
        ensures
            r@ == self@.surface_normals,
    {
        self.surface_normals.as_slice()
    }

    pub fn foliage(&self) -> (r: &[Entity])
        ensures
            r@ == self@.foliage,
    {
        self.foliage.as_slice()
    }

    pub fn clear_foliage(&mut self)
        ensures
            final(self)@ == (ChunkModel { foliage: Seq::empty(), ..old(self)@ }),
    {
        proof {
            use_type_invariant(&*self);
        }
        self.foliage = Vec::new();
        proof {
            assert(self@.foliage =~= Seq::<Entity>::empty());
        }
    }

    /// Records one foliage entity that grows on this chunk.
    pub fn add_foliage(&mut self, entity: Entity)
        ensures
            final(self)@ == (ChunkModel { foliage: old(self)@.foliage.push(entity), ..old(self)@ }),
    {
        proof {
            use_type_invariant(&*self);
        }
        let mut foliage: Vec<Entity> = Vec::new();
        std::mem::swap(&mut foliage, &mut self.foliage);
        foliage.push(entity);
        self.foliage = foliage;
    }

    /// Returns whether this chunk needs to be re-meshed
    pub fn is_dirty(&self) -> (r: bool)
        ensures
            r == self@.dirty,
    {
        self.dirty
    }

    pub fn mark_clean(&mut self)
        ensures
            final(self)@ == old(self)@.with_dirty(false),
    {
        proof {
            use_type_invariant(&*self);
        }
        self.dirty = false;
    }

    pub fn mark_dirty(&mut self)
        ensures
            final(self)@ == old(self)@.with_dirty(true),
    {
        proof {
            use_type_invariant(&*self);
        }
        self.dirty = true;
    }

    /// Replaces the surface normals of this chunk with `normals`, given as
    /// pairs of (absolute position of the normal, normal vector).
    pub fn populate_surface_normals(&mut self, normals: Vec<(Vec2, Vec2)>)
        ensures
            final(self)@ == (ChunkModel { surface_normals: normals@, ..old(self)@ }),
    {
        proof {
            use_type_invariant(&*self);
        }
        self.surface_normals = normals;
    }
}

} // verus!
