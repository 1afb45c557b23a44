use vstd::prelude::*;

verus! {

/// This struct contains some generic tile data so that we don't
/// have to update every single tile when adding "global" data.
pub struct GenericTileData {
    pub position_index: usize,
    /// If this is true, we have to turn off some logic for many
    /// tiles to prevent users from abusing logic whilst just using the preview
    pub is_preview: bool,
}

impl GenericTileData {
    pub fn new(position_index: usize, is_preview: bool) -> (r: Self)
        ensures
            r.position_index == position_index,
            r.is_preview == is_preview,
    {
        Self { position_index, is_preview }
    }
}

impl Default for GenericTileData {
    /// Position zero, not a preview.
    fn default() -> (r: Self)
        ensures
            r.position_index == 0,
            !r.is_preview,
    {
        Self { position_index: 0, is_preview: false }
    }
}

} // verus!
