use crate::tiles::data::GenericTileData;
use vstd::prelude::*;

verus! {

/// A plain debug tile that shows its position index.
pub struct DebugTile {
    data: GenericTileData,
}

impl DebugTile {
    pub closed spec fn spec_data(&self) -> GenericTileData {
        self.data
    }

    pub fn new(data: GenericTileData) -> (r: Self)
        ensures
            r.spec_data() == data,
    {
        Self { data }
    }

    /// The generic data of this tile.
    pub fn data(&self) -> (r: &GenericTileData)
        ensures
            *r == self.spec_data(),
    {
        &self.data
    }
}

} // verus!
