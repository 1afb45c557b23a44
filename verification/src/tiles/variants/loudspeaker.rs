use crate::tiles::data::GenericTileData;
use vstd::prelude::*;

verus! {

/// The first and last frame of a sprite animation in its texture atlas.
#[derive(Clone, Copy, PartialEq, Eq, Structural, Debug)]
pub struct AnimationIndices {
    pub first: usize,
    pub last: usize,
}

/// The frame shown after frame `index`: the next one, or back to the first
/// after the last.
pub open spec fn next_frame(a: AnimationIndices, index: int) -> int {
    if index == a.last {
        a.first as int
    } else {
        index + 1
    }
}

/// The frame shown `k` ticks after the first.
pub open spec fn frame_after(a: AnimationIndices, k: nat) -> int
    decreases k,
{
    if k == 0 {
        a.first as int
    } else {
        next_frame(a, frame_after(a, (k - 1) as nat))
    }
}

/// The animation loops: from the first frame it steps through every frame up
/// to the last, one per tick, and the tick after the last shows the first
/// frame again.
pub proof fn law_animation_loops(a: AnimationIndices, k: nat)
    requires
        a.first <= a.last,
        k <= a.last - a.first + 1,
    ensures
        k <= a.last - a.first ==> frame_after(a, k) == a.first + k,
        k == a.last - a.first + 1 ==> frame_after(a, k) == a.first,
    decreases k,
{
    if k > 0 {
        law_animation_loops(a, (k - 1) as nat);
    }
}

impl AnimationIndices {
    /// The frame to show when the frame timer fires while `index` is shown.
    pub fn next_index(&self, index: usize) -> (r: usize)
        requires
            index != self.last ==> index < usize::MAX,
        ensures
            r == next_frame(*self, index as int),
    {
        if index == self.last {
            self.first
        } else {
            index + 1
        }
    }
}

/// An animated loudspeaker tile.
pub struct Loudspeaker {
    data: GenericTileData,
}

impl Loudspeaker {
    pub closed spec fn spec_data(&self) -> GenericTileData {
        self.data
    }

    pub fn new(data: GenericTileData) -> (r: Self)
        ensures
            r.spec_data() == data,
    {
        Self { data }
    }

    /// The generic data of this tile.
    pub fn data(&self) -> (r: &GenericTileData)
        ensures
            *r == self.spec_data(),
    {
        &self.data
    }

    /// The frames of the loudspeaker animation: fifteen frames, 0 to 14.
    pub fn animation_indices() -> (r: AnimationIndices)
        ensures
            r == (AnimationIndices { first: 0, last: 14 }),
    {
        AnimationIndices { first: 0, last: 14 }
    }
}

} // verus!
