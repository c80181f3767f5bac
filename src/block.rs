use vstd::prelude::*;

verus! {

/// The kinds of solid voxel. Empty space is the absence of a block.
#[derive(Clone, Copy, Debug, PartialEq, Eq, Structural)]
pub enum Block {
    Dirt,
    Grass,
    Stone,
    Sand,
}

/// The small integer that stands for a block kind in the vertex stream.
pub open spec fn tag_of(b: Block) -> u8 {
    match b {
        Block::Dirt => 1,
        Block::Grass => 2,
        Block::Stone => 3,
        Block::Sand => 4,
    }
}

impl Block {
    /// The numeric tag carried by every vertex of this block's faces.
    pub fn tag(&self) -> (r: u8)
        ensures
            r == tag_of(*self),
    {
        match self {
            Block::Dirt => 1,
            Block::Grass => 2,
            Block::Stone => 3,
            Block::Sand => 4,
        }
    }
}

} // verus!
