use vstd::prelude::*;

verus! {

/// The six axis-aligned directions a block face can point in.
#[derive(Debug, Clone, Copy, PartialEq, Eq)]
pub enum Direction {
    PositiveX,
    NegativeX,
    PositiveY,
    NegativeY,
    PositiveZ,
    NegativeZ,
}

/// The kinds of block terrain is made of.
#[derive(Debug, Clone, Copy, PartialEq, Eq)]
pub enum Block {
    Air,
    Grass,
    Dirt,
    Stone,
}

impl Block {
    /// Whether the block is anything but air.
    pub open spec fn is_solid(self) -> bool {
        !(self is Air)
    }

    /// Whether a ray stops at this block: every block but air stops it.
    pub fn raycast_solid(&self) -> (r: bool)
        ensures
            r == self.is_solid(),
    {
        match *self {
            Block::Air => false,
            Block::Grass | Block::Dirt | Block::Stone => true,
        }
    }

    /// Whether the block hides what lies behind it when seen from `direction`.
    /// Every block but air is solid in all directions.
    #[allow(unused_variables)]
    pub fn soild_in_direction(&self, direction: Direction) -> (r: bool)
        ensures
            r == self.is_solid(),
    {
        match *self {
            Block::Air => false,
            Block::Grass | Block::Dirt | Block::Stone => true,
        }
    }
}

} // verus!
