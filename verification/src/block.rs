//! Terrain materials and the texture each of their faces is drawn with.

use vstd::prelude::*;

use crate::direction::Direction;

verus! {

/// A terrain material. Every material is solid: a cell is either empty or
/// holds one of these.
#[derive(Debug, Clone, Copy, PartialEq, Eq, Structural, Hash)]
pub enum Block {
    Stone,
    Dirt,
    Grass,
    Sand,
    Water,
    Glass,
    Brick,
    Trunk,
    Leaves,
}

/// A layer of the texture atlas.
#[derive(Debug, Clone, Copy, PartialEq, Eq, Structural, Hash)]
pub enum Sprite {
    Stone,
    Dirt,
    GrassTop,
    GrassSide,
    Sand,
    Brick,
    Glass,
    Water,
    TrunkTop,
    TrunkSide,
}

impl Sprite {
    /// The number of the atlas layer that holds this sprite.
    pub open spec fn layer(self) -> int {
        match self {
            Sprite::Stone => 0,
            Sprite::Dirt => 1,
            Sprite::GrassTop => 2,
            Sprite::GrassSide => 3,
            Sprite::Sand => 4,
            Sprite::Brick => 5,
            Sprite::Glass => 6,
            Sprite::Water => 7,
            Sprite::TrunkTop => 8,
            Sprite::TrunkSide => 9,
        }
    }

    /// Returns the number of the atlas layer that holds this sprite.
    pub fn index(self) -> (r: u32)
        ensures
            r == self.layer(),
    {
        match self {
            Self::Stone => 0,
            Self::Dirt => 1,
            Self::GrassTop => 2,
            Self::GrassSide => 3,
            Self::Sand => 4,
            Self::Brick => 5,
            Self::Glass => 6,
            Self::Water => 7,
            Self::TrunkTop => 8,
            Self::TrunkSide => 9,
        }
    }
}

impl Block {
    /// True for the materials that have textures.
    pub open spec fn has_sprite(self) -> bool {
        self != Block::Leaves
    }

    /// The sprite shown on the side `direction` of a block of this material.
    /// Grass and trunks look different from above and below than from the
    /// sides; every other material looks the same all around.
    pub open spec fn sprite_of(self, direction: Direction) -> Sprite {
        match self {
            Block::Grass => match direction {
                Direction::Up => Sprite::GrassTop,
                Direction::Down => Sprite::Dirt,
                _ => Sprite::GrassSide,
            },
            Block::Trunk => if direction.is_cardinal() {
                Sprite::TrunkSide
            } else {
                Sprite::TrunkTop
            },
            Block::Stone => Sprite::Stone,
            Block::Sand => Sprite::Sand,
            Block::Dirt => Sprite::Dirt,
            Block::Brick => Sprite::Brick,
            Block::Glass => Sprite::Glass,
            _ => Sprite::Water,
        }
    }

    /// Returns the sprite shown on the side `direction` of a block of this
    /// material. Leaves have no texture.
    pub fn sprite(self, direction: Direction) -> (r: Sprite)
        requires
            self.has_sprite(),
        ensures
            r == self.sprite_of(direction),
    {
        match (self, direction) {
            (Self::Grass, Direction::Up) => Sprite::GrassTop,
            (Self::Grass, Direction::Down) => Sprite::Dirt,
            (Self::Grass, _) => Sprite::GrassSide,
            (Self::Stone, _) => Sprite::Stone,
            (Self::Sand, _) => Sprite::Sand,
            (Self::Dirt, _) => Sprite::Dirt,
            (Self::Brick, _) => Sprite::Brick,
            (Self::Glass, _) => Sprite::Glass,
            (Self::Trunk, Direction::Up) => Sprite::TrunkTop,
            (Self::Trunk, Direction::Down) => Sprite::TrunkTop,
            (Self::Trunk, _) => Sprite::TrunkSide,
            _ => Sprite::Water,
        }
    }
}

} // verus!
