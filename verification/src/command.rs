//! The messages that the parts of the program send each other.

use vstd::prelude::*;

use crate::block::Block;
use crate::coords::{BlockCoords, ChunkCoords};

verus! {

/// A command for the world or the player.
#[derive(Debug, Clone, Copy, PartialEq, Eq, Structural)]
pub enum Cmd {
    /// Remove the block at a voxel.
    RemoveBlock(BlockCoords),
    /// Place a block at a voxel.
    PlaceBlock(BlockCoords, Block),
    /// Switch flying on or off.
    Fly(bool),
    /// Choose the material that the player places.
    BlockPlacing(Block),
}

/// A command for the part of the program that draws the world.
#[derive(Debug, Clone, Copy, PartialEq, Eq, Structural)]
pub enum AristideCmd {
    /// Draw the chunk from its recorded faces (`true`), or stop drawing it
    /// (`false`).
    RenderChunk(ChunkCoords, bool),
}

} // verus!
