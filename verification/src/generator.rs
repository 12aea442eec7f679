//! The layering of freshly generated terrain.
//!
//! How high the ground stands at a place is decided by a function that the
//! owner of the world supplies. This module turns those heights into
//! columns of blocks.

use vstd::prelude::*;

use crate::block::Block;
use crate::chunk::BlocksChunk;
use crate::coords::{BlockIndex, ChunkCoords};

verus! {

/// The material at height `y` of a column whose ground stands at
/// `altitude`, for `0 <= y <= altitude`. Low ground is sand over stone,
/// middle ground is grass over dirt over stone, and high ground is stone
/// over brick; how far a layer reaches down grows with the depth below the
/// surface times the altitude.
pub open spec fn layer_at(altitude: int, y: int) -> Block {
    let deep = (altitude - y) * altitude;
    if altitude <= 10 {
        if deep <= 30 {
            Block::Sand
        } else {
            Block::Stone
        }
    } else if altitude <= 35 {
        if deep == 0 {
            Block::Grass
        } else if deep <= 30 {
            Block::Dirt
        } else {
            Block::Stone
        }
    } else {
        if deep <= 40 {
            Block::Stone
        } else {
            Block::Brick
        }
    }
}

/// The number of the column at `(x, z)` of a chunk, from 0 to 255.
pub open spec fn column_of(x: int, z: int) -> int {
    x * 16 + z
}

/// The block that terrain of the given heights has at `bi`. `heights`
/// lists the altitude of each column by its number; a column that the list
/// does not reach holds nothing, and neither does a voxel above the ground.
pub open spec fn terrain_at(heights: Seq<i32>, bi: BlockIndex) -> Option<Block> {
    let column = column_of(bi.local_x(), bi.local_z());
    if column < heights.len() && bi.local_y() <= heights[column] {
        Some(layer_at(heights[column] as int, bi.local_y()))
    } else {
        None
    }
}

/// The blocks of a chunk after terrain of the given heights was laid over
/// what it held before.
pub open spec fn overlaid(before: Map<BlockIndex, Block>, heights: Seq<i32>) -> Map<
    BlockIndex,
    Block,
> {
    Map::new(
        |bi: BlockIndex| terrain_at(heights, bi) is Some || before.contains_key(bi),
        |bi: BlockIndex|
            match terrain_at(heights, bi) {
                Some(block) => block,
                None => before[bi],
            },
    )
}

/// Returns the material at height `y` of a column whose ground stands at
/// `altitude`.
pub fn layer(altitude: i32, y: i32) -> (r: Block)
    requires
        0 <= y <= altitude <= 255,
    ensures
        r == layer_at(altitude as int, y as int),
{
    assert(0 <= (altitude - y) * altitude <= 255 * 255) by (nonlinear_arith)
        requires
            0 <= y <= altitude <= 255,
    ;
    let deep = (altitude - y) * altitude;
    if altitude <= 10 {
        if deep <= 30 {
            Block::Sand
        } else {
            Block::Stone
        }
    } else if altitude <= 35 {
        if deep == 0 {
            Block::Grass
        } else if deep <= 30 {
            Block::Dirt
        } else {
            Block::Stone
        }
    } else {
        if deep <= 40 {
            Block::Stone
        } else {
            Block::Brick
        }
    }
}

/// Lays out the terrain of chunks from the altitude of their columns.
pub struct Generator<A> {
    /// Tells the altitude of the ground at the global position `(x, z)`.
    pub altitude: A,
}

impl<A: Fn(i32, i32) -> i32> Generator<A> {
    /// The altitude function can be asked about every place and never says
    /// that the ground stands above the top of the world.
    pub open spec fn wf(&self) -> bool {
        &&& forall|x: i32, z: i32| call_requires(self.altitude, (x, z))
        &&& forall|x: i32, z: i32, h: i32| call_ensures(self.altitude, (x, z), h) ==> h <= 255
    }

    /// The global `x` of the column at `x` of the chunk.
    pub open spec fn global_x(cc: ChunkCoords, x: int) -> i32 {
        cc.x.wrapping_mul(16i32).wrapping_add(x as i32)
    }

    /// The global `z` of the column at `z` of the chunk.
    pub open spec fn global_z(cc: ChunkCoords, z: int) -> i32 {
        cc.z.wrapping_mul(16i32).wrapping_add(z as i32)
    }

    /// True if `heights` lists, for each of the 256 columns of the chunk,
    /// an altitude that the altitude function gives for that column.
    pub open spec fn surveys(&self, cc: ChunkCoords, heights: Seq<i32>) -> bool {
        &&& heights.len() == 256
        &&& forall|x: int, z: int|
            0 <= x < 16 && 0 <= z < 16 ==> call_ensures(
                self.altitude,
                (Self::global_x(cc, x), Self::global_z(cc, z)),
                #[trigger] heights[column_of(x, z)],
            )
    }

    /// True if `blocks` is terrain that this generator may lay out for the
    /// chunk: each column is filled from the bottom of the world up to an
    /// altitude that the altitude function gives for it, in layers.
    pub open spec fn generates(&self, cc: ChunkCoords, blocks: Map<BlockIndex, Block>) -> bool {
        exists|heights: Seq<i32>| #[trigger]
            self.surveys(cc, heights) && blocks == overlaid(Map::empty(), heights)
    }

    /// Returns a generator that takes the altitude of the ground from
    /// `altitude`.
    pub fn new(altitude: A) -> (r: Self)
        ensures
            r.altitude == altitude,
    {
        Generator { altitude }
    }

    /// Fills the column at `(x, z)` of a chunk from the bottom of the world
    /// up to `altitude`.
    fn fill_column(blocks: &mut BlocksChunk, x: u8, z: u8, altitude: i32)
        requires
            x < 16,
            z < 16,
            altitude <= 255,
        ensures
            forall|bi: BlockIndex|
                #![trigger final(blocks)@.contains_key(bi)]
                #![trigger final(blocks)@[bi]]
                if bi.local_x() == x && bi.local_z() == z && bi.local_y() <= altitude {
                    final(blocks)@.contains_key(bi) && final(blocks)@[bi] == layer_at(
                        altitude as int,
                        bi.local_y(),
                    )
                } else {
                    final(blocks)@.contains_key(bi) == old(blocks)@.contains_key(bi) && (
                    old(blocks)@.contains_key(bi) ==> final(blocks)@[bi] == old(blocks)@[bi])
                },
    {
        let mut y: i32 = 0;
        while y <= altitude
            invariant
                x < 16,
                z < 16,
                0 <= y,
                altitude <= 255,
                y <= altitude + 1 || y == 0,
                forall|bi: BlockIndex|
                    #![trigger blocks@.contains_key(bi)]
                    #![trigger blocks@[bi]]
                    if bi.local_x() == x && bi.local_z() == z && bi.local_y() < y {
                        blocks@.contains_key(bi) && blocks@[bi] == layer_at(
                            altitude as int,
                            bi.local_y(),
                        )
                    } else {
                        blocks@.contains_key(bi) == old(blocks)@.contains_key(bi) && (
                        blocks@.contains_key(bi) ==> blocks@[bi] == old(blocks)@[bi])
                    },
            decreases altitude + 1 - y,
        {
            let bi = BlockIndex::new(x, y as u8, z);
            proof {
                BlockIndex::lemma_pack_unpack(x as int, y as int, z as int);
                assert forall|other: BlockIndex|
                    other.local_x() == x && other.local_z() == z && other.local_y()
                        == y implies other == bi by {
                    other.lemma_unpack_pack();
                }
            }
            blocks.insert(bi, layer(altitude, y));
            y += 1;
        }
    }

    /// Lays the terrain of the chunk `cc` over `blocks`: each column is
    /// filled from the bottom of the world up to the altitude that the
    /// altitude function gives for it. Voxels above the ground keep what
    /// they held.
    pub fn gen_chunk(&self, cc: ChunkCoords, blocks: &mut BlocksChunk)
        requires
            self.wf(),
        ensures
            exists|heights: Seq<i32>| #[trigger]
                self.surveys(cc, heights) && final(blocks)@ == overlaid(old(blocks)@, heights),
    {
        let ghost mut heights: Seq<i32> = Seq::empty();
        let mut x: u8 = 0;
        while x < 16
            invariant
                self.wf(),
                0 <= x <= 16,
                heights.len() == x * 16,
                forall|i: int, j: int|
                    0 <= i < x && 0 <= j < 16 ==> call_ensures(
                        self.altitude,
                        (Self::global_x(cc, i), Self::global_z(cc, j)),
                        #[trigger] heights[column_of(i, j)],
                    ),
                blocks@ == overlaid(old(blocks)@, heights),
            decreases 16 - x,
        {
            let mut z: u8 = 0;
            while z < 16
                invariant
                    self.wf(),
                    0 <= x < 16,
                    0 <= z <= 16,
                    heights.len() == x * 16 + z,
                    forall|i: int, j: int|
                        0 <= i < 16 && 0 <= j < 16 && column_of(i, j) < x * 16 + z
                            ==> call_ensures(
                            self.altitude,
                            (Self::global_x(cc, i), Self::global_z(cc, j)),
                            #[trigger] heights[column_of(i, j)],
                        ),
                    blocks@ == overlaid(old(blocks)@, heights),
                decreases 16 - z,
            {
                let altitude = (self.altitude)(
                    cc.x.wrapping_mul(16).wrapping_add(x as i32),
                    cc.z.wrapping_mul(16).wrapping_add(z as i32),
                );
                let ghost laid = blocks@;
                let ghost known = heights;
                Self::fill_column(blocks, x, z, altitude);
                proof {
                    heights = known.push(altitude);
                    assert forall|bi: BlockIndex|
                        blocks@.contains_key(bi) == overlaid(old(blocks)@, heights).contains_key(
                            bi,
                        ) && (blocks@.contains_key(bi) ==> blocks@[bi] == overlaid(
                            old(blocks)@,
                            heights,
                        )[bi]) by {
                        bi.lemma_unpack_pack();
                        assert(laid.contains_key(bi) == overlaid(old(blocks)@, known).contains_key(
                            bi,
                        ));
                    }
                    assert(blocks@ =~= overlaid(old(blocks)@, heights));
                }
                z += 1;
            }
            x += 1;
        }
        proof {
            assert(self.surveys(cc, heights));
        }
    }
}

} // verus!
