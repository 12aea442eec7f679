//! Walks over the voxels of a chunk and over the chunks of a square.

use vstd::prelude::*;

use crate::coords::{BlockIndex, ChunkCoords};

verus! {

/// Walks over the indices of the voxels of a chunk, from 0 upwards.
#[derive(Debug, Clone, Copy, PartialEq, Eq, Structural)]
pub struct BlockIndexIter {
    index: u16,
    fused: bool,
}

impl BlockIndex {
    /// Returns a walk over every voxel of a chunk: the 65536 indices in
    /// ascending order.
    pub fn all() -> (r: BlockIndexIter)
        ensures
            r.remaining().len() == 0x1_0000,
            forall|i: int|
                0 <= i < 0x1_0000 ==> #[trigger] r.remaining()[i] == (BlockIndex {
                    index: i as u16,
                }),
    {
        BlockIndexIter { index: 0, fused: false }
    }
}

impl BlockIndexIter {
    /// The indices that the walk has yet to visit, in order.
    pub closed spec fn remaining(self) -> Seq<BlockIndex> {
        if self.fused {
            Seq::empty()
        } else {
            Seq::new(
                (0x1_0000 - self.index) as nat,
                |i: int| BlockIndex { index: (self.index + i) as u16 },
            )
        }
    }

    /// Returns the next index of the walk, or `None` at its end.
    pub fn next(&mut self) -> (r: Option<BlockIndex>)
        ensures
            match r {
                Some(bi) => old(self).remaining().len() > 0 && bi == old(self).remaining()[0]
                    && final(self).remaining() == old(self).remaining().drop_first(),
                None => old(self).remaining().len() == 0 && *final(self) == *old(self),
            },
    {
        if self.fused {
            None
        } else {
            let result = self.index;
            if result < u16::MAX {
                self.index = result + 1;
            } else {
                self.fused = true;
            }
            assert(self.remaining() =~= old(self).remaining().drop_first());
            Some(BlockIndex { index: result })
        }
    }
}

/// The side of the square of chunks within `range` chunks of a center.
pub open spec fn square_side(range: int) -> int {
    2 * range + 1
}

/// The chunks of the square within `range` chunks of `center` along both
/// axes, row by row: `z` ascending, and `x` ascending within a row.
pub open spec fn square(center: ChunkCoords, range: int) -> Seq<ChunkCoords> {
    Seq::new(
        (square_side(range) * square_side(range)) as nat,
        |i: int|
            ChunkCoords {
                x: (center.x - range + i % square_side(range)) as i32,
                z: (center.z - range + i / square_side(range)) as i32,
            },
    )
}

/// Walks over the chunks of a square, row by row.
pub struct ChunkRangeIter {
    x: i32,
    z: i32,
    x_start: i32,
    x_end: i32,
    z_end: i32,
}

impl ChunkRangeIter {
    /// The rows are not empty, and the walk stands inside a row or at the
    /// end of the last one.
    #[verifier::type_invariant]
    spec fn wf(self) -> bool {
        &&& self.x_start < self.x_end
        &&& self.z <= self.z_end
        &&& self.x_start <= self.x < self.x_end
    }

    /// The number of chunks in a row.
    closed spec fn width(self) -> int {
        self.x_end - self.x_start
    }

    /// The chunks that the walk has yet to visit, in order.
    pub closed spec fn remaining(self) -> Seq<ChunkCoords> {
        if self.z >= self.z_end {
            Seq::empty()
        } else {
            Seq::new(
                ((self.z_end - self.z) * self.width() - (self.x - self.x_start)) as nat,
                |i: int|
                    ChunkCoords {
                        x: (self.x_start + (self.x - self.x_start + i) % self.width()) as i32,
                        z: (self.z + (self.x - self.x_start + i) / self.width()) as i32,
                    },
            )
        }
    }

    /// Returns the next chunk of the walk, or `None` at its end.
    pub fn next(&mut self) -> (r: Option<ChunkCoords>)
        ensures
            match r {
                Some(cc) => old(self).remaining().len() > 0 && cc == old(self).remaining()[0]
                    && final(self).remaining() == old(self).remaining().drop_first(),
                None => old(self).remaining().len() == 0 && final(self).remaining()
                    == old(self).remaining(),
            },
    {
        proof {
            use_type_invariant(&*self);
        }
        let ghost width = self.width();
        let ghost offset = self.x - self.x_start;
        let ghost rows = self.z_end - self.z;
        if self.z == self.z_end {
            None
        } else {
            let item = ChunkCoords { x: self.x, z: self.z };
            proof {
                assert((self.z_end - self.z) * width >= width) by (nonlinear_arith)
                    requires
                        self.z_end - self.z >= 1,
                        width > 0,
                ;
                vstd::arithmetic::div_mod::lemma_small_mod(offset as nat, width as nat);
                vstd::arithmetic::div_mod::lemma_basic_div(offset, width);
            }
            if self.x + 1 == self.x_end {
                *self = ChunkRangeIter {
                    x: self.x_start,
                    z: self.z + 1,
                    x_start: self.x_start,
                    x_end: self.x_end,
                    z_end: self.z_end,
                };
                proof {
                    assert(rows * width - (width - 1) - 1 == (rows - 1) * width)
                        by (nonlinear_arith);
                    assert(rows == 1 ==> (rows - 1) * width == 0) by (nonlinear_arith);
                    assert(self.remaining().len() == (rows - 1) * width);
                    assert forall|i: int| 0 <= i < self.remaining().len() implies #[trigger]
                        self.remaining()[i] == old(self).remaining().drop_first()[i] by {
                        vstd::arithmetic::div_mod::lemma_mod_add_multiples_vanish(i, width);
                        vstd::arithmetic::div_mod::lemma_div_plus_one(i, width);
                        assert(offset + i + 1 == width + i);
                    }
                }
            } else {
                *self = ChunkRangeIter {
                    x: self.x + 1,
                    z: self.z,
                    x_start: self.x_start,
                    x_end: self.x_end,
                    z_end: self.z_end,
                };
                proof {
                    assert forall|i: int| 0 <= i < self.remaining().len() implies #[trigger]
                        self.remaining()[i] == old(self).remaining().drop_first()[i] by {
                        assert(offset + 1 + i == offset + (i + 1));
                    }
                }
            }
            assert(self.remaining() =~= old(self).remaining().drop_first());
            Some(item)
        }
    }
}

impl ChunkCoords {
    /// Returns a walk over the chunks of the square within `range` chunks
    /// of this one along both axes, row by row.
    pub fn iter_range(self, range: u8) -> (r: ChunkRangeIter)
        requires
            i32::MIN <= self.x - range,
            self.x + range < i32::MAX,
            i32::MIN <= self.z - range,
            self.z + range < i32::MAX,
        ensures
            r.remaining() == square(self, range as int),
    {
        let x_start = self.x - range as i32;
        let z_start = self.z - range as i32;
        let x_end = self.x + range as i32 + 1;
        let z_end = self.z + range as i32 + 1;
        let r = ChunkRangeIter { x: x_start, z: z_start, x_start, x_end, z_end };
        proof {
            let side = square_side(range as int);
            assert(r.width() == side);
            assert((z_end - z_start) * side - (x_start - x_start) == side * side);
            assert forall|i: int| 0 <= i < side * side implies #[trigger] r.remaining()[i]
                == square(self, range as int)[i] by {}
            assert(r.remaining() =~= square(self, range as int));
        }
        r
    }
}

/// A chunk is in the square around a center exactly if it is within the
/// range of the center along both axes.
pub proof fn lemma_square_contains(center: ChunkCoords, range: int, cc: ChunkCoords)
    requires
        0 <= range,
        i32::MIN <= center.x - range,
        center.x + range <= i32::MAX,
        i32::MIN <= center.z - range,
        center.z + range <= i32::MAX,
    ensures
        square(center, range).len() == square_side(range) * square_side(range),
        square(center, range).contains(cc) <==> (center.x - range <= cc.x <= center.x + range
            && center.z - range <= cc.z <= center.z + range),
{
    let side = square_side(range);
    let all = square(center, range);
    assert(side * side >= 0) by (nonlinear_arith)
        requires
            side >= 0,
    ;
    if center.x - range <= cc.x <= center.x + range && center.z - range <= cc.z <= center.z
        + range {
        let column = cc.x - (center.x - range);
        let row = cc.z - (center.z - range);
        let i = row * side + column;
        assert(0 <= i < side * side) by (nonlinear_arith)
            requires
                0 <= column < side,
                0 <= row < side,
                i == row * side + column,
        ;
        vstd::arithmetic::div_mod::lemma_fundamental_div_mod_converse(i, side, row, column);
        assert(all[i] == cc);
    }
    if all.contains(cc) {
        let i = choose|i: int| 0 <= i < all.len() && all[i] == cc;
        vstd::arithmetic::div_mod::lemma_mod_bound(i, side);
        vstd::arithmetic::div_mod::lemma_fundamental_div_mod(i, side);
        assert(0 <= i / side < side) by (nonlinear_arith)
            requires
                0 <= i < side * side,
                side > 0,
                i == side * (i / side) + i % side,
                0 <= i % side < side,
        ;
    }
}

} // verus!
