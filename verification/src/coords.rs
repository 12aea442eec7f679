//! Addressing of voxels.
//!
//! A voxel is named either by its global position `(x, y, z)`, with `y`
//! between 0 and 255, or by the chunk that holds it together with its
//! index inside that chunk. A chunk is a column of 16 x 256 x 16 voxels.

use vstd::prelude::*;
use vstd::std_specs::convert::FromSpec;
use vstd::std_specs::convert::FromSpecImpl;
use vstd::std_specs::convert::TryFromSpec;
use vstd::std_specs::convert::TryFromSpecImpl;

use crate::direction::Direction;

verus! {

/// The position handed over does not lie inside a chunk.
#[derive(Debug, Clone, Copy, PartialEq, Eq, Structural)]
pub struct OutOfChunk;

/// The position handed over lies below or above the world.
#[derive(Debug, Clone, Copy, PartialEq, Eq, Structural)]
pub struct OutOfWorld;

/// Position of a voxel inside its chunk, packed into 16 bits: the lowest
/// four bits hold `x`, the next four `z` and the high byte `y`.
#[derive(Debug, Clone, Copy, PartialEq, Eq, Structural, Hash)]
pub struct BlockIndex {
    pub index: u16,
}

/// Position of a chunk on the horizontal grid of chunks.
#[derive(Debug, Clone, Copy, PartialEq, Eq, Structural, Hash)]
pub struct ChunkCoords {
    pub x: i32,
    pub z: i32,
}

/// A voxel of the world: the chunk that holds it and its index there.
#[derive(Debug, Clone, Copy, PartialEq, Eq, Structural)]
pub struct BlockCoords(pub ChunkCoords, pub BlockIndex);

impl BlockIndex {
    /// The `x` coordinate inside the chunk, from 0 to 15.
    pub open spec fn local_x(self) -> int {
        self.index as int % 16
    }

    /// The `y` coordinate, from 0 to 255.
    pub open spec fn local_y(self) -> int {
        self.index as int / 256
    }

    /// The `z` coordinate inside the chunk, from 0 to 15.
    pub open spec fn local_z(self) -> int {
        (self.index as int / 16) % 16
    }

    /// True if `(x, y, z)` names a voxel of a chunk.
    pub open spec fn in_chunk(x: int, y: int, z: int) -> bool {
        0 <= x < 16 && 0 <= y < 256 && 0 <= z < 16
    }

    /// The index of the voxel at `(x, y, z)` of a chunk.
    pub open spec fn pack(x: int, y: int, z: int) -> BlockIndex
        recommends
            Self::in_chunk(x, y, z),
    {
        BlockIndex { index: (x + 16 * z + 256 * y) as u16 }
    }

    /// The three local coordinates are in range, and packing them gives the
    /// index back: indices and local positions correspond one to one.
    pub proof fn lemma_unpack_pack(self)
        ensures
            Self::in_chunk(self.local_x(), self.local_y(), self.local_z()),
            Self::pack(self.local_x(), self.local_y(), self.local_z()) == self,
    {
    }

    /// Unpacking a packed position gives the position back.
    pub proof fn lemma_pack_unpack(x: int, y: int, z: int)
        requires
            Self::in_chunk(x, y, z),
        ensures
            Self::pack(x, y, z).local_x() == x,
            Self::pack(x, y, z).local_y() == y,
            Self::pack(x, y, z).local_z() == z,
            Self::pack(x, y, z).index == x + 16 * z + 256 * y,
    {
    }

    /// The arithmetic form of the packing is the layout in bits
    /// `x | z << 4 | y << 8`.
    pub proof fn lemma_pack_is_bitwise(x: u16, y: u16, z: u16)
        requires
            x < 16,
            y < 256,
            z < 16,
        ensures
            x | (z << 4) | (y << 8) == x + 16 * z + 256 * y,
    {
        assert(x | (z << 4) | (y << 8) == x + 16 * z + 256 * y) by (bit_vector)
            requires
                x < 16,
                y < 256,
                z < 16,
        ;
    }

    /// Returns the local position `(x, y, z)` of the voxel.
    pub fn local(self) -> (r: (u8, u8, u8))
        ensures
            r.0 == self.local_x(),
            r.1 == self.local_y(),
            r.2 == self.local_z(),
    {
        ((self.index % 16) as u8, (self.index / 256) as u8, ((self.index / 16) % 16) as u8)
    }

    /// Returns the index of the voxel at `(x, y, z)` of a chunk.
    pub fn new(x: u8, y: u8, z: u8) -> (r: BlockIndex)
        requires
            x < 16,
            z < 16,
        ensures
            r == Self::pack(x as int, y as int, z as int),
    {
        BlockIndex { index: x as u16 + 16 * (z as u16) + 256 * (y as u16) }
    }
}

impl From<BlockIndex> for [i32; 3] {
    /// The local position of the voxel, as `[x, y, z]`.
    fn from(block_index: BlockIndex) -> (r: Self) {
        let (x, y, z) = block_index.local();
        [x as i32, y as i32, z as i32]
    }
}

impl FromSpecImpl<BlockIndex> for [i32; 3] {
    open spec fn obeys_from_spec() -> bool {
        true
    }

    open spec fn from_spec(block_index: BlockIndex) -> [i32; 3] {
        [
            block_index.local_x() as i32,
            block_index.local_y() as i32,
            block_index.local_z() as i32,
        ]
    }
}

impl TryFrom<[i32; 3]> for BlockIndex {
    type Error = OutOfChunk;

    /// The index of the voxel at local position `[x, y, z]`, if that lies
    /// inside a chunk.
    fn try_from(position: [i32; 3]) -> (r: Result<Self, OutOfChunk>) {
        let x = position[0];
        let y = position[1];
        let z = position[2];
        if 0 <= x && x <= 15 && 0 <= y && y <= 255 && 0 <= z && z <= 15 {
            Ok(BlockIndex { index: (x + 16 * z + 256 * y) as u16 })
        } else {
            Err(OutOfChunk)
        }
    }
}

impl TryFromSpecImpl<[i32; 3]> for BlockIndex {
    open spec fn obeys_try_from_spec() -> bool {
        true
    }

    open spec fn try_from_spec(position: [i32; 3]) -> Result<Self, OutOfChunk> {
        if BlockIndex::in_chunk(position[0] as int, position[1] as int, position[2] as int) {
            Ok(BlockIndex::pack(position[0] as int, position[1] as int, position[2] as int))
        } else {
            Err(OutOfChunk)
        }
    }
}

impl ChunkCoords {
    /// The chunk one step away in a horizontal direction. At the edge of
    /// the integer range the grid wraps around.
    pub open spec fn neighbor_of(self, direction: Direction) -> ChunkCoords {
        match direction {
            Direction::East => ChunkCoords { x: self.x.wrapping_add(1), z: self.z },
            Direction::West => ChunkCoords { x: self.x.wrapping_sub(1), z: self.z },
            Direction::South => ChunkCoords { x: self.x, z: self.z.wrapping_add(1) },
            Direction::North => ChunkCoords { x: self.x, z: self.z.wrapping_sub(1) },
            _ => self,
        }
    }

    /// True if `other` is one of the four chunks that share a side with
    /// this one.
    pub open spec fn is_neighbor(self, other: ChunkCoords) -> bool {
        exists|d: Direction| d.is_cardinal() && self.neighbor_of(d) == other
    }

    /// True if `other` is no further than `range` from this chunk, in
    /// straight line and in units of chunks.
    pub open spec fn within(self, other: ChunkCoords, range: int) -> bool {
        (self.x - other.x) * (self.x - other.x) + (self.z - other.z) * (self.z - other.z) <= range
            * range
    }

    /// Stepping to a neighbor and back in the opposite direction returns
    /// to the start, and the neighbor is another chunk.
    pub proof fn lemma_neighbor_back(self, direction: Direction)
        requires
            direction.is_cardinal(),
        ensures
            self.neighbor_of(direction).neighbor_of(direction.opposite()) == self,
            self.neighbor_of(direction) != self,
    {
    }

    /// Being neighbors is mutual.
    pub proof fn lemma_is_neighbor_symmetric(self, other: ChunkCoords)
        requires
            self.is_neighbor(other),
        ensures
            other.is_neighbor(self),
    {
        let d = choose|d: Direction| d.is_cardinal() && self.neighbor_of(d) == other;
        self.lemma_neighbor_back(d);
        assert(d.opposite().is_cardinal() && other.neighbor_of(d.opposite()) == self);
    }

    /// True if `other` is nearer than `range` to this chunk, in straight
    /// line and in units of chunks.
    pub open spec fn nearer(self, other: ChunkCoords, range: int) -> bool {
        (self.x - other.x) * (self.x - other.x) + (self.z - other.z) * (self.z - other.z) < range
            * range
    }

    /// Returns the chunk that holds the voxels at the global horizontal
    /// position `(x, z)`.
    pub fn containing(x: i32, z: i32) -> (r: Self)
        ensures
            r == (ChunkCoords { x: (x as int / 16) as i32, z: (z as int / 16) as i32 }),
            r == BlockCoords::at(x as int, 0, z as int).0,
    {
        assert(x >> 4 == x / 16) by (bit_vector);
        assert(z >> 4 == z / 16) by (bit_vector);
        ChunkCoords { x: x >> 4, z: z >> 4 }
    }

    /// Tells whether `other` is nearer than `range` to this chunk, in
    /// straight line and in units of chunks.
    pub fn nearer_than(self, other: Self, range: i32) -> (r: bool)
        ensures
            r == self.nearer(other, range as int),
    {
        let dx: i128 = self.x as i128 - other.x as i128;
        let dz: i128 = self.z as i128 - other.z as i128;
        let reach: i128 = range as i128;
        assert(0 <= dx * dx <= 0x1_0000_0000_0000_0000) by (nonlinear_arith)
            requires
                -0x1_0000_0000 <= dx <= 0x1_0000_0000,
        ;
        assert(0 <= dz * dz <= 0x1_0000_0000_0000_0000) by (nonlinear_arith)
            requires
                -0x1_0000_0000 <= dz <= 0x1_0000_0000,
        ;
        assert(0 <= reach * reach <= 0x1_0000_0000_0000_0000) by (nonlinear_arith)
            requires
                -0x1_0000_0000 <= reach <= 0x1_0000_0000,
        ;
        dx * dx + dz * dz < reach * reach
    }

    /// Returns the chunk one step away in a horizontal direction.
    pub fn neighbor(self, direction: Direction) -> (r: Self)
        requires
            direction.is_cardinal(),
        ensures
            r == self.neighbor_of(direction),
    {
        match direction {
            Direction::East => ChunkCoords { x: self.x.wrapping_add(1), z: self.z },
            Direction::West => ChunkCoords { x: self.x.wrapping_sub(1), z: self.z },
            Direction::South => ChunkCoords { x: self.x, z: self.z.wrapping_add(1) },
            Direction::North => ChunkCoords { x: self.x, z: self.z.wrapping_sub(1) },
            _ => self,
        }
    }

    /// Returns the four chunks that share a side with this one: to the
    /// north, south, east and west, in that order.
    pub fn neighbors(self) -> (r: [ChunkCoords; 4])
        ensures
            forall|i: int| 0 <= i < 4 ==> #[trigger] r[i] == self.neighbor_of(Direction::CARDINAL[i]),
            forall|c: ChunkCoords| self.is_neighbor(c) <==> exists|i: int| 0 <= i < 4 && r[i] == c,
    {
        let r = [
            self.neighbor(Direction::North),
            self.neighbor(Direction::South),
            self.neighbor(Direction::East),
            self.neighbor(Direction::West),
        ];
        proof {
            assert forall|c: ChunkCoords| self.is_neighbor(c) implies exists|i: int|
                0 <= i < 4 && r[i] == c by {
                let d = choose|d: Direction| d.is_cardinal() && self.neighbor_of(d) == c;
                d.lemma_ordinal_nth();
                assert(r[d.ordinal()] == c);
            }
            assert forall|c: ChunkCoords| (exists|i: int| 0 <= i < 4 && r[i] == c)
                implies self.is_neighbor(c) by {
                let i = choose|i: int| 0 <= i < 4 && r[i] == c;
                assert(Direction::CARDINAL[i].is_cardinal());
                assert(self.neighbor_of(Direction::CARDINAL[i]) == c);
            }
        }
        r
    }

    /// Tells whether `other` is no further than `range` from this chunk,
    /// in straight line and in units of chunks.
    pub fn in_range(self, other: Self, range: i32) -> (r: bool)
        ensures
            r == self.within(other, range as int),
    {
        let dx: i128 = self.x as i128 - other.x as i128;
        let dz: i128 = self.z as i128 - other.z as i128;
        let reach: i128 = range as i128;
        assert(0 <= dx * dx <= 0x1_0000_0000_0000_0000) by (nonlinear_arith)
            requires
                -0x1_0000_0000 <= dx <= 0x1_0000_0000,
        ;
        assert(0 <= dz * dz <= 0x1_0000_0000_0000_0000) by (nonlinear_arith)
            requires
                -0x1_0000_0000 <= dz <= 0x1_0000_0000,
        ;
        assert(0 <= reach * reach <= 0x1_0000_0000_0000_0000) by (nonlinear_arith)
            requires
                -0x1_0000_0000 <= reach <= 0x1_0000_0000,
        ;
        dx * dx + dz * dz <= reach * reach
    }
}

impl From<[i32; 2]> for ChunkCoords {
    /// The chunk at `[x, z]`.
    fn from(position: [i32; 2]) -> (r: Self) {
        ChunkCoords { x: position[0], z: position[1] }
    }
}

impl FromSpecImpl<[i32; 2]> for ChunkCoords {
    open spec fn obeys_from_spec() -> bool {
        true
    }

    open spec fn from_spec(position: [i32; 2]) -> ChunkCoords {
        ChunkCoords { x: position[0], z: position[1] }
    }
}

impl From<ChunkCoords> for [i32; 2] {
    /// The position `[x, z]` of the chunk.
    fn from(chunk: ChunkCoords) -> (r: Self) {
        [chunk.x, chunk.z]
    }
}

impl FromSpecImpl<ChunkCoords> for [i32; 2] {
    open spec fn obeys_from_spec() -> bool {
        true
    }

    open spec fn from_spec(chunk: ChunkCoords) -> [i32; 2] {
        [chunk.x, chunk.z]
    }
}

impl BlockCoords {
    /// The global position `(x, y, z)` of the voxel, as integers without
    /// bound.
    pub open spec fn global(self) -> (int, int, int) {
        (
            self.0.x * 16 + self.1.local_x(),
            self.1.local_y(),
            self.0.z * 16 + self.1.local_z(),
        )
    }

    /// True if the chunk lies within the part of the grid whose voxels have
    /// global coordinates that fit in 32 bits.
    pub open spec fn in_bounds(self) -> bool {
        -0x800_0000 <= self.0.x < 0x800_0000 && -0x800_0000 <= self.0.z < 0x800_0000
    }

    /// The voxel at global position `(x, y, z)`, for `y` from 0 to 255: the
    /// chunk is found by dividing `x` and `z` by 16, rounding down, and the
    /// remainders are the position inside it.
    pub open spec fn at(x: int, y: int, z: int) -> BlockCoords
        recommends
            0 <= y < 256,
    {
        BlockCoords(
            ChunkCoords { x: (x / 16) as i32, z: (z / 16) as i32 },
            BlockIndex::pack(x % 16, y, z % 16),
        )
    }

    /// The voxel next to this one in the given direction, or `None` if that
    /// would be below the bottom or above the top of the world. Sideways
    /// the neighbor may lie in the next chunk.
    pub open spec fn step_spec(self, direction: Direction) -> Option<BlockCoords> {
        let x = self.1.local_x();
        let y = self.1.local_y();
        let z = self.1.local_z();
        match direction {
            Direction::Up => if y < 255 {
                Some(BlockCoords(self.0, BlockIndex::pack(x, y + 1, z)))
            } else {
                None
            },
            Direction::Down => if y > 0 {
                Some(BlockCoords(self.0, BlockIndex::pack(x, y - 1, z)))
            } else {
                None
            },
            Direction::East => if x < 15 {
                Some(BlockCoords(self.0, BlockIndex::pack(x + 1, y, z)))
            } else {
                Some(BlockCoords(self.0.neighbor_of(direction), BlockIndex::pack(0, y, z)))
            },
            Direction::West => if x > 0 {
                Some(BlockCoords(self.0, BlockIndex::pack(x - 1, y, z)))
            } else {
                Some(BlockCoords(self.0.neighbor_of(direction), BlockIndex::pack(15, y, z)))
            },
            Direction::South => if z < 15 {
                Some(BlockCoords(self.0, BlockIndex::pack(x, y, z + 1)))
            } else {
                Some(BlockCoords(self.0.neighbor_of(direction), BlockIndex::pack(x, y, 0)))
            },
            Direction::North => if z > 0 {
                Some(BlockCoords(self.0, BlockIndex::pack(x, y, z - 1)))
            } else {
                Some(BlockCoords(self.0.neighbor_of(direction), BlockIndex::pack(x, y, 15)))
            },
        }
    }

    /// Returns the voxel next to this one in the given direction, or `None`
    /// if that would leave the world at its bottom or top.
    pub fn step(self, direction: Direction) -> (r: Option<Self>)
        ensures
            r == self.step_spec(direction),
    {
        let (x, y, z) = self.1.local();
        match direction {
            Direction::Up => if y < 255 {
                Some(BlockCoords(self.0, BlockIndex::new(x, y + 1, z)))
            } else {
                None
            },
            Direction::Down => if y > 0 {
                Some(BlockCoords(self.0, BlockIndex::new(x, y - 1, z)))
            } else {
                None
            },
            Direction::East => if x < 15 {
                Some(BlockCoords(self.0, BlockIndex::new(x + 1, y, z)))
            } else {
                Some(BlockCoords(self.0.neighbor(direction), BlockIndex::new(0, y, z)))
            },
            Direction::West => if x > 0 {
                Some(BlockCoords(self.0, BlockIndex::new(x - 1, y, z)))
            } else {
                Some(BlockCoords(self.0.neighbor(direction), BlockIndex::new(15, y, z)))
            },
            Direction::South => if z < 15 {
                Some(BlockCoords(self.0, BlockIndex::new(x, y, z + 1)))
            } else {
                Some(BlockCoords(self.0.neighbor(direction), BlockIndex::new(x, y, 0)))
            },
            Direction::North => if z > 0 {
                Some(BlockCoords(self.0, BlockIndex::new(x, y, z - 1)))
            } else {
                Some(BlockCoords(self.0.neighbor(direction), BlockIndex::new(x, y, 15)))
            },
        }
    }

    /// Naming a voxel by its global position and reading the position back
    /// gives the same three numbers, whatever `x` and `z` are.
    pub proof fn lemma_global_round_trip(x: i32, y: i32, z: i32)
        requires
            0 <= y < 256,
        ensures
            Self::at(x as int, y as int, z as int).in_bounds(),
            Self::at(x as int, y as int, z as int).global() == (x as int, y as int, z as int),
            <[i32; 3] as FromSpec<BlockCoords>>::from_spec(
                Self::at(x as int, y as int, z as int),
            )@ == seq![x, y, z],
            <BlockCoords as TryFromSpec<[i32; 3]>>::try_from_spec([x, y, z]) == Ok::<
                BlockCoords,
                OutOfWorld,
            >(Self::at(x as int, y as int, z as int)),
    {
        let coords = Self::at(x as int, y as int, z as int);
        BlockIndex::lemma_pack_unpack(x as int % 16, y as int, z as int % 16);
        coords.lemma_wrapping_global();
        let back = <[i32; 3] as FromSpec<BlockCoords>>::from_spec(coords);
        assert(back@ =~= seq![x, y, z]);
    }

    /// Reading the global position of a voxel and naming the voxel at that
    /// position gives the voxel back, wherever its coordinates fit in 32
    /// bits.
    pub proof fn lemma_at_global(self)
        requires
            self.in_bounds(),
        ensures
            Self::at(self.global().0, self.global().1, self.global().2) == self,
            i32::MIN <= self.global().0 <= i32::MAX,
            0 <= self.global().1 < 256,
            i32::MIN <= self.global().2 <= i32::MAX,
    {
        self.1.lemma_unpack_pack();
    }

    /// Within the part of the grid that fits in 32 bits, the position that
    /// the conversion to an array computes is the global position.
    pub proof fn lemma_wrapping_global(self)
        requires
            self.in_bounds(),
        ensures
            <[i32; 3] as FromSpec<BlockCoords>>::from_spec(self)[0] == self.global().0,
            <[i32; 3] as FromSpec<BlockCoords>>::from_spec(self)[1] == self.global().1,
            <[i32; 3] as FromSpec<BlockCoords>>::from_spec(self)[2] == self.global().2,
    {
        self.1.lemma_unpack_pack();
    }

    /// The local position reached by a step, written out for each
    /// direction.
    proof fn lemma_step_local(self, direction: Direction)
        ensures
            BlockIndex::in_chunk(self.1.local_x(), self.1.local_y(), self.1.local_z()),
            match self.step_spec(direction) {
                None => self.1.local_y() + direction.offset().1 < 0 || self.1.local_y()
                    + direction.offset().1 > 255,
                Some(next) => {
                    let crossing = self.1.local_x() + direction.offset().0 < 0 || self.1.local_x()
                        + direction.offset().0 > 15 || self.1.local_z() + direction.offset().2 < 0
                        || self.1.local_z() + direction.offset().2 > 15;
                    &&& next.1.local_y() == self.1.local_y() + direction.offset().1
                    &&& next.1.local_x() == self.1.local_x() + direction.offset().0 - (if crossing {
                        16 * direction.offset().0
                    } else {
                        0
                    })
                    &&& next.1.local_z() == self.1.local_z() + direction.offset().2 - (if crossing {
                        16 * direction.offset().2
                    } else {
                        0
                    })
                    &&& crossing ==> direction.is_cardinal() && next.0 == self.0.neighbor_of(
                        direction,
                    )
                    &&& !crossing ==> next.0 == self.0
                },
            },
    {
        let x = self.1.local_x();
        let y = self.1.local_y();
        let z = self.1.local_z();
        self.1.lemma_unpack_pack();
        match direction {
            Direction::Up => if y < 255 {
                BlockIndex::lemma_pack_unpack(x, y + 1, z);
            },
            Direction::Down => if y > 0 {
                BlockIndex::lemma_pack_unpack(x, y - 1, z);
            },
            Direction::East => if x < 15 {
                BlockIndex::lemma_pack_unpack(x + 1, y, z);
            } else {
                BlockIndex::lemma_pack_unpack(0, y, z);
            },
            Direction::West => if x > 0 {
                BlockIndex::lemma_pack_unpack(x - 1, y, z);
            } else {
                BlockIndex::lemma_pack_unpack(15, y, z);
            },
            Direction::South => if z < 15 {
                BlockIndex::lemma_pack_unpack(x, y, z + 1);
            } else {
                BlockIndex::lemma_pack_unpack(x, y, 0);
            },
            Direction::North => if z > 0 {
                BlockIndex::lemma_pack_unpack(x, y, z - 1);
            } else {
                BlockIndex::lemma_pack_unpack(x, y, 15);
            },
        }
    }

    /// A step moves the global position by the unit vector of the
    /// direction, and is refused exactly when that leaves the heights 0 to
    /// 255. (Stated away from the two edges of the integer range.)
    pub proof fn lemma_step_moves_by_offset(self, direction: Direction)
        requires
            i32::MIN < self.0.x < i32::MAX,
            i32::MIN < self.0.z < i32::MAX,
        ensures
            self.step_spec(direction).is_some() <==> 0 <= self.global().1 + direction.offset().1
                < 256,
            self.step_spec(direction).is_some() ==> {
                let next = self.step_spec(direction).unwrap();
                &&& next.global().0 == self.global().0 + direction.offset().0
                &&& next.global().1 == self.global().1 + direction.offset().1
                &&& next.global().2 == self.global().2 + direction.offset().2
            },
    {
        self.lemma_step_local(direction);
    }

    /// The neighbor found by a step either lies in the same chunk or in the
    /// chunk next to it in that direction.
    pub proof fn lemma_step_chunk(self, direction: Direction)
        requires
            self.step_spec(direction).is_some(),
        ensures
            self.step_spec(direction).unwrap().0 == self.0 || (direction.is_cardinal()
                && self.step_spec(direction).unwrap().0 == self.0.neighbor_of(direction)),
            self.step_spec(direction).unwrap() != self,
    {
        self.0.lemma_neighbor_back(Direction::East);
        self.0.lemma_neighbor_back(Direction::West);
        self.0.lemma_neighbor_back(Direction::North);
        self.0.lemma_neighbor_back(Direction::South);
    }

    /// Stepping back from a neighbor in the opposite direction returns to
    /// the start.
    pub proof fn lemma_step_back(self, direction: Direction)
        requires
            self.step_spec(direction).is_some(),
        ensures
            self.step_spec(direction).unwrap().step_spec(direction.opposite()) == Some(self),
    {
        let next = self.step_spec(direction).unwrap();
        self.lemma_step_local(direction);
        next.lemma_step_local(direction.opposite());
        self.1.lemma_unpack_pack();
        if direction.is_cardinal() {
            self.0.lemma_neighbor_back(direction);
        }
        let back = next.step_spec(direction.opposite()).unwrap();
        back.1.lemma_unpack_pack();
        assert(back.1.local_x() == self.1.local_x());
        assert(back.1.local_y() == self.1.local_y());
        assert(back.1.local_z() == self.1.local_z());
        assert(back.1 == self.1);
        assert(back.0 == self.0);
    }

    /// Steps in different directions lead to different voxels.
    pub proof fn lemma_step_injective(self, first: Direction, second: Direction)
        requires
            self.step_spec(first).is_some(),
            self.step_spec(first) == self.step_spec(second),
        ensures
            first == second,
    {
        self.0.lemma_neighbor_back(Direction::East);
        self.0.lemma_neighbor_back(Direction::West);
        self.0.lemma_neighbor_back(Direction::North);
        self.0.lemma_neighbor_back(Direction::South);
    }
}

impl From<BlockCoords> for [i32; 3] {
    /// The global position `[x, y, z]` of the voxel. Where a coordinate
    /// does not fit in 32 bits it wraps around.
    fn from(coords: BlockCoords) -> (r: Self) {
        let (x, y, z) = coords.1.local();
        [
            coords.0.x.wrapping_mul(16).wrapping_add(x as i32),
            y as i32,
            coords.0.z.wrapping_mul(16).wrapping_add(z as i32),
        ]
    }
}

impl FromSpecImpl<BlockCoords> for [i32; 3] {
    open spec fn obeys_from_spec() -> bool {
        true
    }

    open spec fn from_spec(coords: BlockCoords) -> [i32; 3] {
        [
            coords.0.x.wrapping_mul(16i32).wrapping_add(coords.1.local_x() as i32),
            coords.1.local_y() as i32,
            coords.0.z.wrapping_mul(16i32).wrapping_add(coords.1.local_z() as i32),
        ]
    }
}

impl TryFrom<[i32; 3]> for BlockCoords {
    type Error = OutOfWorld;

    /// The voxel at global position `[x, y, z]`, if `y` lies between 0 and
    /// 255.
    fn try_from(position: [i32; 3]) -> (r: Result<Self, OutOfWorld>) {
        let x = position[0];
        let y = position[1];
        let z = position[2];
        if 0 <= y && y <= 255 {
            assert(x >> 4 == x / 16 && 0 <= x & 15 < 16 && x & 15 == x % 16) by (bit_vector);
            assert(z >> 4 == z / 16 && 0 <= z & 15 < 16 && z & 15 == z % 16) by (bit_vector);
            Ok(
                BlockCoords(
                    ChunkCoords { x: x >> 4, z: z >> 4 },
                    BlockIndex { index: ((x & 15) + 16 * (z & 15) + 256 * y) as u16 },
                ),
            )
        } else {
            Err(OutOfWorld)
        }
    }
}

impl TryFromSpecImpl<[i32; 3]> for BlockCoords {
    open spec fn obeys_try_from_spec() -> bool {
        true
    }

    open spec fn try_from_spec(position: [i32; 3]) -> Result<Self, OutOfWorld> {
        if 0 <= position[1] < 256 {
            Ok(BlockCoords::at(position[0] as int, position[1] as int, position[2] as int))
        } else {
            Err(OutOfWorld)
        }
    }
}

} // verus!
