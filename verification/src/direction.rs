//! The six axis-aligned directions of the voxel grid.
//!
//! Coordinates are `(x, y, z)`: east is `+x`, up is `+y`, south is `+z`.

use vstd::prelude::*;
use vstd::std_specs::convert::FromSpecImpl;

verus! {

/// One of the six sides of a voxel.
#[derive(Debug, Clone, Copy, PartialEq, Eq, Structural, Hash)]
pub enum Direction {
    North,
    South,
    East,
    West,
    Up,
    Down,
}

impl Direction {
    /// Every direction, in the order in which faces are examined.
    pub const ALL: [Direction; 6] = [
        Direction::North,
        Direction::South,
        Direction::East,
        Direction::West,
        Direction::Up,
        Direction::Down,
    ];

    /// The four horizontal directions.
    pub const CARDINAL: [Direction; 4] = [
        Direction::North,
        Direction::South,
        Direction::East,
        Direction::West,
    ];

    /// The direction that points the other way along the same axis.
    pub open spec fn opposite(self) -> Direction {
        match self {
            Direction::North => Direction::South,
            Direction::South => Direction::North,
            Direction::East => Direction::West,
            Direction::West => Direction::East,
            Direction::Up => Direction::Down,
            Direction::Down => Direction::Up,
        }
    }

    /// The unit vector `(dx, dy, dz)` of this direction.
    pub open spec fn offset(self) -> (int, int, int) {
        match self {
            Direction::East => (1, 0, 0),
            Direction::West => (-1, 0, 0),
            Direction::Up => (0, 1, 0),
            Direction::Down => (0, -1, 0),
            Direction::South => (0, 0, 1),
            Direction::North => (0, 0, -1),
        }
    }

    /// True for the four directions that stay in the horizontal plane.
    pub open spec fn is_cardinal(self) -> bool {
        self != Direction::Up && self != Direction::Down
    }

    /// Position of this direction in `ALL`.
    pub open spec fn ordinal(self) -> int {
        match self {
            Direction::North => 0,
            Direction::South => 1,
            Direction::East => 2,
            Direction::West => 3,
            Direction::Up => 4,
            Direction::Down => 5,
        }
    }

    /// The direction found at position `i` of `ALL`.
    pub open spec fn nth(i: int) -> Direction {
        if i == 0 {
            Direction::North
        } else if i == 1 {
            Direction::South
        } else if i == 2 {
            Direction::East
        } else if i == 3 {
            Direction::West
        } else if i == 4 {
            Direction::Up
        } else {
            Direction::Down
        }
    }

    /// The corner of the unit cube that is the `i`-th vertex of the face on
    /// this side, as `(x, y, z)` with each component 0 or 1.
    pub open spec fn face_corner(self, i: int) -> (int, int, int) {
        match self {
            Direction::North => if i == 0 { (0, 0, 0) } else if i == 1 { (0, 1, 0) } else if i == 2 { (1, 1, 0) } else { (1, 0, 0) },
            Direction::West => if i == 0 { (0, 0, 1) } else if i == 1 { (0, 1, 1) } else if i == 2 { (0, 1, 0) } else { (0, 0, 0) },
            Direction::South => if i == 0 { (1, 0, 1) } else if i == 1 { (1, 1, 1) } else if i == 2 { (0, 1, 1) } else { (0, 0, 1) },
            Direction::East => if i == 0 { (1, 0, 0) } else if i == 1 { (1, 1, 0) } else if i == 2 { (1, 1, 1) } else { (1, 0, 1) },
            Direction::Up => if i == 0 { (0, 1, 0) } else if i == 1 { (0, 1, 1) } else if i == 2 { (1, 1, 1) } else { (1, 1, 0) },
            Direction::Down => if i == 0 { (0, 0, 1) } else if i == 1 { (0, 0, 0) } else if i == 2 { (1, 0, 0) } else { (1, 0, 1) },
        }
    }

    /// Returns the opposite direction.
    pub fn oposit(self) -> (r: Self)
        ensures
            r == self.opposite(),
    {
        match self {
            Self::North => Self::South,
            Self::South => Self::North,
            Self::East => Self::West,
            Self::West => Self::East,
            Self::Up => Self::Down,
            Self::Down => Self::Up,
        }
    }

    /// Returns the position of this direction in `ALL`.
    pub fn index(self) -> (r: u32)
        ensures
            r == self.ordinal(),
            r < 6,
    {
        match self {
            Self::North => 0,
            Self::South => 1,
            Self::East => 2,
            Self::West => 3,
            Self::Up => 4,
            Self::Down => 5,
        }
    }

    /// Returns the direction at position `i` of `ALL`.
    pub fn from_index(i: u32) -> (r: Self)
        requires
            i < 6,
        ensures
            r == Self::nth(i as int),
            r.ordinal() == i,
    {
        if i == 0 {
            Self::North
        } else if i == 1 {
            Self::South
        } else if i == 2 {
            Self::East
        } else if i == 3 {
            Self::West
        } else if i == 4 {
            Self::Up
        } else {
            Self::Down
        }
    }

    /// Returns the four corners of the face on this side of the unit cube,
    /// in drawing order.
    pub fn face_vertices(self) -> (r: [[i32; 3]; 4])
        ensures
            forall|i: int|
                0 <= i < 4 ==> (#[trigger] r[i][0] as int, r[i][1] as int, r[i][2] as int)
                    == self.face_corner(i),
    {
        match self {
            Self::North => [[0, 0, 0], [0, 1, 0], [1, 1, 0], [1, 0, 0]],
            Self::West => [[0, 0, 1], [0, 1, 1], [0, 1, 0], [0, 0, 0]],
            Self::South => [[1, 0, 1], [1, 1, 1], [0, 1, 1], [0, 0, 1]],
            Self::East => [[1, 0, 0], [1, 1, 0], [1, 1, 1], [1, 0, 1]],
            Self::Up => [[0, 1, 0], [0, 1, 1], [1, 1, 1], [1, 1, 0]],
            Self::Down => [[0, 0, 1], [0, 0, 0], [1, 0, 0], [1, 0, 1]],
        }
    }

    /// Taking the opposite twice gives the direction back.
    pub proof fn lemma_opposite_involution(self)
        ensures
            self.opposite().opposite() == self,
            self.opposite() != self,
    {
    }

    /// The unit vectors of opposite directions add up to zero.
    pub proof fn lemma_opposite_offset(self)
        ensures
            self.opposite().offset().0 == -self.offset().0,
            self.opposite().offset().1 == -self.offset().1,
            self.opposite().offset().2 == -self.offset().2,
    {
    }

    /// A unit vector has exactly one non-zero component, of magnitude one.
    pub proof fn lemma_offset_is_unit(self)
        ensures
            -1 <= self.offset().0 <= 1,
            -1 <= self.offset().1 <= 1,
            -1 <= self.offset().2 <= 1,
            (if self.offset().0 != 0 { 1int } else { 0int })
                + (if self.offset().1 != 0 { 1int } else { 0int })
                + (if self.offset().2 != 0 { 1int } else { 0int }) == 1,
    {
    }

    /// `ordinal` and `nth` are inverse to each other, so `ALL` lists every
    /// direction exactly once.
    pub proof fn lemma_ordinal_nth(self)
        ensures
            0 <= self.ordinal() < 6,
            Self::nth(self.ordinal()) == self,
            Self::ALL[self.ordinal()] == self,
    {
    }

    /// Every corner of a face lies on the side of the cube that the
    /// direction points to.
    pub proof fn lemma_face_corner_on_side(self, i: int)
        requires
            0 <= i < 4,
        ensures
            self.offset().0 != 0 ==> 2 * self.face_corner(i).0 - 1 == self.offset().0,
            self.offset().1 != 0 ==> 2 * self.face_corner(i).1 - 1 == self.offset().1,
            self.offset().2 != 0 ==> 2 * self.face_corner(i).2 - 1 == self.offset().2,
    {
    }
}

impl From<Direction> for [i32; 3] {
    /// The unit vector of the direction.
    fn from(direction: Direction) -> (r: Self) {
        match direction {
            Direction::East => [1, 0, 0],
            Direction::West => [-1, 0, 0],
            Direction::Up => [0, 1, 0],
            Direction::Down => [0, -1, 0],
            Direction::South => [0, 0, 1],
            Direction::North => [0, 0, -1],
        }
    }
}

impl FromSpecImpl<Direction> for [i32; 3] {
    open spec fn obeys_from_spec() -> bool {
        true
    }

    open spec fn from_spec(direction: Direction) -> [i32; 3] {
        match direction {
            Direction::East => [1i32, 0i32, 0i32],
            Direction::West => [-1i32, 0i32, 0i32],
            Direction::Up => [0i32, 1i32, 0i32],
            Direction::Down => [0i32, -1i32, 0i32],
            Direction::South => [0i32, 0i32, 1i32],
            Direction::North => [0i32, 0i32, -1i32],
        }
    }
}

} // verus!
