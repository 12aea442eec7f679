//! Questions about the blocks of the world along a ray and inside a box.
//!
//! The geometry of rays and boxes is worked out by the caller; what
//! arrives here are the voxels that it leads to.

use vstd::prelude::*;

use crate::block::Block;
use crate::command::Cmd;
use crate::coords::BlockCoords;
use crate::direction::Direction;
use crate::visibility::{occupied, WorldView};
use crate::world::World;

verus! {

/// A voxel that a ray enters, with the side through which it enters, or
/// `None` where the ray is outside the world.
pub type RayStep = Option<(BlockCoords, Direction)>;

/// True if the ray enters a voxel that holds a block at this step.
pub open spec fn hits(w: WorldView, step: RayStep) -> bool {
    step matches Some(entered) && occupied(w, entered.0)
}

/// The first step of the ray at which it enters a voxel that holds a
/// block, if there is one.
pub open spec fn first_hit_of(w: WorldView, ray: Seq<RayStep>) -> Option<(BlockCoords, Direction)>
    decreases ray.len(),
{
    if ray.len() == 0 {
        None
    } else if hits(w, ray[0]) {
        ray[0]
    } else {
        first_hit_of(w, ray.drop_first())
    }
}

/// The first hit of a ray is a step of the ray that hits, and no earlier
/// step does; there is none exactly if no step hits.
pub proof fn lemma_first_hit(w: WorldView, ray: Seq<RayStep>)
    ensures
        match first_hit_of(w, ray) {
            Some(entered) => exists|i: int|
                0 <= i < ray.len() && #[trigger] ray[i] == Some(entered) && hits(w, ray[i])
                    && forall|j: int| 0 <= j < i ==> !hits(w, #[trigger] ray[j]),
            None => forall|j: int| 0 <= j < ray.len() ==> !hits(w, #[trigger] ray[j]),
        },
    decreases ray.len(),
{
    if ray.len() == 0 {
    } else if hits(w, ray[0]) {
        assert(ray[0] == Some(ray[0].unwrap()));
    } else {
        let rest = ray.drop_first();
        lemma_first_hit(w, rest);
        match first_hit_of(w, rest) {
            Some(entered) => {
                let i = choose|i: int|
                    0 <= i < rest.len() && #[trigger] rest[i] == Some(entered) && hits(w, rest[i])
                        && forall|j: int| 0 <= j < i ==> !hits(w, #[trigger] rest[j]);
                assert(ray[i + 1] == rest[i]);
                assert forall|j: int| 0 <= j < i + 1 implies !hits(w, #[trigger] ray[j]) by {
                    if j > 0 {
                        assert(ray[j] == rest[j - 1]);
                    }
                }
            },
            None => {
                assert forall|j: int| 0 <= j < ray.len() implies !hits(w, #[trigger] ray[j]) by {
                    if j > 0 {
                        assert(ray[j] == rest[j - 1]);
                    }
                }
            },
        }
    }
}

/// The command that a click on the first block of the ray gives if the
/// click removes: remove that block.
pub open spec fn left_click_of(w: WorldView, ray: Seq<RayStep>) -> Option<Cmd> {
    match first_hit_of(w, ray) {
        Some(entered) => Some(Cmd::RemoveBlock(entered.0)),
        None => None,
    }
}

/// The command that a click on the first block of the ray gives if the
/// click places: place `block` at the voxel in front of the side through
/// which the ray enters, if that voxel lies in the world.
pub open spec fn right_click_of(w: WorldView, ray: Seq<RayStep>, block: Block) -> Option<Cmd> {
    match first_hit_of(w, ray) {
        Some(entered) => match entered.0.step_spec(entered.1) {
            Some(front) => Some(Cmd::PlaceBlock(front, block)),
            None => None,
        },
        None => None,
    }
}

/// The position with `x` along the axis `X`, `y` along `Y` and `z` along
/// `Z`, the axes numbered 0 to 2. Where two of the axes are the same the
/// later value stands.
pub open spec fn along_axes<const X: usize, const Y: usize, const Z: usize>(
    x: int,
    y: int,
    z: int,
) -> Seq<int> {
    seq![0int, 0int, 0int].update(X as int, x).update(Y as int, y).update(Z as int, z)
}

/// True if the global position lies in the world and holds a block.
pub open spec fn solid_at(w: WorldView, position: Seq<int>) -> bool {
    0 <= position[1] < 256 && occupied(w, BlockCoords::at(position[0], position[1], position[2]))
}

/// True if a block lies in the slice of the world at `x` along the axis
/// `X` that spans `y_begin..y_end` along `Y` and `z_begin..z_end` along
/// `Z`.
pub open spec fn slice_is_solid<const X: usize, const Y: usize, const Z: usize>(
    w: WorldView,
    x: int,
    y_begin: int,
    y_end: int,
    z_begin: int,
    z_end: int,
) -> bool {
    exists|y: int, z: int|
        y_begin <= y < y_end && z_begin <= z < z_end && #[trigger] solid_at(
            w,
            along_axes::<X, Y, Z>(x, y, z),
        )
}

impl<A: Fn(i32, i32) -> i32> World<A> {
    /// Returns the first step of the ray at which it enters a voxel that
    /// holds a block, if there is one.
    pub fn first_hit(&self, ray: &Vec<RayStep>) -> (r: Option<(BlockCoords, Direction)>)
        ensures
            r == first_hit_of(self@, ray@),
    {
        let mut i: usize = 0;
        assert(ray@.subrange(0, ray.len() as int) =~= ray@);
        while i < ray.len()
            invariant
                0 <= i <= ray.len(),
                first_hit_of(self@, ray@) == first_hit_of(
                    self@,
                    ray@.subrange(i as int, ray.len() as int),
                ),
            decreases ray.len() - i,
        {
            let ghost rest = ray@.subrange(i as int, ray.len() as int);
            proof {
                assert(rest[0] == ray@[i as int]);
                assert(rest.drop_first() =~= ray@.subrange(i + 1, ray.len() as int));
            }
            match ray[i] {
                Some(entered) => {
                    match self.get_block(entered.0) {
                        Some(Some(_)) => {
                            return Some(entered);
                        },
                        _ => {},
                    }
                },
                None => {},
            }
            i += 1;
        }
        proof {
            assert(ray@.subrange(i as int, ray.len() as int) =~= Seq::<RayStep>::empty());
        }
        None
    }

    /// Returns the command that a removing click gives along the ray:
    /// remove the first block that the ray enters.
    pub fn click_left(&self, ray: &Vec<RayStep>) -> (r: Option<Cmd>)
        ensures
            r == left_click_of(self@, ray@),
    {
        match self.first_hit(ray) {
            Some(entered) => Some(Cmd::RemoveBlock(entered.0)),
            None => None,
        }
    }

    /// Returns the command that a placing click gives along the ray: place
    /// `block` in front of the first block that the ray enters.
    pub fn click_right(&self, ray: &Vec<RayStep>, block: Block) -> (r: Option<Cmd>)
        ensures
            r == right_click_of(self@, ray@, block),
    {
        match self.first_hit(ray) {
            Some(entered) => match entered.0.step(entered.1) {
                Some(front) => Some(Cmd::PlaceBlock(front, block)),
                None => None,
            },
            None => None,
        }
    }

    /// Tells whether a block lies in the slice of the world at `x` along
    /// the axis `X` that spans `y_begin..y_end` along `Y` and
    /// `z_begin..z_end` along `Z`.
    pub fn find_collision_tranch<const X: usize, const Y: usize, const Z: usize>(
        &self,
        x: i32,
        y_begin: i32,
        y_end: i32,
        z_begin: i32,
        z_end: i32,
    ) -> (r: bool)
        requires
            X < 3,
            Y < 3,
            Z < 3,
        ensures
            r == slice_is_solid::<X, Y, Z>(
                self@,
                x as int,
                y_begin as int,
                y_end as int,
                z_begin as int,
                z_end as int,
            ),
    {
        let mut y = y_begin;
        while y < y_end
            invariant
                X < 3,
                Y < 3,
                Z < 3,
                y_begin <= y <= y_end || y_end < y_begin == y,
                forall|v: int, w: int|
                    y_begin <= v < y && z_begin <= w < z_end ==> !#[trigger] solid_at(
                        self@,
                        along_axes::<X, Y, Z>(x as int, v, w),
                    ),
            decreases y_end - y,
        {
            let mut z = z_begin;
            while z < z_end
                invariant
                    X < 3,
                    Y < 3,
                    Z < 3,
                    y_begin <= y < y_end,
                    z_begin <= z <= z_end || z_end < z_begin == z,
                    forall|v: int, w: int|
                        y_begin <= v < y && z_begin <= w < z_end ==> !#[trigger] solid_at(
                            self@,
                            along_axes::<X, Y, Z>(x as int, v, w),
                        ),
                    forall|w: int|
                        z_begin <= w < z ==> !#[trigger] solid_at(
                            self@,
                            along_axes::<X, Y, Z>(x as int, y as int, w),
                        ),
                decreases z_end - z,
            {
                let mut position = [0i32; 3];
                position[X] = x;
                position[Y] = y;
                position[Z] = z;
                assert(position@.map_values(|v: i32| v as int) =~= along_axes::<X, Y, Z>(
                    x as int,
                    y as int,
                    z as int,
                ));
                let ghost place = along_axes::<X, Y, Z>(x as int, y as int, z as int);
                assert(place[0] == position[0] && place[1] == position[1] && place[2]
                    == position[2]);
                match BlockCoords::try_from(position) {
                    Ok(bc) => {
                        assert(bc == BlockCoords::at(place[0], place[1], place[2]));
                        match self.get_block(bc) {
                            Some(Some(_)) => {
                                assert(solid_at(self@, place));
                                return true;
                            },
                            _ => {},
                        }
                    },
                    Err(_) => {},
                }
                z += 1;
            }
            y += 1;
        }
        false
    }
}

} // verus!
