//! Which faces of the blocks of a world can be seen.
//!
//! A face of a block is visible if the voxel on the other side of it lies
//! in the world, in a chunk that is loaded, and is empty. This module
//! states that rule over the mathematical content of a world, and what it
//! means for the recorded faces of a world to agree with it.

use vstd::prelude::*;

use crate::block::Block;
use crate::chunk::{ChunkView, Face};
use crate::coords::{BlockCoords, ChunkCoords};
use crate::direction::Direction;
use crate::stage::ChunkStage;

verus! {

/// The content of a world: what each chunk that it holds contains.
pub type WorldView = Map<ChunkCoords, ChunkView>;

/// The stage of the chunk `cc`.
pub open spec fn stage_of(w: WorldView, cc: ChunkCoords) -> ChunkStage {
    if w.contains_key(cc) {
        w[cc].stage()
    } else {
        ChunkStage::Absent
    }
}

/// What the world knows of the voxel `bc`: `None` if its chunk is not
/// loaded, `Some(None)` if the voxel is empty, else its block.
pub open spec fn block_of(w: WorldView, bc: BlockCoords) -> Option<Option<Block>> {
    if w.contains_key(bc.0) {
        Some(w[bc.0].blocks.get(bc.1))
    } else {
        None
    }
}

/// True if the voxel `bc` holds a block.
pub open spec fn occupied(w: WorldView, bc: BlockCoords) -> bool {
    w.contains_key(bc.0) && w[bc.0].blocks.contains_key(bc.1)
}

/// True if the voxel beyond the side `d` of `bc` lies in the world, in a
/// loaded chunk, and is empty.
pub open spec fn open_side(w: WorldView, bc: BlockCoords, d: Direction) -> bool {
    match bc.step_spec(d) {
        Some(beyond) => w.contains_key(beyond.0) && !w[beyond.0].blocks.contains_key(beyond.1),
        None => false,
    }
}

/// For each direction, by its position in `Direction::ALL`, whether the
/// side of `bc` in that direction is open.
pub open spec fn open_sides(w: WorldView, bc: BlockCoords) -> Seq<bool> {
    Seq::new(6, |i: int| open_side(w, bc, Direction::nth(i)))
}

/// True if the side `d` of the voxel `bc` is a visible face: the voxel
/// holds a block and the side is open.
pub open spec fn exposed(w: WorldView, bc: BlockCoords, d: Direction) -> bool {
    occupied(w, bc) && open_side(w, bc, d)
}

/// True if the face `d` of the voxel `bc` is recorded as visible.
pub open spec fn shown(w: WorldView, bc: BlockCoords, d: Direction) -> bool {
    w.contains_key(bc.0) && w[bc.0].shows((bc.1, d))
}

/// The visible faces of the chunk `cc`, each with the material of its
/// block.
pub open spec fn derived_faces(w: WorldView, cc: ChunkCoords) -> Map<Face, Block> {
    Map::new(
        |face: Face| exposed(w, BlockCoords(cc, face.0), face.1),
        |face: Face| w[cc].blocks[face.0],
    )
}

/// True if the four chunks around `cc` are loaded.
pub open spec fn surrounded(w: WorldView, cc: ChunkCoords) -> bool {
    forall|d: Direction| d.is_cardinal() ==> w.contains_key(#[trigger] cc.neighbor_of(d))
}

/// True if the faces recorded for the chunk `cc` are the visible ones.
pub open spec fn faces_exact(w: WorldView, cc: ChunkCoords) -> bool {
    forall|face: Face| #[trigger]
        w[cc].shows(face) <==> exposed(w, BlockCoords(cc, face.0), face.1)
}

/// True if the chunk `cc` is not meshed, or the four chunks around it are
/// loaded and the faces recorded for it are exactly the visible ones.
pub open spec fn settled(w: WorldView, cc: ChunkCoords) -> bool {
    stage_of(w, cc) == ChunkStage::Meshed ==> surrounded(w, cc) && faces_exact(w, cc)
}

/// The recorded faces of the world agree with its blocks: around each
/// meshed chunk the four neighbors are loaded, and the faces recorded for
/// it are exactly the visible ones.
pub open spec fn consistent(w: WorldView) -> bool {
    forall|cc: ChunkCoords| #[trigger] settled(w, cc)
}

/// Each recorded face carries the material of the block that it belongs to.
pub open spec fn tagged(w: WorldView) -> bool {
    forall|cc: ChunkCoords, face: Face|
        w.contains_key(cc) && #[trigger] w[cc].shows(face) ==> w[cc].blocks.contains_key(face.0)
            && w[cc].faces.unwrap()[face] == w[cc].blocks[face.0]
}

/// True if both worlds hold the same chunks, at the same stages, with the
/// same voxels occupied. They may differ in the materials and in the
/// faces.
pub open spec fn same_shape(first: WorldView, second: WorldView) -> bool {
    &&& forall|cc: ChunkCoords| #[trigger] stage_of(first, cc) == stage_of(second, cc)
    &&& forall|bc: BlockCoords| #[trigger] occupied(first, bc) == occupied(second, bc)
}

/// Worlds of the same shape have the same visible faces.
pub proof fn lemma_same_shape_exposed(first: WorldView, second: WorldView)
    requires
        same_shape(first, second),
    ensures
        forall|bc: BlockCoords, d: Direction|
            #![trigger open_side(first, bc, d)]
            #![trigger open_side(second, bc, d)]
            open_side(first, bc, d) == open_side(second, bc, d),
        forall|bc: BlockCoords, d: Direction|
            #![trigger exposed(first, bc, d)]
            #![trigger exposed(second, bc, d)]
            exposed(first, bc, d) == exposed(second, bc, d),
        forall|bc: BlockCoords| #[trigger] open_sides(first, bc) == open_sides(second, bc),
        forall|cc: ChunkCoords| #[trigger] surrounded(first, cc) == surrounded(second, cc),
{
    assert forall|cc: ChunkCoords| first.contains_key(cc) == second.contains_key(cc) by {
        assert(stage_of(first, cc) == stage_of(second, cc));
    }
    assert forall|bc: BlockCoords, d: Direction|
        open_side(first, bc, d) == open_side(second, bc, d) && exposed(first, bc, d) == exposed(
            second,
            bc,
            d,
        ) by {
        assert(occupied(first, bc) == occupied(second, bc));
        if bc.step_spec(d) is Some {
            let beyond = bc.step_spec(d).unwrap();
            assert(first.contains_key(beyond.0) == second.contains_key(beyond.0));
            assert(occupied(first, beyond) == occupied(second, beyond));
        }
    }
    assert forall|bc: BlockCoords| #[trigger] open_sides(first, bc) == open_sides(second, bc) by {
        assert(open_sides(first, bc) =~= open_sides(second, bc));
    }
    assert forall|cc: ChunkCoords| #[trigger] surrounded(first, cc) == surrounded(second, cc) by {
        assert forall|d: Direction|
            first.contains_key(#[trigger] cc.neighbor_of(d)) == second.contains_key(
                cc.neighbor_of(d),
            ) by {}
    }
}

/// In a consistent world whose faces carry the material of their blocks,
/// the faces recorded for a meshed chunk are the visible ones, each with
/// that material: the blocks decide the faces.
pub proof fn lemma_faces_are_derived(w: WorldView, cc: ChunkCoords)
    requires
        consistent(w),
        tagged(w),
        stage_of(w, cc) == ChunkStage::Meshed,
    ensures
        w[cc].faces == Some(derived_faces(w, cc)),
{
    assert(settled(w, cc));
    let recorded = w[cc].faces.unwrap();
    let derived = derived_faces(w, cc);
    assert forall|face: Face| recorded.dom().contains(face) == derived.dom().contains(face) by {
        assert(w[cc].shows(face) <==> exposed(w, BlockCoords(cc, face.0), face.1));
    }
    assert(recorded.dom() =~= derived.dom());
    assert forall|face: Face| recorded.dom().contains(face) implies #[trigger] recorded[face]
        == derived[face] by {
        assert(w[cc].shows(face));
    }
    assert(recorded =~= derived_faces(w, cc));
}

/// The directions in which the voxel `bc` has a recorded face.
pub open spec fn faces_of(w: WorldView, bc: BlockCoords) -> Set<Direction> {
    Set::new(|d: Direction| shown(w, bc, d))
}

/// There are six directions.
pub proof fn lemma_six_directions()
    ensures
        Set::<Direction>::full().finite(),
        Set::<Direction>::full().len() == 6,
        forall|d: Direction| #[trigger]
            Set::<Direction>::full().remove(d).finite() && Set::<Direction>::full().remove(d).len()
                == 5,
{
    let all = set![
        Direction::North,
        Direction::South,
        Direction::East,
        Direction::West,
        Direction::Up,
        Direction::Down,
    ];
    assert forall|d: Direction| all.contains(d) by {
        d.lemma_ordinal_nth();
    }
    assert(Set::<Direction>::full() =~= all);
}

/// A block of a meshed chunk in a consistent world whose six neighbors
/// are empty shows six faces, one in each direction, and each carries the
/// material of the block.
pub proof fn lemma_lone_block(w: WorldView, bc: BlockCoords)
    requires
        consistent(w),
        tagged(w),
        stage_of(w, bc.0) == ChunkStage::Meshed,
        occupied(w, bc),
        forall|d: Direction| #[trigger]
            bc.step_spec(d) is Some && !occupied(w, bc.step_spec(d).unwrap()),
    ensures
        forall|d: Direction| #[trigger]
            shown(w, bc, d) && w[bc.0].faces.unwrap()[(bc.1, d)] == w[bc.0].blocks[bc.1],
        faces_of(w, bc) == Set::<Direction>::full(),
        faces_of(w, bc).len() == 6,
{
    assert(settled(w, bc.0));
    assert forall|d: Direction| #[trigger]
        shown(w, bc, d) && w[bc.0].faces.unwrap()[(bc.1, d)] == w[bc.0].blocks[bc.1] by {
        lemma_open_toward_empty(w, bc, d);
        assert(w[bc.0].shows((bc.1, d)) <==> exposed(w, bc, d));
    }
    assert(faces_of(w, bc) =~= Set::<Direction>::full());
    lemma_six_directions();
}

/// Two blocks of meshed chunks in a consistent world that lie side by
/// side, with every other neighbor of either empty, show ten faces: each
/// shows all of its faces but the one that looks at the other block.
pub proof fn lemma_block_pair(w: WorldView, bc: BlockCoords, d: Direction)
    requires
        consistent(w),
        bc.step_spec(d) is Some,
        stage_of(w, bc.0) == ChunkStage::Meshed,
        stage_of(w, bc.step_spec(d).unwrap().0) == ChunkStage::Meshed,
        occupied(w, bc),
        occupied(w, bc.step_spec(d).unwrap()),
        forall|e: Direction|
            e != d ==> #[trigger] bc.step_spec(e) is Some && !occupied(
                w,
                bc.step_spec(e).unwrap(),
            ),
        forall|e: Direction|
            e != d.opposite() ==> #[trigger] bc.step_spec(d).unwrap().step_spec(e) is Some
                && !occupied(w, bc.step_spec(d).unwrap().step_spec(e).unwrap()),
    ensures
        forall|e: Direction| #[trigger] shown(w, bc, e) <==> e != d,
        forall|e: Direction| #[trigger]
            shown(w, bc.step_spec(d).unwrap(), e) <==> e != d.opposite(),
        faces_of(w, bc).len() + faces_of(w, bc.step_spec(d).unwrap()).len() == 10,
{
    let other = bc.step_spec(d).unwrap();
    bc.lemma_step_back(d);
    assert(settled(w, bc.0));
    assert(settled(w, other.0));
    assert forall|e: Direction| #[trigger] shown(w, bc, e) <==> e != d by {
        assert(w[bc.0].shows((bc.1, e)) <==> exposed(w, bc, e));
        if e != d {
            lemma_open_toward_empty(w, bc, e);
        }
    }
    assert forall|e: Direction| #[trigger] shown(w, other, e) <==> e != d.opposite() by {
        assert(w[other.0].shows((other.1, e)) <==> exposed(w, other, e));
        if e != d.opposite() {
            lemma_open_toward_empty(w, other, e);
        }
    }
    assert(faces_of(w, bc) =~= Set::<Direction>::full().remove(d));
    assert(faces_of(w, other) =~= Set::<Direction>::full().remove(d.opposite()));
    lemma_six_directions();
    assert(Set::<Direction>::full().remove(d).len() == 5);
    assert(Set::<Direction>::full().remove(d.opposite()).len() == 5);
}

/// Around a meshed chunk of a consistent world the chunks are loaded, so a
/// side of one of its voxels is open as soon as the voxel beyond it lies
/// in the world and is empty.
pub proof fn lemma_open_toward_empty(w: WorldView, bc: BlockCoords, d: Direction)
    requires
        consistent(w),
        stage_of(w, bc.0) == ChunkStage::Meshed,
        bc.step_spec(d) is Some,
        !occupied(w, bc.step_spec(d).unwrap()),
    ensures
        open_side(w, bc, d),
{
    assert(settled(w, bc.0));
    bc.lemma_step_chunk(d);
    let beyond = bc.step_spec(d).unwrap();
    if beyond.0 != bc.0 {
        assert(w.contains_key(bc.0.neighbor_of(d)));
    }
}

} // verus!
