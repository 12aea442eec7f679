//! What placing and removing a block does to the world.
//!
//! An edit changes one voxel. That can change the faces of the voxel
//! itself and of the voxels on its six sides, and of no others; so after
//! the block has changed, the faces of those voxels are brought up to date
//! one after the other, and the chunks in which a face appeared or
//! disappeared are reported.

use vstd::prelude::*;
use vstd::seq_lib::lemma_seq_contains_after_push;

use crate::block::Block;
use crate::chunk::Face;
use crate::coords::{BlockCoords, ChunkCoords};
use crate::direction::Direction;
use crate::seqs::lemma_drop_last_contains;
use crate::stage::ChunkStage;
use crate::visibility::{
    consistent, exposed, lemma_same_shape_exposed, occupied, open_side, open_sides, same_shape,
    settled, shown, stage_of, surrounded, tagged, WorldView,
};

verus! {

/// The voxel `bc` followed by the voxels beyond its sides in the first `n`
/// directions of `Direction::ALL`, as far as they lie in the world.
pub open spec fn touched_through(bc: BlockCoords, n: int) -> Seq<BlockCoords>
    decreases n,
{
    if n <= 0 {
        seq![bc]
    } else {
        let before = touched_through(bc, n - 1);
        match bc.step_spec(Direction::nth(n - 1)) {
            Some(beyond) => before.push(beyond),
            None => before,
        }
    }
}

/// The voxels whose faces an edit of `bc` can change: `bc` itself and the
/// voxels beyond its six sides, as far as they lie in the world.
pub open spec fn touched(bc: BlockCoords) -> Seq<BlockCoords> {
    touched_through(bc, 6)
}

/// True if bringing the faces of the voxel `bc` up to date makes a hidden
/// face visible or a visible face hidden.
pub open spec fn stale_at(w: WorldView, bc: BlockCoords) -> bool {
    w.contains_key(bc.0) && w[bc.0].stale(bc.1, open_sides(w, bc))
}

/// The world after the faces of the voxel `bc` were brought up to date.
/// Only a meshed chunk has faces; elsewhere nothing changes.
pub open spec fn refreshed_at(w: WorldView, bc: BlockCoords) -> WorldView {
    if w.contains_key(bc.0) {
        w.insert(bc.0, w[bc.0].refreshed(bc.1, open_sides(w, bc)))
    } else {
        w
    }
}

/// The world after the faces of the voxels of `list` were brought up to
/// date, one after the other.
pub open spec fn refreshed_all(w: WorldView, list: Seq<BlockCoords>) -> WorldView
    decreases list.len(),
{
    if list.len() == 0 {
        w
    } else {
        refreshed_at(refreshed_all(w, list.drop_last()), list.last())
    }
}

/// The chunks in which bringing the faces of the voxels of `list` up to
/// date made a face appear or disappear, each once, in the order in which
/// that first happened.
pub open spec fn reported(w: WorldView, list: Seq<BlockCoords>) -> Seq<ChunkCoords>
    decreases list.len(),
{
    if list.len() == 0 {
        Seq::empty()
    } else {
        let before = reported(w, list.drop_last());
        let reached = refreshed_all(w, list.drop_last());
        if stale_at(reached, list.last()) && !before.contains(list.last().0) {
            before.push(list.last().0)
        } else {
            before
        }
    }
}

/// The world with `block` put at `bc`, its faces left as they are. Only a
/// meshed chunk takes the block.
pub open spec fn with_block(w: WorldView, bc: BlockCoords, block: Block) -> WorldView {
    if w.contains_key(bc.0) {
        w.insert(bc.0, w[bc.0].with_block(bc.1, block))
    } else {
        w
    }
}

/// The world with the voxel `bc` emptied, its faces left as they are. Only
/// a meshed chunk gives the block up.
pub open spec fn without_block(w: WorldView, bc: BlockCoords) -> WorldView {
    if w.contains_key(bc.0) {
        w.insert(bc.0, w[bc.0].without_block(bc.1))
    } else {
        w
    }
}

/// True if placing a block at `bc` fills an empty voxel of a meshed chunk.
pub open spec fn fills(w: WorldView, bc: BlockCoords) -> bool {
    stage_of(w, bc.0) == ChunkStage::Meshed && !occupied(w, bc)
}

/// True if removing the block at `bc` empties an occupied voxel of a
/// meshed chunk.
pub open spec fn empties(w: WorldView, bc: BlockCoords) -> bool {
    stage_of(w, bc.0) == ChunkStage::Meshed && occupied(w, bc)
}

/// The world after `block` was placed at `bc`.
///
/// A chunk that is not meshed does not take the block. In a meshed chunk
/// the block is put at `bc`. If the voxel was empty, the faces of the
/// touched voxels are then brought up to date; if it held a block, that
/// block is replaced and the faces stay as they are.
pub open spec fn placed(w: WorldView, bc: BlockCoords, block: Block) -> WorldView {
    if fills(w, bc) {
        refreshed_all(with_block(w, bc, block), touched(bc))
    } else {
        with_block(w, bc, block)
    }
}

/// The chunks reported when `block` is placed at `bc`.
pub open spec fn place_report(w: WorldView, bc: BlockCoords, block: Block) -> Seq<ChunkCoords> {
    if fills(w, bc) {
        reported(with_block(w, bc, block), touched(bc))
    } else {
        Seq::empty()
    }
}

/// The world after the block at `bc` was removed.
///
/// Where the voxel is empty or its chunk is not meshed, nothing changes.
/// Else the voxel is emptied and the faces of the touched voxels are
/// brought up to date.
pub open spec fn removed(w: WorldView, bc: BlockCoords) -> WorldView {
    if empties(w, bc) {
        refreshed_all(without_block(w, bc), touched(bc))
    } else {
        w
    }
}

/// The chunks reported when the block at `bc` is removed.
pub open spec fn remove_report(w: WorldView, bc: BlockCoords) -> Seq<ChunkCoords> {
    if empties(w, bc) {
        reported(without_block(w, bc), touched(bc))
    } else {
        Seq::empty()
    }
}

/// True if `other` is the voxel `bc` or lies beyond one of its sides.
pub open spec fn around(bc: BlockCoords, other: BlockCoords) -> bool {
    other == bc || exists|d: Direction| bc.step_spec(d) == Some(other)
}

/// True if both worlds hold the same chunks, at the same stages and with
/// the same blocks. They may differ in the faces.
pub open spec fn same_blocks(first: WorldView, second: WorldView) -> bool {
    forall|cc: ChunkCoords|
        #![trigger first.contains_key(cc)]
        #![trigger second.contains_key(cc)]
        #![trigger first[cc]]
        #![trigger second[cc]]
        first.contains_key(cc) == second.contains_key(cc) && (first.contains_key(cc)
            ==> first[cc].blocks == second[cc].blocks && first[cc].stage() == second[cc].stage())
}

/// True if the face `face` of the chunk `cc` is in `after` as bringing the
/// faces of the voxels of `list` up to date leaves it: for a voxel of the
/// list the face is recorded if and only if it is visible, with the
/// material of the block; for every other voxel it is as in `before`.
pub open spec fn face_settled(
    before: WorldView,
    after: WorldView,
    list: Seq<BlockCoords>,
    cc: ChunkCoords,
    face: Face,
) -> bool {
    if list.contains(BlockCoords(cc, face.0)) {
        after[cc].shows(face) == exposed(before, BlockCoords(cc, face.0), face.1) && (
        after[cc].shows(face) ==> after[cc].faces.unwrap()[face] == before[cc].blocks[face.0])
    } else {
        after[cc].shows(face) == before[cc].shows(face) && (after[cc].shows(face)
            ==> after[cc].faces.unwrap()[face] == before[cc].faces.unwrap()[face])
    }
}

/// The start of the list of touched voxels holds `bc` and the voxels
/// beyond its sides in the first `n` directions.
proof fn lemma_touched_through(bc: BlockCoords, n: int)
    requires
        0 <= n <= 6,
    ensures
        1 <= touched_through(bc, n).len() <= n + 1,
        touched_through(bc, n)[0] == bc,
        forall|other: BlockCoords|
            touched_through(bc, n).contains(other) <==> (other == bc || exists|d: Direction|
                d.ordinal() < n && bc.step_spec(d) == Some(other)),
    decreases n,
{
    if n == 0 {
        assert forall|other: BlockCoords|
            touched_through(bc, n).contains(other) <==> (other == bc || exists|d: Direction|
                d.ordinal() < n && bc.step_spec(d) == Some(other)) by {
            assert(touched_through(bc, n)[0] == bc);
            assert forall|d: Direction| !(d.ordinal() < 0) by {
                d.lemma_ordinal_nth();
            }
        }
    } else {
        lemma_touched_through(bc, n - 1);
        let before = touched_through(bc, n - 1);
        let last = Direction::nth(n - 1);
        assert forall|other: BlockCoords|
            touched_through(bc, n).contains(other) <==> (other == bc || exists|d: Direction|
                d.ordinal() < n && bc.step_spec(d) == Some(other)) by {
            let early = exists|d: Direction| d.ordinal() < n - 1 && bc.step_spec(d) == Some(other);
            let late = exists|d: Direction| d.ordinal() < n && bc.step_spec(d) == Some(other);
            assert(before.contains(other) <==> (other == bc || early));
            if early {
                let d = choose|d: Direction| d.ordinal() < n - 1 && bc.step_spec(d) == Some(other);
                assert(d.ordinal() < n && bc.step_spec(d) == Some(other));
            }
            if bc.step_spec(last) == Some(other) {
                assert(last.ordinal() < n && bc.step_spec(last) == Some(other));
            }
            if late && !early {
                let d = choose|d: Direction| d.ordinal() < n && bc.step_spec(d) == Some(other);
                d.lemma_ordinal_nth();
                if d.ordinal() < n - 1 {
                    assert(d.ordinal() < n - 1 && bc.step_spec(d) == Some(other));
                }
                assert(d == last);
            }
            match bc.step_spec(last) {
                Some(beyond) => {
                    lemma_seq_contains_after_push(before, beyond, other);
                },
                None => {},
            }
        }
    }
}

/// The touched voxels are `bc` and the voxels beyond its sides: at most
/// seven, with `bc` first.
pub proof fn lemma_touched(bc: BlockCoords)
    ensures
        1 <= touched(bc).len() <= 7,
        touched(bc)[0] == bc,
        forall|other: BlockCoords| #[trigger] touched(bc).contains(other) <==> around(bc, other),
{
    lemma_touched_through(bc, 6);
    assert forall|other: BlockCoords| #[trigger] touched(bc).contains(other) <==> around(
        bc,
        other,
    ) by {
        if exists|d: Direction| bc.step_spec(d) == Some(other) {
            let d = choose|d: Direction| bc.step_spec(d) == Some(other);
            d.lemma_ordinal_nth();
            assert(d.ordinal() < 6 && bc.step_spec(d) == Some(other));
        }
    }
}

/// A face that does not belong to a voxel around `bc` does not look at
/// `bc`: whether it is visible does not depend on what `bc` holds.
pub proof fn lemma_far_face(bc: BlockCoords, other: BlockCoords, d: Direction)
    requires
        !around(bc, other),
    ensures
        other != bc,
        other.step_spec(d) != Some(bc),
{
    if other.step_spec(d) == Some(bc) {
        other.lemma_step_back(d);
        assert(bc.step_spec(d.opposite()) == Some(other));
    }
}

/// Bringing the faces of one voxel up to date changes no block and no
/// stage; it sets the faces of that voxel to the visible ones and leaves
/// every other face as it is.
pub proof fn lemma_refreshed_at(w: WorldView, bc: BlockCoords)
    ensures
        same_blocks(w, refreshed_at(w, bc)),
        forall|cc: ChunkCoords, face: Face|
            w.contains_key(cc) && w[cc].faces is Some ==> #[trigger] face_settled(
                w,
                refreshed_at(w, bc),
                seq![bc],
                cc,
                face,
            ),
{
    let after = refreshed_at(w, bc);
    assert forall|cc: ChunkCoords, face: Face|
        w.contains_key(cc) && w[cc].faces is Some implies #[trigger] face_settled(
        w,
        after,
        seq![bc],
        cc,
        face,
    ) by {
        let this = BlockCoords(cc, face.0);
        if this == bc {
            assert(seq![bc][0] == this);
            face.1.lemma_ordinal_nth();
            assert(open_sides(w, bc)[face.1.ordinal()] == open_side(w, bc, face.1));
        } else {
            assert(!seq![bc].contains(this));
        }
    }
}

/// Bringing the faces of the voxels of a list up to date changes no block
/// and no stage; it sets the faces of the listed voxels to the visible
/// ones and leaves every other face as it is.
pub proof fn lemma_refreshed_all(w: WorldView, list: Seq<BlockCoords>)
    ensures
        same_blocks(w, refreshed_all(w, list)),
        same_shape(w, refreshed_all(w, list)),
        forall|cc: ChunkCoords, face: Face|
            w.contains_key(cc) && w[cc].faces is Some ==> #[trigger] face_settled(
                w,
                refreshed_all(w, list),
                list,
                cc,
                face,
            ),
    decreases list.len(),
{
    let after = refreshed_all(w, list);
    if list.len() == 0 {
        assert forall|cc: ChunkCoords, face: Face|
            w.contains_key(cc) && w[cc].faces is Some implies #[trigger] face_settled(
            w,
            after,
            list,
            cc,
            face,
        ) by {
            assert(!list.contains(BlockCoords(cc, face.0)));
        }
    } else {
        let early = list.drop_last();
        let last = list.last();
        let reached = refreshed_all(w, early);
        lemma_refreshed_all(w, early);
        lemma_refreshed_at(reached, last);
        lemma_same_shape_exposed(w, reached);
        assert(same_blocks(w, after)) by {
            assert forall|cc: ChunkCoords|
                #![trigger w.contains_key(cc)]
                #![trigger after.contains_key(cc)]
                #![trigger w[cc]]
                #![trigger after[cc]]
                w.contains_key(cc) == after.contains_key(cc) && (w.contains_key(cc)
                    ==> w[cc].blocks == after[cc].blocks && w[cc].stage() == after[cc].stage()) by {
                assert(reached.contains_key(cc) == w.contains_key(cc));
                assert(reached.contains_key(cc) == after.contains_key(cc));
            }
        }
        assert forall|cc: ChunkCoords, face: Face|
            w.contains_key(cc) && w[cc].faces is Some implies #[trigger] face_settled(
            w,
            after,
            list,
            cc,
            face,
        ) by {
            let this = BlockCoords(cc, face.0);
            lemma_drop_last_contains(list, this);
            assert(reached.contains_key(cc) && reached[cc].faces is Some);
            assert(face_settled(w, reached, early, cc, face));
            assert(face_settled(reached, after, seq![last], cc, face));
            if this == last {
                assert(seq![last][0] == this);
                assert(exposed(reached, this, face.1) == exposed(w, this, face.1));
            } else {
                assert(!seq![last].contains(this));
            }
        }
    }
    lemma_same_blocks_shape(w, after);
}

/// Worlds with the same blocks have the same shape.
pub proof fn lemma_same_blocks_shape(first: WorldView, second: WorldView)
    requires
        same_blocks(first, second),
    ensures
        same_shape(first, second),
{
    assert forall|cc: ChunkCoords| #[trigger] stage_of(first, cc) == stage_of(second, cc) by {
        assert(first.contains_key(cc) == second.contains_key(cc));
    }
    assert forall|bc: BlockCoords| #[trigger] occupied(first, bc) == occupied(second, bc) by {
        assert(first.contains_key(bc.0) == second.contains_key(bc.0));
    }
}

/// After a change of what the voxel `bc` holds, bringing the faces of the
/// touched voxels up to date makes a consistent world consistent again.
proof fn lemma_cascade_consistent(w: WorldView, changed: WorldView, bc: BlockCoords)
    requires
        consistent(w),
        forall|cc: ChunkCoords| #[trigger] stage_of(w, cc) == stage_of(changed, cc),
        forall|cc: ChunkCoords, face: Face|
            w.contains_key(cc) ==> #[trigger] w[cc].shows(face) == changed[cc].shows(face),
        forall|other: BlockCoords|
            other != bc ==> #[trigger] occupied(w, other) == occupied(changed, other),
    ensures
        consistent(refreshed_all(changed, touched(bc))),
{
    let after = refreshed_all(changed, touched(bc));
    lemma_refreshed_all(changed, touched(bc));
    lemma_same_shape_exposed(changed, after);
    lemma_touched(bc);
    assert forall|cc: ChunkCoords| #[trigger] settled(after, cc) by {
        assert(settled(w, cc));
        assert(stage_of(w, cc) == stage_of(changed, cc));
        assert(stage_of(changed, cc) == stage_of(after, cc));
        if stage_of(after, cc) == ChunkStage::Meshed {
            assert forall|d: Direction| d.is_cardinal() implies after.contains_key(
                #[trigger] cc.neighbor_of(d),
            ) by {
                assert(w.contains_key(cc.neighbor_of(d)));
                assert(stage_of(w, cc.neighbor_of(d)) == stage_of(changed, cc.neighbor_of(d)));
                assert(stage_of(changed, cc.neighbor_of(d)) == stage_of(after, cc.neighbor_of(d)));
            }
            assert forall|face: Face| #[trigger]
                after[cc].shows(face) <==> exposed(after, BlockCoords(cc, face.0), face.1) by {
                let this = BlockCoords(cc, face.0);
                assert(face_settled(changed, after, touched(bc), cc, face));
                assert(exposed(after, this, face.1) == exposed(changed, this, face.1));
                if !touched(bc).contains(this) {
                    assert(!around(bc, this));
                    lemma_far_face(bc, this, face.1);
                    assert(w[cc].shows(face) <==> exposed(w, this, face.1));
                    assert(w[cc].shows(face) == changed[cc].shows(face));
                    assert(occupied(w, this) == occupied(changed, this));
                    if this.step_spec(face.1) is Some {
                        let beyond = this.step_spec(face.1).unwrap();
                        assert(occupied(w, beyond) == occupied(changed, beyond));
                        assert(stage_of(w, beyond.0) == stage_of(changed, beyond.0));
                    }
                }
            }
        }
    }
}

/// Placing a block keeps a consistent world consistent.
pub proof fn lemma_placed_consistent(w: WorldView, bc: BlockCoords, block: Block)
    requires
        consistent(w),
    ensures
        consistent(placed(w, bc, block)),
{
    let changed = with_block(w, bc, block);
    assert forall|cc: ChunkCoords| #[trigger] stage_of(w, cc) == stage_of(changed, cc) by {}
    assert forall|other: BlockCoords|
        other != bc implies #[trigger] occupied(w, other) == occupied(changed, other) by {}
    if fills(w, bc) {
        lemma_cascade_consistent(w, changed, bc);
    } else {
        assert forall|other: BlockCoords| #[trigger]
            occupied(w, other) == occupied(changed, other) by {}
        assert(same_shape(w, changed));
        lemma_same_shape_exposed(w, changed);
        assert forall|cc: ChunkCoords| #[trigger] settled(changed, cc) by {
            assert(settled(w, cc));
            assert(stage_of(w, cc) == stage_of(changed, cc));
            if stage_of(changed, cc) == ChunkStage::Meshed {
                assert(surrounded(w, cc) == surrounded(changed, cc));
                assert forall|face: Face| #[trigger]
                    changed[cc].shows(face) <==> exposed(
                        changed,
                        BlockCoords(cc, face.0),
                        face.1,
                    ) by {
                    assert(w[cc].shows(face) <==> exposed(w, BlockCoords(cc, face.0), face.1));
                }
            }
        }
    }
}

/// Removing a block keeps a consistent world consistent.
pub proof fn lemma_removed_consistent(w: WorldView, bc: BlockCoords)
    requires
        consistent(w),
    ensures
        consistent(removed(w, bc)),
{
    if empties(w, bc) {
        let changed = without_block(w, bc);
        assert forall|cc: ChunkCoords| #[trigger] stage_of(w, cc) == stage_of(changed, cc) by {}
        assert forall|other: BlockCoords|
            other != bc implies #[trigger] occupied(w, other) == occupied(changed, other) by {}
        lemma_cascade_consistent(w, changed, bc);
    }
}

/// After a change of what the voxel `bc` holds, bringing the faces of the
/// touched voxels up to date leaves every face with the material of its
/// block, if that was so before.
proof fn lemma_cascade_tagged(w: WorldView, changed: WorldView, bc: BlockCoords)
    requires
        tagged(w),
        forall|cc: ChunkCoords| #[trigger] stage_of(w, cc) == stage_of(changed, cc),
        forall|cc: ChunkCoords, face: Face|
            w.contains_key(cc) ==> #[trigger] w[cc].shows(face) == changed[cc].shows(face) && (
            w[cc].shows(face) ==> w[cc].faces.unwrap()[face] == changed[cc].faces.unwrap()[face]),
        forall|other: BlockCoords|
            other != bc ==> #[trigger] occupied(w, other) == occupied(changed, other) && (occupied(
                w,
                other,
            ) ==> w[other.0].blocks[other.1] == changed[other.0].blocks[other.1]),
    ensures
        tagged(refreshed_all(changed, touched(bc))),
{
    let after = refreshed_all(changed, touched(bc));
    lemma_refreshed_all(changed, touched(bc));
    lemma_touched(bc);
    assert forall|cc: ChunkCoords, face: Face|
        after.contains_key(cc) && #[trigger] after[cc].shows(face) implies after[cc].blocks.contains_key(
        face.0,
    ) && after[cc].faces.unwrap()[face] == after[cc].blocks[face.0] by {
        let this = BlockCoords(cc, face.0);
        assert(changed.contains_key(cc));
        assert(stage_of(w, cc) == stage_of(changed, cc));
        assert(face_settled(changed, after, touched(bc), cc, face));
        if !touched(bc).contains(this) {
            assert(this != bc);
            assert(w[cc].shows(face) == changed[cc].shows(face));
            assert(w[cc].shows(face));
            assert(occupied(w, this) == occupied(changed, this));
        }
    }
}

/// Placing a block leaves every face with the material of its block, if
/// that was so before, unless the block replaced one of another material.
pub proof fn lemma_placed_tagged(w: WorldView, bc: BlockCoords, block: Block)
    requires
        tagged(w),
        stage_of(w, bc.0) == ChunkStage::Meshed && occupied(w, bc) ==> w[bc.0].blocks[bc.1]
            == block,
    ensures
        tagged(placed(w, bc, block)),
{
    let changed = with_block(w, bc, block);
    if fills(w, bc) {
        assert forall|cc: ChunkCoords| #[trigger] stage_of(w, cc) == stage_of(changed, cc) by {}
        assert forall|other: BlockCoords| other != bc implies #[trigger] occupied(w, other)
            == occupied(changed, other) && (occupied(w, other) ==> w[other.0].blocks[other.1]
            == changed[other.0].blocks[other.1]) by {}
        lemma_cascade_tagged(w, changed, bc);
    } else {
        assert forall|cc: ChunkCoords, face: Face|
            changed.contains_key(cc) && #[trigger] changed[cc].shows(face)
                implies changed[cc].blocks.contains_key(face.0) && changed[cc].faces.unwrap()[face]
                == changed[cc].blocks[face.0] by {
            assert(w[cc].shows(face));
        }
    }
}

/// Removing a block leaves every face with the material of its block, if
/// that was so before.
pub proof fn lemma_removed_tagged(w: WorldView, bc: BlockCoords)
    requires
        tagged(w),
    ensures
        tagged(removed(w, bc)),
{
    if empties(w, bc) {
        let changed = without_block(w, bc);
        assert forall|cc: ChunkCoords| #[trigger] stage_of(w, cc) == stage_of(changed, cc) by {}
        assert forall|other: BlockCoords| other != bc implies #[trigger] occupied(w, other)
            == occupied(changed, other) && (occupied(w, other) ==> w[other.0].blocks[other.1]
            == changed[other.0].blocks[other.1]) by {}
        lemma_cascade_tagged(w, changed, bc);
    }
}

/// Placing a block into an empty voxel of a consistent world and removing
/// it again gives the world back as it was, faces included.
pub proof fn lemma_place_then_remove(w: WorldView, bc: BlockCoords, block: Block)
    requires
        consistent(w),
        tagged(w),
        fills(w, bc),
    ensures
        empties(placed(w, bc, block), bc),
        removed(placed(w, bc, block), bc) == w,
{
    let filled = with_block(w, bc, block);
    let between = placed(w, bc, block);
    lemma_refreshed_all(filled, touched(bc));
    assert(empties(between, bc)) by {
        assert(between.contains_key(bc.0) == filled.contains_key(bc.0));
        assert(between[bc.0].blocks == filled[bc.0].blocks);
    }
    let emptied = without_block(between, bc);
    let after = removed(between, bc);
    lemma_refreshed_all(emptied, touched(bc));
    lemma_touched(bc);
    assert forall|other: BlockCoords| #[trigger] occupied(w, other) == occupied(emptied, other) by {
        assert(between.contains_key(other.0) == filled.contains_key(other.0));
        assert(between.contains_key(other.0) ==> between[other.0].blocks == filled[other.0].blocks);
    }
    assert forall|cc: ChunkCoords| #[trigger] stage_of(w, cc) == stage_of(emptied, cc) by {
        assert(between.contains_key(cc) == filled.contains_key(cc));
        assert(between.contains_key(cc) ==> between[cc].stage() == filled[cc].stage());
    }
    assert(same_shape(w, emptied));
    lemma_same_shape_exposed(w, emptied);
    assert forall|cc: ChunkCoords| w.contains_key(cc) == after.contains_key(cc) by {
        assert(stage_of(w, cc) == stage_of(emptied, cc));
        assert(emptied.contains_key(cc) == after.contains_key(cc));
    }
    assert forall|cc: ChunkCoords| w.contains_key(cc) implies #[trigger] after[cc] == w[cc] by {
        assert(stage_of(w, cc) == stage_of(emptied, cc));
        assert(emptied.contains_key(cc));
        assert(between.contains_key(cc) && filled.contains_key(cc));
        assert(between[cc].blocks == filled[cc].blocks);
        assert(after[cc].blocks == emptied[cc].blocks);
        assert(emptied[cc].blocks =~= w[cc].blocks);
        assert(after[cc].stage() == emptied[cc].stage());
        if w[cc].faces is Some {
            assert(settled(w, cc));
            let mine = after[cc].faces.unwrap();
            let theirs = w[cc].faces.unwrap();
            assert forall|face: Face|
                #![trigger mine.dom().contains(face)]
                #![trigger mine[face]]
                mine.dom().contains(face) == theirs.dom().contains(face) && (theirs.dom().contains(
                    face,
                ) ==> mine[face] == theirs[face]) by {
                let this = BlockCoords(cc, face.0);
                assert(face_settled(emptied, after, touched(bc), cc, face));
                assert(face_settled(filled, between, touched(bc), cc, face));
                assert(w[cc].shows(face) <==> exposed(w, this, face.1));
                assert(exposed(w, this, face.1) == exposed(emptied, this, face.1));
                if touched(bc).contains(this) {
                    if w[cc].shows(face) {
                        assert(w[cc].blocks.contains_key(face.0));
                    }
                } else {
                    assert(this != bc);
                    assert(emptied[cc].shows(face) == between[cc].shows(face));
                    assert(filled[cc].shows(face) == w[cc].shows(face));
                }
            }
            assert(mine.dom() =~= theirs.dom());
            assert(mine =~= theirs);
        }
    }
    assert(after =~= w);
}

/// A chunk is reported if and only if it holds a listed voxel for which a
/// face appeared or disappeared when its turn came, and no chunk is
/// reported twice.
pub proof fn lemma_reported(w: WorldView, list: Seq<BlockCoords>)
    ensures
        reported(w, list).no_duplicates(),
        reported(w, list).len() <= list.len(),
        forall|cc: ChunkCoords| #[trigger]
            reported(w, list).contains(cc) <==> exists|i: int|
                0 <= i < list.len() && list[i].0 == cc && #[trigger] stale_at(
                    refreshed_all(w, list.subrange(0, i)),
                    list[i],
                ),
    decreases list.len(),
{
    if list.len() > 0 {
        let early = list.drop_last();
        let last = list.last();
        let before = reported(w, early);
        let reached = refreshed_all(w, early);
        lemma_reported(w, early);
        assert(list.subrange(0, list.len() - 1) =~= early);
        assert forall|i: int| 0 <= i < early.len() implies #[trigger] early.subrange(0, i)
            == list.subrange(0, i) by {
            assert(early.subrange(0, i) =~= list.subrange(0, i));
        }
        assert forall|cc: ChunkCoords| #[trigger]
            reported(w, list).contains(cc) <==> exists|i: int|
                0 <= i < list.len() && list[i].0 == cc && #[trigger] stale_at(
                    refreshed_all(w, list.subrange(0, i)),
                    list[i],
                ) by {
            let on_early = exists|i: int|
                0 <= i < early.len() && early[i].0 == cc && #[trigger] stale_at(
                    refreshed_all(w, early.subrange(0, i)),
                    early[i],
                );
            let on_list = exists|i: int|
                0 <= i < list.len() && list[i].0 == cc && #[trigger] stale_at(
                    refreshed_all(w, list.subrange(0, i)),
                    list[i],
                );
            assert(before.contains(cc) <==> on_early);
            lemma_seq_contains_after_push(before, last.0, cc);
            if on_early {
                let i = choose|i: int|
                    0 <= i < early.len() && early[i].0 == cc && #[trigger] stale_at(
                        refreshed_all(w, early.subrange(0, i)),
                        early[i],
                    );
                assert(early.subrange(0, i) == list.subrange(0, i));
                assert(0 <= i < list.len() && list[i].0 == cc && stale_at(
                    refreshed_all(w, list.subrange(0, i)),
                    list[i],
                ));
            }
            if last.0 == cc && stale_at(reached, last) {
                let i = list.len() - 1;
                assert(0 <= i < list.len() && list[i].0 == cc && stale_at(
                    refreshed_all(w, list.subrange(0, i)),
                    list[i],
                ));
            }
            if on_list && !on_early {
                let i = choose|i: int|
                    0 <= i < list.len() && list[i].0 == cc && #[trigger] stale_at(
                        refreshed_all(w, list.subrange(0, i)),
                        list[i],
                    );
                if i < early.len() {
                    assert(early.subrange(0, i) == list.subrange(0, i));
                    assert(0 <= i < early.len() && early[i].0 == cc && stale_at(
                        refreshed_all(w, early.subrange(0, i)),
                        early[i],
                    ));
                }
            }
        }
    }
}

/// In a consistent world no voxel has faces that are out of date: bringing
/// them up to date makes no face appear or disappear, and the world stays
/// consistent.
pub proof fn lemma_refreshed_consistent(w: WorldView, bc: BlockCoords)
    requires
        consistent(w),
    ensures
        !stale_at(w, bc),
        consistent(refreshed_at(w, bc)),
{
    let after = refreshed_at(w, bc);
    lemma_refreshed_at(w, bc);
    lemma_same_blocks_shape(w, after);
    lemma_same_shape_exposed(w, after);
    assert(settled(w, bc.0));
    if w.contains_key(bc.0) && w[bc.0].faces is Some {
        assert forall|d: Direction| !w[bc.0].differs(bc.1, open_sides(w, bc), d) by {
            d.lemma_ordinal_nth();
            assert(w[bc.0].shows((bc.1, d)) <==> exposed(w, bc, d));
            assert(open_sides(w, bc)[d.ordinal()] == open_side(w, bc, d));
        }
    }
    assert forall|cc: ChunkCoords| #[trigger] settled(after, cc) by {
        assert(settled(w, cc));
        assert(stage_of(w, cc) == stage_of(after, cc));
        if stage_of(after, cc) == ChunkStage::Meshed {
            assert(surrounded(w, cc) == surrounded(after, cc));
            assert forall|face: Face| #[trigger]
                after[cc].shows(face) <==> exposed(after, BlockCoords(cc, face.0), face.1) by {
                let this = BlockCoords(cc, face.0);
                assert(face_settled(w, after, seq![bc], cc, face));
                assert(w[cc].shows(face) <==> exposed(w, this, face.1));
                assert(exposed(w, this, face.1) == exposed(after, this, face.1));
            }
        }
    }
}

/// No voxel is touched twice.
proof fn lemma_touched_through_once(bc: BlockCoords, n: int)
    requires
        0 <= n <= 6,
    ensures
        touched_through(bc, n).no_duplicates(),
    decreases n,
{
    if n > 0 {
        lemma_touched_through_once(bc, n - 1);
        lemma_touched_through(bc, n - 1);
        let before = touched_through(bc, n - 1);
        let last = Direction::nth(n - 1);
        match bc.step_spec(last) {
            Some(beyond) => {
                bc.lemma_step_chunk(last);
                if before.contains(beyond) {
                    let d = choose|d: Direction|
                        d.ordinal() < n - 1 && bc.step_spec(d) == Some(beyond);
                    bc.lemma_step_injective(d, last);
                }
                assert forall|i: int, j: int|
                    0 <= i < before.push(beyond).len() && 0 <= j < before.push(beyond).len() && i
                        != j implies before.push(beyond)[i] != before.push(beyond)[j] by {
                    if i < before.len() && j < before.len() {
                    } else if i < before.len() {
                        assert(before.contains(before[i]));
                    } else if j < before.len() {
                        assert(before.contains(before[j]));
                    }
                }
            },
            None => {},
        }
    }
}

/// While the faces of the voxels of a list without repetition are brought
/// up to date, whether the faces of a voxel are out of date when its turn
/// comes can be told from the world at the start: the faces recorded then
/// are compared with the faces that are visible.
proof fn lemma_stale_in_turn(w: WorldView, list: Seq<BlockCoords>, i: int)
    requires
        list.no_duplicates(),
        0 <= i < list.len(),
    ensures
        stale_at(refreshed_all(w, list.subrange(0, i)), list[i]) <==> exists|d: Direction|
            shown(w, list[i], d) != shown(refreshed_all(w, list), list[i], d),
{
    let early = list.subrange(0, i);
    let reached = refreshed_all(w, early);
    let after = refreshed_all(w, list);
    let this = list[i];
    lemma_refreshed_all(w, early);
    lemma_refreshed_all(w, list);
    lemma_same_shape_exposed(w, reached);
    assert(!early.contains(this)) by {
        if early.contains(this) {
            let j = choose|j: int| 0 <= j < early.len() && early[j] == this;
            assert(list[j] == list[i]);
        }
    }
    assert(list.contains(this));
    if w.contains_key(this.0) && w[this.0].faces is Some {
        assert forall|d: Direction|
            reached[this.0].differs(this.1, open_sides(reached, this), d) == (shown(w, this, d)
                != shown(after, this, d)) by {
            d.lemma_ordinal_nth();
            assert(face_settled(w, reached, early, this.0, (this.1, d)));
            assert(face_settled(w, after, list, this.0, (this.1, d)));
            assert(open_sides(reached, this)[d.ordinal()] == open_side(reached, this, d));
            assert(open_side(reached, this, d) == open_side(w, this, d));
            assert(reached[this.0].blocks == w[this.0].blocks);
        }
        if stale_at(reached, this) {
            let d = choose|d: Direction|
                reached[this.0].differs(this.1, open_sides(reached, this), d);
            assert(shown(w, this, d) != shown(after, this, d));
        }
        if exists|d: Direction| shown(w, this, d) != shown(after, this, d) {
            let d = choose|d: Direction| shown(w, this, d) != shown(after, this, d);
            assert(reached[this.0].differs(this.1, open_sides(reached, this), d));
        }
    } else {
        assert(reached.contains_key(this.0) == w.contains_key(this.0));
        assert(after.contains_key(this.0) == w.contains_key(this.0));
        if w.contains_key(this.0) {
            assert(reached[this.0].stage() == w[this.0].stage());
            assert(after[this.0].stage() == w[this.0].stage());
        }
    }
}

/// After a change of what the voxel `bc` holds, the chunks reported are
/// exactly those in which a face appeared or disappeared.
proof fn lemma_cascade_report(w: WorldView, changed: WorldView, bc: BlockCoords)
    requires
        forall|cc: ChunkCoords| #[trigger] stage_of(w, cc) == stage_of(changed, cc),
        forall|other: BlockCoords, d: Direction| #[trigger]
            shown(w, other, d) == shown(changed, other, d),
    ensures
        forall|cc: ChunkCoords| #[trigger]
            reported(changed, touched(bc)).contains(cc) <==> exists|other: BlockCoords, d: Direction|
                other.0 == cc && #[trigger] shown(w, other, d) != shown(
                    refreshed_all(changed, touched(bc)),
                    other,
                    d,
                ),
{
    let list = touched(bc);
    let after = refreshed_all(changed, list);
    lemma_touched_through_once(bc, 6);
    lemma_reported(changed, list);
    lemma_refreshed_all(changed, list);
    assert forall|cc: ChunkCoords| #[trigger]
        reported(changed, list).contains(cc) <==> exists|other: BlockCoords, d: Direction|
            other.0 == cc && #[trigger] shown(w, other, d) != shown(after, other, d) by {
        if reported(changed, list).contains(cc) {
            let i = choose|i: int|
                0 <= i < list.len() && list[i].0 == cc && #[trigger] stale_at(
                    refreshed_all(changed, list.subrange(0, i)),
                    list[i],
                );
            lemma_stale_in_turn(changed, list, i);
            let d = choose|d: Direction| shown(changed, list[i], d) != shown(after, list[i], d);
            assert(shown(w, list[i], d) == shown(changed, list[i], d));
            assert(list[i].0 == cc && shown(w, list[i], d) != shown(after, list[i], d));
        }
        if exists|other: BlockCoords, d: Direction|
            other.0 == cc && #[trigger] shown(w, other, d) != shown(after, other, d) {
            let (other, d) = choose|other: BlockCoords, d: Direction|
                other.0 == cc && #[trigger] shown(w, other, d) != shown(after, other, d);
            assert(shown(w, other, d) == shown(changed, other, d));
            assert(changed.contains_key(cc) == after.contains_key(cc));
            if changed.contains_key(cc) {
                assert(changed[cc].stage() == after[cc].stage());
            }
            assert(changed.contains_key(cc) && changed[cc].faces is Some);
            assert(face_settled(changed, after, list, cc, (other.1, d)));
            assert(list.contains(other));
            let i = choose|i: int| 0 <= i < list.len() && list[i] == other;
            lemma_stale_in_turn(changed, list, i);
            assert(stale_at(refreshed_all(changed, list.subrange(0, i)), list[i]));
        }
    }
}

/// The chunks reported when a block is placed are exactly those in which a
/// face appeared or disappeared.
pub proof fn lemma_place_report(w: WorldView, bc: BlockCoords, block: Block, cc: ChunkCoords)
    ensures
        place_report(w, bc, block).contains(cc) <==> exists|other: BlockCoords, d: Direction|
            other.0 == cc && #[trigger] shown(w, other, d) != shown(
                placed(w, bc, block),
                other,
                d,
            ),
{
    let changed = with_block(w, bc, block);
    assert forall|other: BlockCoords, d: Direction| #[trigger]
        shown(w, other, d) == shown(changed, other, d) by {}
    if fills(w, bc) {
        assert forall|c: ChunkCoords| #[trigger] stage_of(w, c) == stage_of(changed, c) by {}
        lemma_cascade_report(w, changed, bc);
        assert(reported(changed, touched(bc)).contains(cc) <==> exists|
            other: BlockCoords,
            d: Direction,
        |
            other.0 == cc && #[trigger] shown(w, other, d) != shown(
                refreshed_all(changed, touched(bc)),
                other,
                d,
            ));
    }
}

/// The chunks reported when a block is removed are exactly those in which
/// a face appeared or disappeared.
pub proof fn lemma_remove_report(w: WorldView, bc: BlockCoords, cc: ChunkCoords)
    ensures
        remove_report(w, bc).contains(cc) <==> exists|other: BlockCoords, d: Direction|
            other.0 == cc && #[trigger] shown(w, other, d) != shown(removed(w, bc), other, d),
{
    if empties(w, bc) {
        let changed = without_block(w, bc);
        assert forall|other: BlockCoords, d: Direction| #[trigger]
            shown(w, other, d) == shown(changed, other, d) by {}
        assert forall|c: ChunkCoords| #[trigger] stage_of(w, c) == stage_of(changed, c) by {}
        lemma_cascade_report(w, changed, bc);
        assert(reported(changed, touched(bc)).contains(cc) <==> exists|
            other: BlockCoords,
            d: Direction,
        |
            other.0 == cc && #[trigger] shown(w, other, d) != shown(
                refreshed_all(changed, touched(bc)),
                other,
                d,
            ));
    }
}

} // verus!
