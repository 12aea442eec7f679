//! What a request to bring a chunk to a stage does to the world.
//!
//! A chunk is meshed from its own blocks and those of the four chunks
//! around it, so before it is meshed those five are loaded. Loading needs
//! nothing else.

use vstd::prelude::*;

use crate::block::Block;
use crate::chunk::ChunkView;
use crate::coords::{BlockIndex, ChunkCoords};
use crate::direction::Direction;
use crate::generator::Generator;
use crate::stage::ChunkStage;
use crate::visibility::{derived_faces, stage_of, surrounded, WorldView};

verus! {

/// True if the chunk `cc` is the same in both worlds: in both absent, or
/// in both present with the same content.
pub open spec fn untouched(before: WorldView, after: WorldView, cc: ChunkCoords) -> bool {
    after.contains_key(cc) == before.contains_key(cc) && (before.contains_key(cc) ==> after[cc]
        == before[cc])
}

/// True if `after` holds the chunk `cc`: as `before` held it, or, where
/// `before` did not hold it, loaded with terrain of the generator.
pub open spec fn brought_in<A: Fn(i32, i32) -> i32>(
    generator: Generator<A>,
    before: WorldView,
    after: WorldView,
    cc: ChunkCoords,
) -> bool {
    after.contains_key(cc) && if before.contains_key(cc) {
        after[cc] == before[cc]
    } else {
        exists|blocks: Map<BlockIndex, Block>| #[trigger]
            generator.generates(cc, blocks) && after[cc] == ChunkView::loaded(blocks)
    }
}

/// True if `after` is `before` with the chunk `cc` and the four chunks
/// around it brought in, and nothing else changed.
pub open spec fn brought_around<A: Fn(i32, i32) -> i32>(
    generator: Generator<A>,
    before: WorldView,
    after: WorldView,
    cc: ChunkCoords,
) -> bool {
    forall|other: ChunkCoords|
        #![trigger after.contains_key(other)]
        #![trigger after[other]]
        if other == cc || cc.is_neighbor(other) {
            brought_in(generator, before, after, other)
        } else {
            untouched(before, after, other)
        }
}

/// The world with the faces of the chunk `cc` derived and recorded.
pub open spec fn with_mesh(w: WorldView, cc: ChunkCoords) -> WorldView {
    w.insert(cc, w[cc].meshed(derived_faces(w, cc)))
}

/// True if `after` is what a request to bring the chunk `cc` to the stage
/// `target` makes of `before`.
///
/// A chunk that is at the stage already, or beyond it, is left alone, and
/// so is the whole world. To load a chunk, terrain of the generator is put
/// in. To mesh a chunk, it and the four chunks around it are brought in
/// first, each left as it is if the world holds it, and then the faces of
/// the chunk are derived from the blocks of those five.
pub open spec fn requested<A: Fn(i32, i32) -> i32>(
    generator: Generator<A>,
    before: WorldView,
    after: WorldView,
    cc: ChunkCoords,
    target: ChunkStage,
) -> bool {
    if stage_of(before, cc).at_least(target) {
        after == before
    } else if target == ChunkStage::Loaded {
        exists|blocks: Map<BlockIndex, Block>| #[trigger]
            generator.generates(cc, blocks) && after == before.insert(
                cc,
                ChunkView::loaded(blocks),
            )
    } else {
        exists|loaded: WorldView| #[trigger]
            brought_around(generator, before, loaded, cc) && after == with_mesh(loaded, cc)
    }
}

/// A request never takes a chunk back to an earlier stage, and it leaves
/// the requested chunk at the target stage or beyond. After a request to
/// mesh, the four chunks around the chunk are loaded.
pub proof fn lemma_requested_stages<A: Fn(i32, i32) -> i32>(
    generator: Generator<A>,
    before: WorldView,
    after: WorldView,
    cc: ChunkCoords,
    target: ChunkStage,
)
    requires
        requested(generator, before, after, cc, target),
    ensures
        forall|other: ChunkCoords| #[trigger]
            stage_of(after, other).at_least(stage_of(before, other)),
        stage_of(after, cc).at_least(target),
        target == ChunkStage::Meshed && !stage_of(before, cc).at_least(target) ==> surrounded(
            after,
            cc,
        ),
{
    if stage_of(before, cc).at_least(target) {
    } else if target == ChunkStage::Loaded {
    } else {
        let loaded = choose|loaded: WorldView| #[trigger]
            brought_around(generator, before, loaded, cc) && after == with_mesh(loaded, cc);
        assert(loaded.contains_key(cc) && brought_in(generator, before, loaded, cc));
        assert forall|other: ChunkCoords| #[trigger]
            stage_of(after, other).at_least(stage_of(before, other)) by {
            assert(loaded.contains_key(other) || !loaded.contains_key(other));
            if other == cc || cc.is_neighbor(other) {
                assert(brought_in(generator, before, loaded, other));
            } else {
                assert(untouched(before, loaded, other));
            }
        }
        assert forall|d: Direction| d.is_cardinal() implies after.contains_key(
            #[trigger] cc.neighbor_of(d),
        ) by {
            let other = cc.neighbor_of(d);
            assert(cc.is_neighbor(other));
            assert(loaded.contains_key(other));
        }
    }
}

/// A second request for the same chunk, with the same target or an earlier
/// one, changes nothing: what the first request loaded is not generated
/// again.
pub proof fn lemma_requested_twice<A: Fn(i32, i32) -> i32>(
    generator: Generator<A>,
    before: WorldView,
    between: WorldView,
    after: WorldView,
    cc: ChunkCoords,
    first: ChunkStage,
    second: ChunkStage,
)
    requires
        requested(generator, before, between, cc, first),
        first.at_least(second),
        requested(generator, between, after, cc, second),
    ensures
        after == between,
{
    lemma_requested_stages(generator, before, between, cc, first);
}

} // verus!
