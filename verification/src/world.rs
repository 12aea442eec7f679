//! The world: the chunks that are loaded, and the operations that load
//! them, derive their faces, and edit their blocks.

use vstd::prelude::*;

use crate::block::Block;
use crate::chunk::{BlocksChunk, ChunkState, ChunkView, Face, FaceEntry, FacesChunk, lists_faces};
use crate::coords::{BlockCoords, BlockIndex, ChunkCoords};
use crate::direction::Direction;
use crate::edit::{
    lemma_placed_consistent, lemma_placed_tagged, lemma_refreshed_consistent,
    lemma_removed_consistent, lemma_removed_tagged, lemma_reported, place_report, placed,
    refreshed_all, refreshed_at, remove_report, removed, reported, stale_at, touched,
    touched_through,
};
use crate::generator::Generator;
use crate::lists::{
    block_list_get, block_list_len, block_list_new, block_list_push, block_list_view, BlockList,
    chunk_list_get, chunk_list_len, chunk_list_new, chunk_list_push, chunk_list_view, ChunkList,
};
use crate::pipeline::{brought_around, brought_in, requested, untouched, with_mesh};
use crate::stage::ChunkStage;
use crate::store::{ChunkStore, store_alter, store_insert, store_new, store_read, store_view};
use crate::visibility::{
    block_of, consistent, derived_faces, exposed, occupied, open_side, open_sides, settled,
    stage_of, surrounded, tagged, WorldView,
};

verus! {

/// A world of voxels. Its chunks are generated on demand by `generator`.
pub struct World<A> {
    chunks: ChunkStore,
    generator: Generator<A>,
}

/// What a store holds, by chunk position.
spec fn content(store: ChunkStore) -> WorldView {
    Map::new(
        |cc: ChunkCoords| store_view(store).contains_key((cc.x, cc.z)),
        |cc: ChunkCoords| store_view(store)[(cc.x, cc.z)]@,
    )
}

/// Putting a chunk into the store puts its content into the world.
proof fn lemma_content_insert(before: ChunkStore, after: ChunkStore, cc: ChunkCoords, state: ChunkState)
    requires
        store_view(after) == store_view(before).insert((cc.x, cc.z), state),
    ensures
        content(after) == content(before).insert(cc, state@),
{
    assert forall|other: ChunkCoords| (other.x, other.z) == (cc.x, cc.z) implies other == cc by {}
    assert(content(after) =~= content(before).insert(cc, state@));
}

/// The faces of the voxels of `cc` with an index below `n`, as they are
/// derived from the blocks.
spec fn derived_below(w: WorldView, cc: ChunkCoords, n: int) -> Map<Face, Block> {
    Map::new(
        |face: Face| face.0.index < n && exposed(w, BlockCoords(cc, face.0), face.1),
        |face: Face| w[cc].blocks[face.0],
    )
}

impl<A> View for World<A> {
    type V = WorldView;

    closed spec fn view(&self) -> WorldView {
        content(self.chunks)
    }
}

impl<A: Fn(i32, i32) -> i32> World<A> {
    /// The generator that lays out the terrain of a chunk when it is
    /// loaded.
    pub closed spec fn spec_generator(&self) -> &Generator<A> {
        &self.generator
    }

    /// Returns the generator that lays out the terrain of a chunk when it
    /// is loaded.
    #[verifier::when_used_as_spec(spec_generator)]
    pub fn generator(&self) -> (r: &Generator<A>)
        ensures
            r == self.spec_generator(),
    {
        &self.generator
    }

    /// Returns a world without chunks.
    pub fn new(generator: Generator<A>) -> (r: Self)
        ensures
            r@ == Map::<ChunkCoords, ChunkView>::empty(),
            *r.generator() == generator,
            consistent(r@),
            tagged(r@),
    {
        let r = World { chunks: store_new(), generator };
        assert(r@ =~= Map::<ChunkCoords, ChunkView>::empty());
        assert forall|cc: ChunkCoords| #[trigger] settled(r@, cc) by {}
        r
    }

    /// Returns the stage of the chunk `cc`.
    pub fn get_chunk_stage(&self, cc: ChunkCoords) -> (r: ChunkStage)
        ensures
            r == stage_of(self@, cc),
    {
        let found = store_read(
            &self.chunks,
            cc,
            |chunk: &ChunkState| -> (stage: ChunkStage)
                ensures
                    stage == chunk@.stage()
                { chunk.get_stage() },
        );
        match found {
            Some(stage) => stage,
            None => ChunkStage::Absent,
        }
    }

    /// Returns what the world knows of the voxel `bc`: `None` if its chunk
    /// is not loaded, `Some(None)` if the voxel is empty, else its block.
    pub fn get_block(&self, bc: BlockCoords) -> (r: Option<Option<Block>>)
        ensures
            r == block_of(self@, bc),
    {
        let bi = bc.1;
        store_read(
            &self.chunks,
            bc.0,
            |chunk: &ChunkState| -> (block: Option<Block>)
                ensures
                    block == chunk@.blocks.get(bi)
                { chunk.get_block(bi) },
        )
    }

    /// Returns the material recorded for the face `d` of the voxel `bc`,
    /// if the chunk is meshed and the face is recorded as visible.
    pub fn get_face(&self, bc: BlockCoords, d: Direction) -> (r: Option<Block>)
        ensures
            r == (if self@.contains_key(bc.0) && self@[bc.0].shows((bc.1, d)) {
                Some(self@[bc.0].faces.unwrap()[(bc.1, d)])
            } else {
                None
            }),
    {
        let face = (bc.1, d);
        let found = store_read(
            &self.chunks,
            bc.0,
            |chunk: &ChunkState| -> (block: Option<Block>)
                ensures
                    block == (if chunk@.shows(face) {
                        Some(chunk@.faces.unwrap()[face])
                    } else {
                        None
                    })
                { chunk.get_face(face) },
        );
        match found {
            Some(block) => block,
            None => None,
        }
    }

    /// Returns the faces recorded for the chunk `cc` with their materials,
    /// each once, in no particular order; `None` if the chunk is not
    /// meshed.
    pub fn faces(&self, cc: ChunkCoords) -> (r: Option<Vec<FaceEntry>>)
        ensures
            r is Some == (stage_of(self@, cc) == ChunkStage::Meshed),
            r is Some ==> lists_faces(r.unwrap()@, self@[cc].faces.unwrap()),
    {
        let found = store_read(
            &self.chunks,
            cc,
            |chunk: &ChunkState| -> (list: Option<Vec<FaceEntry>>)
                ensures
                    list is Some == chunk@.faces is Some,
                    list is Some ==> lists_faces(list.unwrap()@, chunk@.faces.unwrap())
                { chunk.faces() },
        );
        match found {
            Some(list) => list,
            None => None,
        }
    }

    /// Tells whether the voxel beyond the side `d` of `bc` lies in the
    /// world, in a loaded chunk, and is empty.
    pub fn is_open(&self, bc: BlockCoords, d: Direction) -> (r: bool)
        ensures
            r == open_side(self@, bc, d),
    {
        match bc.step(d) {
            Some(beyond) => match self.get_block(beyond) {
                Some(None) => true,
                _ => false,
            },
            None => false,
        }
    }

    /// Tells, for each direction by its position in `Direction::ALL`,
    /// whether the side of `bc` in that direction is open.
    pub fn open_sides(&self, bc: BlockCoords) -> (r: [bool; 6])
        ensures
            r@ == open_sides(self@, bc),
    {
        let r = [
            self.is_open(bc, Direction::North),
            self.is_open(bc, Direction::South),
            self.is_open(bc, Direction::East),
            self.is_open(bc, Direction::West),
            self.is_open(bc, Direction::Up),
            self.is_open(bc, Direction::Down),
        ];
        assert(r@ =~= open_sides(self@, bc));
        r
    }

    /// Puts a chunk with the given blocks at `cc`, loaded and not meshed,
    /// in place of whatever the world held for `cc`.
    pub fn load_chunk(&mut self, cc: ChunkCoords, blocks: BlocksChunk)
        ensures
            final(self).generator() == old(self).generator(),
            final(self)@ == old(self)@.insert(cc, ChunkView::loaded(blocks@)),
            consistent(old(self)@) && stage_of(old(self)@, cc) == ChunkStage::Absent
                ==> consistent(final(self)@),
            tagged(old(self)@) ==> tagged(final(self)@),
    {
        let ghost before = self.chunks;
        let state = ChunkState::Loaded(blocks);
        store_insert(&mut self.chunks, cc, state);
        proof {
            lemma_content_insert(before, self.chunks, cc, state);
            lemma_loaded_consistent(old(self)@, cc, blocks@);
        }
    }

    /// Loads the chunk `cc`: its terrain is generated and takes the place
    /// of whatever the world held for `cc`.
    pub fn chunk_stage_none_to_loaded(&mut self, cc: ChunkCoords)
        requires
            old(self).generator().wf(),
        ensures
            final(self).generator() == old(self).generator(),
            exists|blocks: Map<BlockIndex, Block>| #[trigger]
                final(self).generator().generates(cc, blocks) && final(self)@ == old(self)@.insert(
                    cc,
                    ChunkView::loaded(blocks),
                ),
            consistent(old(self)@) && stage_of(old(self)@, cc) == ChunkStage::Absent
                ==> consistent(final(self)@),
            tagged(old(self)@) ==> tagged(final(self)@),
    {
        let mut chunk = BlocksChunk::new();
        self.generator.gen_chunk(cc, &mut chunk);
        proof {
            assert(self.generator().generates(cc, chunk@));
        }
        self.load_chunk(cc, chunk);
    }

    /// Brings the chunk `cc` to the stage `stage`, unless it is there
    /// already or beyond: first the chunk and the four chunks around it are
    /// brought to the stage before, then the chunk takes the one step to
    /// `stage`. So before a chunk is meshed, it and its neighbors are
    /// loaded; the neighbors need not be meshed themselves.
    pub fn request_chunk_stage(&mut self, cc: ChunkCoords, stage: ChunkStage)
        requires
            old(self).generator().wf(),
        ensures
            final(self).generator() == old(self).generator(),
            requested(*old(self).generator(), old(self)@, final(self)@, cc, stage),
            stage_of(final(self)@, cc).at_least(stage),
            forall|other: ChunkCoords| #[trigger]
                stage_of(final(self)@, other).at_least(stage_of(old(self)@, other)),
            stage_of(old(self)@, cc).at_least(stage) ==> final(self)@ == old(self)@,
            stage == ChunkStage::Meshed && (consistent(old(self)@) || stage_of(old(self)@, cc)
                != ChunkStage::Meshed) ==> surrounded(final(self)@, cc),
            consistent(old(self)@) ==> consistent(final(self)@),
            tagged(old(self)@) ==> tagged(final(self)@),
        decreases stage.rank(),
    {
        let chunk_stage = self.get_chunk_stage(cc);
        proof {
            if consistent(self@) {
                assert(settled(self@, cc));
            }
        }
        if chunk_stage < stage {
            let previous = match stage.previous() {
                Some(previous) => previous,
                None => {
                    return ;
                },
            };
            self.request_chunk_stage(cc, previous);
            let neighbours = cc.neighbors();
            let mut i: usize = 0;
            while i < 4
                invariant
                    0 <= i <= 4,
                    stage.before() == Some(previous),
                    !stage_of(old(self)@, cc).at_least(stage),
                    self.generator() == old(self).generator(),
                    self.generator().wf(),
                    forall|j: int|
                        0 <= j < 4 ==> #[trigger] neighbours[j] == cc.neighbor_of(
                            Direction::CARDINAL[j],
                        ),
                    previous == ChunkStage::Absent ==> self@ == old(self)@,
                    previous == ChunkStage::Loaded ==> forall|other: ChunkCoords|
                        #![trigger self@.contains_key(other)]
                        #![trigger self@[other]]
                        if other == cc || exists|j: int|
                            0 <= j < i && other == cc.neighbor_of(Direction::CARDINAL[j]) {
                            brought_in(*self.generator(), old(self)@, self@, other)
                        } else {
                            untouched(old(self)@, self@, other)
                        },
                    consistent(old(self)@) ==> consistent(self@),
                    tagged(old(self)@) ==> tagged(self@),
                decreases 4 - i,
            {
                let ghost reached = self@;
                let neighbour = neighbours[i];
                self.request_chunk_stage(neighbour, previous);
                proof {
                    assert(neighbour == cc.neighbor_of(Direction::CARDINAL[i as int]));
                    if previous == ChunkStage::Loaded {
                        assert forall|other: ChunkCoords|
                            #![trigger self@.contains_key(other)]
                            #![trigger self@[other]]
                            if other == cc || exists|j: int|
                                0 <= j < i + 1 && other == cc.neighbor_of(Direction::CARDINAL[j]) {
                                brought_in(*self.generator(), old(self)@, self@, other)
                            } else {
                                untouched(old(self)@, self@, other)
                            } by {
                            let was = other == cc || exists|j: int|
                                0 <= j < i && other == cc.neighbor_of(Direction::CARDINAL[j]);
                            assert(reached.contains_key(other) || !reached.contains_key(other));
                            if was {
                                assert(brought_in(*self.generator(), old(self)@, reached, other));
                                assert(reached.contains_key(other));
                                if other == neighbour {
                                    assert(stage_of(reached, neighbour).at_least(
                                        ChunkStage::Loaded,
                                    ));
                                }
                                assert(self@[other] == reached[other]);
                            } else {
                                assert(untouched(old(self)@, reached, other));
                                if other != neighbour {
                                    assert(untouched(reached, self@, other));
                                }
                            }
                        }
                    }
                }
                i += 1;
            }
            match previous {
                ChunkStage::Absent => {
                    self.chunk_stage_none_to_loaded(cc);
                },
                ChunkStage::Loaded => {
                    proof {
                        let loaded = self@;
                        assert forall|other: ChunkCoords|
                            #![trigger loaded.contains_key(other)]
                            #![trigger loaded[other]]
                            if other == cc || cc.is_neighbor(other) {
                                brought_in(*self.generator(), old(self)@, loaded, other)
                            } else {
                                untouched(old(self)@, loaded, other)
                            } by {
                            assert(self@.contains_key(other) || !self@.contains_key(other));
                            if cc.is_neighbor(other) {
                                let d = choose|d: Direction|
                                    d.is_cardinal() && cc.neighbor_of(d) == other;
                                d.lemma_ordinal_nth();
                                assert(0 <= d.ordinal() < 4 && other == cc.neighbor_of(
                                    Direction::CARDINAL[d.ordinal()],
                                ));
                            } else if other != cc {
                                assert forall|j: int| 0 <= j < 4 implies other != cc.neighbor_of(
                                    Direction::CARDINAL[j],
                                ) by {
                                    assert(Direction::CARDINAL[j].is_cardinal());
                                }
                            }
                        }
                        assert(brought_around(*self.generator(), old(self)@, loaded, cc));
                        assert(brought_in(*self.generator(), old(self)@, loaded, cc));
                        assert forall|d: Direction| d.is_cardinal() implies loaded.contains_key(
                            #[trigger] cc.neighbor_of(d),
                        ) by {
                            let other = cc.neighbor_of(d);
                            assert(cc.is_neighbor(other));
                            assert(loaded.contains_key(other) || !loaded.contains_key(other));
                        }
                    }
                    let ghost loaded = self@;
                    self.chunk_stage_loaded_to_meshed(cc);
                    proof {
                        assert(self@ == with_mesh(loaded, cc));
                        assert forall|other: ChunkCoords| #[trigger]
                            stage_of(self@, other).at_least(stage_of(old(self)@, other)) by {
                            assert(loaded.contains_key(other) || !loaded.contains_key(other));
                        }
                        assert forall|d: Direction| d.is_cardinal() implies self@.contains_key(
                            #[trigger] cc.neighbor_of(d),
                        ) by {
                            assert(loaded.contains_key(cc.neighbor_of(d)));
                        }
                    }
                },
                ChunkStage::Meshed => {},
            }
        }
    }

    /// Brings the faces of the voxel `bc` up to date with the blocks around
    /// it, if its chunk is meshed, and tells whether a face appeared or
    /// disappeared.
    pub fn update_block_mesh(&mut self, bc: BlockCoords) -> (r: bool)
        ensures
            final(self).generator() == old(self).generator(),
            final(self)@ == refreshed_at(old(self)@, bc),
            r == stale_at(old(self)@, bc),
            consistent(old(self)@) ==> !r && consistent(final(self)@),
    {
        let bi = bc.1;
        let open = self.open_sides(bc);
        let found = store_read(
            &self.chunks,
            bc.0,
            |chunk: &ChunkState| -> (stale: bool)
                ensures
                    stale == chunk@.stale(bi, open@)
                { chunk.faces_stale(bi, &open) },
        );
        let ghost before = self.chunks;
        store_alter(
            &mut self.chunks,
            bc.0,
            |chunk: ChunkState| -> (fresh: ChunkState)
                ensures
                    fresh@ == chunk@.refreshed(bi, open@)
                { chunk.refresh_faces(bi, &open) },
        );
        proof {
            if store_view(before).contains_key((bc.0.x, bc.0.z)) {
                let state = choose|state: ChunkState|
                    state@ == store_view(before)[(bc.0.x, bc.0.z)]@.refreshed(bi, open@)
                        && store_view(self.chunks) == store_view(before).insert(
                        (bc.0.x, bc.0.z),
                        state,
                    );
                lemma_content_insert(before, self.chunks, bc.0, state);
            } else {
                assert(self@ =~= old(self)@);
            }
            if consistent(old(self)@) {
                lemma_refreshed_consistent(old(self)@, bc);
            }
        }
        match found {
            Some(stale) => stale,
            None => false,
        }
    }

    /// Returns `bc` followed by the voxels beyond its six sides, as far as
    /// they lie in the world.
    fn touched_list(bc: BlockCoords) -> (list: BlockList)
        ensures
            block_list_view(list) == touched(bc),
    {
        let mut list = block_list_new();
        block_list_push(&mut list, bc);
        assert(block_list_view(list) =~= touched_through(bc, 0));
        let mut i: u32 = 0;
        while i < 6
            invariant
                0 <= i <= 6,
                block_list_view(list) == touched_through(bc, i as int),
                block_list_view(list).len() <= i + 1,
            decreases 6 - i,
        {
            let d = Direction::from_index(i);
            match bc.step(d) {
                Some(beyond) => {
                    block_list_push(&mut list, beyond);
                },
                None => {},
            }
            i += 1;
        }
        list
    }

    /// Tells whether `cc` is in the list.
    fn listed(list: &ChunkList, cc: ChunkCoords) -> (r: bool)
        ensures
            r == chunk_list_view(*list).contains(cc),
    {
        let n = chunk_list_len(list);
        let mut i: usize = 0;
        while i < n
            invariant
                0 <= i <= n,
                n == chunk_list_view(*list).len(),
                forall|j: int| 0 <= j < i ==> chunk_list_view(*list)[j] != cc,
            decreases n - i,
        {
            if chunk_list_get(list, i) == cc {
                return true;
            }
            i += 1;
        }
        false
    }

    /// Brings the faces of the listed voxels up to date, one after the
    /// other, and returns the chunks in which a face appeared or
    /// disappeared.
    fn refresh_listed(&mut self, updates: &BlockList) -> (changed: ChunkList)
        ensures
            final(self).generator() == old(self).generator(),
            final(self)@ == refreshed_all(old(self)@, block_list_view(*updates)),
            chunk_list_view(changed) == reported(old(self)@, block_list_view(*updates)),
    {
        let ghost list = block_list_view(*updates);
        let mut changed = chunk_list_new();
        let n = block_list_len(updates);
        let mut i: usize = 0;
        assert(list.subrange(0, 0) =~= Seq::<BlockCoords>::empty());
        while i < n
            invariant
                0 <= i <= n <= 7,
                n == list.len(),
                list == block_list_view(*updates),
                self.generator() == old(self).generator(),
                self@ == refreshed_all(old(self)@, list.subrange(0, i as int)),
                chunk_list_view(changed) == reported(old(self)@, list.subrange(0, i as int)),
                chunk_list_view(changed).len() <= i,
            decreases n - i,
        {
            let bc = block_list_get(updates, i);
            proof {
                assert(list.subrange(0, i + 1).drop_last() =~= list.subrange(0, i as int));
                assert(list.subrange(0, i + 1).last() == bc);
            }
            if self.update_block_mesh(bc) {
                if !Self::listed(&changed, bc.0) {
                    chunk_list_push(&mut changed, bc.0);
                }
            }
            i += 1;
        }
        assert(list.subrange(0, n as int) =~= list);
        changed
    }

    /// Places `block` at `bc` and returns the chunks in which a face
    /// appeared or disappeared.
    ///
    /// A chunk that is not meshed does not take the block. A block placed
    /// on another replaces it, and the faces stay as they are.
    pub fn place_block(&mut self, bc: BlockCoords, block: Block) -> (changed: ChunkList)
        ensures
            final(self).generator() == old(self).generator(),
            final(self)@ == placed(old(self)@, bc, block),
            chunk_list_view(changed) == place_report(old(self)@, bc, block),
            chunk_list_view(changed).no_duplicates(),
            consistent(old(self)@) ==> consistent(final(self)@),
            tagged(old(self)@) && (stage_of(old(self)@, bc.0) == ChunkStage::Meshed && occupied(
                old(self)@,
                bc,
            ) ==> old(self)@[bc.0].blocks[bc.1] == block) ==> tagged(final(self)@),
    {
        let bi = bc.1;
        let mut updates = block_list_new();
        if self.get_chunk_stage(bc.0) == ChunkStage::Meshed {
            let vacant = match self.get_block(bc) {
                Some(None) => true,
                _ => false,
            };
            if vacant {
                updates = Self::touched_list(bc);
            }
        }
        let ghost before = self.chunks;
        store_alter(
            &mut self.chunks,
            bc.0,
            |chunk: ChunkState| -> (r: ChunkState)
                ensures
                    r@ == chunk@.with_block(bi, block)
                { chunk.with_block(bi, block) },
        );
        proof {
            if store_view(before).contains_key((bc.0.x, bc.0.z)) {
                let state = choose|state: ChunkState|
                    state@ == store_view(before)[(bc.0.x, bc.0.z)]@.with_block(bi, block)
                        && store_view(self.chunks) == store_view(before).insert(
                        (bc.0.x, bc.0.z),
                        state,
                    );
                lemma_content_insert(before, self.chunks, bc.0, state);
            } else {
                assert(self@ =~= old(self)@);
            }
            assert(self@ == crate::edit::with_block(old(self)@, bc, block));
            lemma_reported(self@, block_list_view(updates));
            if consistent(old(self)@) {
                lemma_placed_consistent(old(self)@, bc, block);
            }
            if tagged(old(self)@) && (stage_of(old(self)@, bc.0) == ChunkStage::Meshed && occupied(
                old(self)@,
                bc,
            ) ==> old(self)@[bc.0].blocks[bc.1] == block) {
                lemma_placed_tagged(old(self)@, bc, block);
            }
        }
        self.refresh_listed(&updates)
    }

    /// Removes the block at `bc` and returns the chunks in which a face
    /// appeared or disappeared. Where the voxel is empty or its chunk is
    /// not meshed, nothing changes.
    pub fn remove_block(&mut self, bc: BlockCoords) -> (changed: ChunkList)
        ensures
            final(self).generator() == old(self).generator(),
            final(self)@ == removed(old(self)@, bc),
            chunk_list_view(changed) == remove_report(old(self)@, bc),
            chunk_list_view(changed).no_duplicates(),
            consistent(old(self)@) ==> consistent(final(self)@),
            tagged(old(self)@) ==> tagged(final(self)@),
    {
        let bi = bc.1;
        let mut updates = block_list_new();
        if self.get_chunk_stage(bc.0) == ChunkStage::Meshed {
            let taken = match self.get_block(bc) {
                Some(Some(_)) => true,
                _ => false,
            };
            if taken {
                updates = Self::touched_list(bc);
                let ghost before = self.chunks;
                store_alter(
                    &mut self.chunks,
                    bc.0,
                    |chunk: ChunkState| -> (r: ChunkState)
                        ensures
                            r@ == chunk@.without_block(bi)
                        { chunk.without_block(bi) },
                );
                proof {
                    let state = choose|state: ChunkState|
                        state@ == store_view(before)[(bc.0.x, bc.0.z)]@.without_block(bi)
                            && store_view(self.chunks) == store_view(before).insert(
                            (bc.0.x, bc.0.z),
                            state,
                        );
                    lemma_content_insert(before, self.chunks, bc.0, state);
                    assert(self@ == crate::edit::without_block(old(self)@, bc));
                }
            }
        }
        proof {
            lemma_reported(self@, block_list_view(updates));
            if consistent(old(self)@) {
                lemma_removed_consistent(old(self)@, bc);
            }
            if tagged(old(self)@) {
                lemma_removed_tagged(old(self)@, bc);
            }
        }
        self.refresh_listed(&updates)
    }

    /// Derives the faces of the chunk `cc` from the blocks of the world.
    fn derive_faces(&self, cc: ChunkCoords) -> (faces: FacesChunk)
        requires
            self@.contains_key(cc),
        ensures
            faces@ == derived_faces(self@, cc),
    {
        let mut faces = FacesChunk::new();
        let mut walk = BlockIndex::all();
        let ghost all = walk.remaining();
        let ghost mut n: int = 0;
        proof {
            assert(faces@ =~= derived_below(self@, cc, 0));
            assert(all.subrange(0, 0x1_0000) =~= all);
        }
        loop
            invariant
                0 <= n <= 0x1_0000,
                self@.contains_key(cc),
                all.len() == 0x1_0000,
                forall|i: int|
                    0 <= i < 0x1_0000 ==> #[trigger] all[i] == (BlockIndex { index: i as u16 }),
                walk.remaining() == all.subrange(n, 0x1_0000),
                faces@ == derived_below(self@, cc, n),
            ensures
                faces@ == derived_below(self@, cc, 0x1_0000),
            decreases 0x1_0000 - n,
        {
            let bi = match walk.next() {
                Some(bi) => bi,
                None => {
                    break;
                },
            };
            proof {
                assert(bi == all[n]);
                assert(all.subrange(n, 0x1_0000).drop_first() =~= all.subrange(n + 1, 0x1_0000));
            }
            let bc = BlockCoords(cc, bi);
            let found = match self.get_block(bc) {
                Some(block) => block,
                None => None,
            };
            if found.is_some() {
                let open = self.open_sides(bc);
                faces.refresh(bi, found, &open);
                proof {
                    assert forall|face: Face| face.0 == bi implies open@[face.1.ordinal()]
                        == open_side(self@, bc, face.1) by {
                        face.1.lemma_ordinal_nth();
                    }
                }
            }
            proof {
                assert(faces@ =~= derived_below(self@, cc, n + 1));
                n = n + 1;
            }
        }
        assert(faces@ =~= derived_faces(self@, cc));
        faces
    }

    /// Meshes the loaded chunk `cc`: its faces are derived from the blocks
    /// of the world and recorded.
    pub fn chunk_stage_loaded_to_meshed(&mut self, cc: ChunkCoords)
        requires
            stage_of(old(self)@, cc) == ChunkStage::Loaded,
        ensures
            final(self).generator() == old(self).generator(),
            final(self)@ == old(self)@.insert(
                cc,
                old(self)@[cc].meshed(derived_faces(old(self)@, cc)),
            ),
            consistent(old(self)@) && surrounded(old(self)@, cc) ==> consistent(final(self)@),
            tagged(old(self)@) ==> tagged(final(self)@),
    {
        let faces = self.derive_faces(cc);
        let ghost before = self.chunks;
        let ghost derived = faces@;
        store_alter(
            &mut self.chunks,
            cc,
            |chunk: ChunkState| -> (meshed: ChunkState)
                requires
                    chunk@.stage() == ChunkStage::Loaded,
                ensures
                    meshed@ == chunk@.meshed(faces@)
                { chunk.into_meshed(faces) },
        );
        proof {
            let state = choose|state: ChunkState|
                state@ == store_view(before)[(cc.x, cc.z)]@.meshed(derived) && store_view(
                    self.chunks,
                ) == store_view(before).insert((cc.x, cc.z), state);
            lemma_content_insert(before, self.chunks, cc, state);
            lemma_meshed_consistent(old(self)@, cc);
        }
    }
}

/// Loading a chunk that was absent keeps the world consistent: no meshed
/// chunk has a face that looks at it.
pub proof fn lemma_loaded_consistent(w: WorldView, cc: ChunkCoords, blocks: Map<BlockIndex, Block>)
    ensures
        consistent(w) && stage_of(w, cc) == ChunkStage::Absent ==> consistent(
            w.insert(cc, ChunkView::loaded(blocks)),
        ),
        tagged(w) ==> tagged(w.insert(cc, ChunkView::loaded(blocks))),
{
    let after = w.insert(cc, ChunkView::loaded(blocks));
    if consistent(w) && stage_of(w, cc) == ChunkStage::Absent {
        assert forall|other: ChunkCoords| #[trigger] settled(after, other) by {
            assert(settled(w, other));
            if stage_of(after, other) == ChunkStage::Meshed {
                assert(other != cc);
                assert forall|d: Direction| d.is_cardinal() implies after.contains_key(
                    #[trigger] other.neighbor_of(d),
                ) by {
                    assert(w.contains_key(other.neighbor_of(d)));
                }
                assert forall|face: Face| #[trigger]
                    after[other].shows(face) <==> exposed(
                        after,
                        BlockCoords(other, face.0),
                        face.1,
                    ) by {
                    let bc = BlockCoords(other, face.0);
                    assert(w[other].shows(face) <==> exposed(w, bc, face.1));
                    if bc.step_spec(face.1) is Some {
                        bc.lemma_step_chunk(face.1);
                        let beyond = bc.step_spec(face.1).unwrap();
                        if beyond.0 != other {
                            assert(w.contains_key(other.neighbor_of(face.1)));
                        }
                        assert(beyond.0 != cc);
                    }
                }
            }
        }
    }
    if tagged(w) {
        assert forall|other: ChunkCoords, face: Face|
            after.contains_key(other) && #[trigger] after[other].shows(face)
                implies after[other].blocks.contains_key(face.0) && after[other].faces.unwrap()[face]
                == after[other].blocks[face.0] by {
            assert(other != cc);
            assert(w[other].shows(face));
        }
    }
}

/// Meshing a loaded chunk whose four neighbors are loaded keeps the world
/// consistent, and the faces that it records carry the material of their
/// blocks.
pub proof fn lemma_meshed_consistent(w: WorldView, cc: ChunkCoords)
    requires
        stage_of(w, cc) == ChunkStage::Loaded,
    ensures
        consistent(w) && surrounded(w, cc) ==> consistent(
            w.insert(cc, w[cc].meshed(derived_faces(w, cc))),
        ),
        tagged(w) ==> tagged(w.insert(cc, w[cc].meshed(derived_faces(w, cc)))),
{
    let after = w.insert(cc, w[cc].meshed(derived_faces(w, cc)));
    assert forall|other: ChunkCoords|
        #![trigger w.contains_key(other)]
        #![trigger after.contains_key(other)]
        #![trigger w[other]]
        #![trigger after[other]]
        w.contains_key(other) == after.contains_key(other) && (w.contains_key(other)
            ==> w[other].blocks == after[other].blocks) by {}
    assert forall|bc: BlockCoords, d: Direction|
        exposed(w, bc, d) == #[trigger] exposed(after, bc, d) by {
        assert(w.contains_key(bc.0) == after.contains_key(bc.0));
        if bc.step_spec(d) is Some {
            let beyond = bc.step_spec(d).unwrap();
            assert(w.contains_key(beyond.0) == after.contains_key(beyond.0));
        }
    }
    if consistent(w) && surrounded(w, cc) {
        assert forall|other: ChunkCoords| #[trigger] settled(after, other) by {
            assert(settled(w, other));
            if stage_of(after, other) == ChunkStage::Meshed {
                assert forall|d: Direction| d.is_cardinal() implies after.contains_key(
                    #[trigger] other.neighbor_of(d),
                ) by {
                    assert(w.contains_key(other.neighbor_of(d)));
                }
                assert forall|face: Face| #[trigger]
                    after[other].shows(face) <==> exposed(
                        after,
                        BlockCoords(other, face.0),
                        face.1,
                    ) by {
                    if other != cc {
                        assert(w[other].shows(face) <==> exposed(
                            w,
                            BlockCoords(other, face.0),
                            face.1,
                        ));
                    }
                }
            }
        }
    }
    if tagged(w) {
        assert forall|other: ChunkCoords, face: Face|
            after.contains_key(other) && #[trigger] after[other].shows(face)
                implies after[other].blocks.contains_key(face.0) && after[other].faces.unwrap()[face]
                == after[other].blocks[face.0] by {
            if other != cc {
                assert(w[other].shows(face));
            }
        }
    }
}

} // verus!
