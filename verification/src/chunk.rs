//! What the world holds of one chunk: its blocks, and once they have been
//! derived the faces of those blocks that can be seen.

use std::collections::HashMap;
use vstd::prelude::*;
use vstd::std_specs::iter::IteratorSpec;

use crate::block::Block;
use crate::coords::BlockIndex;
use crate::direction::Direction;
use crate::stage::ChunkStage;

verus! {

broadcast use vstd::std_specs::hash::group_hash_axioms;

/// One side of one voxel of a chunk.
pub type Face = (BlockIndex, Direction);

/// The blocks of a chunk. A voxel without an entry is empty.
pub struct BlocksChunk {
    cells: HashMap<u16, Block>,
}

impl View for BlocksChunk {
    type V = Map<BlockIndex, Block>;

    closed spec fn view(&self) -> Map<BlockIndex, Block> {
        Map::new(
            |bi: BlockIndex| self.cells@.contains_key(bi.index),
            |bi: BlockIndex| self.cells@[bi.index],
        )
    }
}

impl BlocksChunk {
    /// Returns a chunk without blocks.
    pub fn new() -> (r: Self)
        ensures
            r@ == Map::<BlockIndex, Block>::empty(),
    {
        let r = BlocksChunk { cells: HashMap::new() };
        assert(r@ =~= Map::<BlockIndex, Block>::empty());
        r
    }

    /// Returns the block at `bi`, if there is one.
    pub fn get(&self, bi: BlockIndex) -> (r: Option<Block>)
        ensures
            r == self@.get(bi),
    {
        match self.cells.get(&bi.index) {
            Some(block) => Some(*block),
            None => None,
        }
    }

    /// Puts `block` at `bi` and returns the block that was there before.
    pub fn insert(&mut self, bi: BlockIndex, block: Block) -> (r: Option<Block>)
        ensures
            final(self)@ == old(self)@.insert(bi, block),
            r == old(self)@.get(bi),
    {
        let r = self.cells.insert(bi.index, block);
        assert(self@ =~= old(self)@.insert(bi, block));
        r
    }

    /// Empties the voxel at `bi` and returns the block that was there.
    pub fn remove(&mut self, bi: BlockIndex) -> (r: Option<Block>)
        ensures
            final(self)@ == old(self)@.remove(bi),
            r == old(self)@.get(bi),
    {
        let r = self.cells.remove(&bi.index);
        assert(self@ =~= old(self)@.remove(bi));
        r
    }
}

/// The visible faces of a chunk, each with the material of its block.
pub struct FacesChunk {
    north: HashMap<u16, Block>,
    south: HashMap<u16, Block>,
    east: HashMap<u16, Block>,
    west: HashMap<u16, Block>,
    up: HashMap<u16, Block>,
    down: HashMap<u16, Block>,
}

impl View for FacesChunk {
    type V = Map<Face, Block>;

    closed spec fn view(&self) -> Map<Face, Block> {
        Map::new(
            |face: Face| self.side(face.1).contains_key(face.0.index),
            |face: Face| self.side(face.1)[face.0.index],
        )
    }
}

impl FacesChunk {
    /// The visible faces that look in one direction, by the index of their
    /// voxel.
    closed spec fn side(self, direction: Direction) -> Map<u16, Block> {
        match direction {
            Direction::North => self.north@,
            Direction::South => self.south@,
            Direction::East => self.east@,
            Direction::West => self.west@,
            Direction::Up => self.up@,
            Direction::Down => self.down@,
        }
    }

    /// Returns a chunk without visible faces.
    pub fn new() -> (r: Self)
        ensures
            r@ == Map::<Face, Block>::empty(),
    {
        let r = FacesChunk {
            north: HashMap::new(),
            south: HashMap::new(),
            east: HashMap::new(),
            west: HashMap::new(),
            up: HashMap::new(),
            down: HashMap::new(),
        };
        assert(r@ =~= Map::<Face, Block>::empty());
        r
    }

    /// Returns the material recorded for `face`, if the face is visible.
    pub fn get(&self, face: Face) -> (r: Option<Block>)
        ensures
            r == self@.get(face),
    {
        let found = match face.1 {
            Direction::North => self.north.get(&face.0.index),
            Direction::South => self.south.get(&face.0.index),
            Direction::East => self.east.get(&face.0.index),
            Direction::West => self.west.get(&face.0.index),
            Direction::Up => self.up.get(&face.0.index),
            Direction::Down => self.down.get(&face.0.index),
        };
        match found {
            Some(block) => Some(*block),
            None => None,
        }
    }

    /// Records `face` as visible, with the material `block`, and returns
    /// the material that was recorded before.
    pub fn insert(&mut self, face: Face, block: Block) -> (r: Option<Block>)
        ensures
            final(self)@ == old(self)@.insert(face, block),
            r == old(self)@.get(face),
    {
        let r = match face.1 {
            Direction::North => self.north.insert(face.0.index, block),
            Direction::South => self.south.insert(face.0.index, block),
            Direction::East => self.east.insert(face.0.index, block),
            Direction::West => self.west.insert(face.0.index, block),
            Direction::Up => self.up.insert(face.0.index, block),
            Direction::Down => self.down.insert(face.0.index, block),
        };
        assert(self@ =~= old(self)@.insert(face, block));
        r
    }

    /// Brings the faces of the voxel at `bi` up to date: where the voxel
    /// holds `block`, each side `d` with `open[d]` becomes a visible face
    /// with the material of the block and every other side becomes hidden;
    /// where it is empty, all six become hidden.
    pub fn refresh(&mut self, bi: BlockIndex, block: Option<Block>, open: &[bool; 6])
        ensures
            final(self)@ == refreshed_map(old(self)@, bi, block, open@),
    {
        let ghost goal = refreshed_map(old(self)@, bi, block, open@);
        let mut i: u32 = 0;
        while i < 6
            invariant
                0 <= i <= 6,
                goal == refreshed_map(old(self)@, bi, block, open@),
                forall|face: Face|
                    #![trigger self@.contains_key(face)]
                    #![trigger self@[face]]
                    if face.0 == bi && face.1.ordinal() < i {
                        self@.contains_key(face) == goal.contains_key(face) && (
                        self@.contains_key(face) ==> self@[face] == goal[face])
                    } else {
                        self@.contains_key(face) == old(self)@.contains_key(face) && (
                        self@.contains_key(face) ==> self@[face] == old(self)@[face])
                    },
            decreases 6 - i,
        {
            let d = Direction::from_index(i);
            match block {
                Some(material) => {
                    if open[i as usize] {
                        self.insert((bi, d), material);
                    } else {
                        self.remove((bi, d));
                    }
                },
                None => {
                    self.remove((bi, d));
                },
            }
            proof {
                assert forall|face: Face| face.0 == bi && face.1.ordinal() == i implies face == (
                    bi,
                    d,
                ) by {
                    face.1.lemma_ordinal_nth();
                }
            }
            i += 1;
        }
        proof {
            assert forall|face: Face|
                self@.contains_key(face) == goal.contains_key(face) && (self@.contains_key(face)
                    ==> self@[face] == goal[face]) by {
                face.1.lemma_ordinal_nth();
            }
            assert(self@ =~= goal);
        }
    }

    /// Returns the visible faces with their materials, each once, in no
    /// particular order.
    pub fn entries(&self) -> (out: Vec<FaceEntry>)
        ensures
            lists_faces(out@, self@),
    {
        let north = side_entries(&self.north, Direction::North);
        let south = side_entries(&self.south, Direction::South);
        let east = side_entries(&self.east, Direction::East);
        let west = side_entries(&self.west, Direction::West);
        let up = side_entries(&self.up, Direction::Up);
        let down = side_entries(&self.down, Direction::Down);
        let mut out: Vec<FaceEntry> = Vec::new();
        append_entries(&mut out, north);
        append_entries(&mut out, south);
        append_entries(&mut out, east);
        append_entries(&mut out, west);
        append_entries(&mut out, up);
        append_entries(&mut out, down);
        proof {
            let a = north@.len() as int;
            let b = a + south@.len();
            let c = b + east@.len();
            let e = c + west@.len();
            let f = e + up@.len();
            assert(out@ =~= north@ + south@ + east@ + west@ + up@ + down@);
            assert forall|i: int| 0 <= i < out@.len() implies self.side(
                (#[trigger] out@[i]).1,
            ).contains_key(out@[i].0.index) && self.side(out@[i].1)[out@[i].0.index] == out@[i].2
                && (out@[i].1.ordinal() == 0 <==> i < a) && (out@[i].1.ordinal() == 1 <==> a <= i
                < b) && (out@[i].1.ordinal() == 2 <==> b <= i < c) && (out@[i].1.ordinal() == 3 <==> c
                <= i < e) && (out@[i].1.ordinal() == 4 <==> e <= i < f) by {
                if i < a {
                    assert(out@[i] == north@[i]);
                } else if i < b {
                    assert(out@[i] == south@[i - a]);
                } else if i < c {
                    assert(out@[i] == east@[i - b]);
                } else if i < e {
                    assert(out@[i] == west@[i - c]);
                } else if i < f {
                    assert(out@[i] == up@[i - e]);
                } else {
                    assert(out@[i] == down@[i - f]);
                }
            }
            assert forall|face: Face| self@.contains_key(face) implies exists|i: int|
                0 <= i < out@.len() && (#[trigger] out@[i]).0 == face.0 && out@[i].1 == face.1 by {
                let k = face.0.index;
                match face.1 {
                    Direction::North => {
                        let i = choose|i: int|
                            0 <= i < north@.len() && (#[trigger] north@[i]).0.index == k;
                        assert(out@[i] == north@[i]);
                    },
                    Direction::South => {
                        let i = choose|i: int|
                            0 <= i < south@.len() && (#[trigger] south@[i]).0.index == k;
                        assert(out@[a + i] == south@[i]);
                    },
                    Direction::East => {
                        let i = choose|i: int|
                            0 <= i < east@.len() && (#[trigger] east@[i]).0.index == k;
                        assert(out@[b + i] == east@[i]);
                    },
                    Direction::West => {
                        let i = choose|i: int|
                            0 <= i < west@.len() && (#[trigger] west@[i]).0.index == k;
                        assert(out@[c + i] == west@[i]);
                    },
                    Direction::Up => {
                        let i = choose|i: int|
                            0 <= i < up@.len() && (#[trigger] up@[i]).0.index == k;
                        assert(out@[e + i] == up@[i]);
                    },
                    Direction::Down => {
                        let i = choose|i: int|
                            0 <= i < down@.len() && (#[trigger] down@[i]).0.index == k;
                        assert(out@[f + i] == down@[i]);
                    },
                }
            }
            assert forall|i: int, j: int| 0 <= i < j < out@.len() implies !((#[trigger] out@[i]).0
                == (#[trigger] out@[j]).0 && out@[i].1 == out@[j].1) by {
                if i < a {
                    assert(out@[i] == north@[i]);
                    if j < a {
                        assert(out@[j] == north@[j]);
                    }
                } else if i < b {
                    assert(out@[i] == south@[i - a]);
                    if j < b {
                        assert(out@[j] == south@[j - a]);
                    }
                } else if i < c {
                    assert(out@[i] == east@[i - b]);
                    if j < c {
                        assert(out@[j] == east@[j - b]);
                    }
                } else if i < e {
                    assert(out@[i] == west@[i - c]);
                    if j < e {
                        assert(out@[j] == west@[j - c]);
                    }
                } else if i < f {
                    assert(out@[i] == up@[i - e]);
                    if j < f {
                        assert(out@[j] == up@[j - e]);
                    }
                } else {
                    assert(out@[i] == down@[i - f]);
                    assert(out@[j] == down@[j - f]);
                }
            }
        }
        out
    }

    /// Records `face` as hidden and returns the material that was recorded
    /// for it.
    pub fn remove(&mut self, face: Face) -> (r: Option<Block>)
        ensures
            final(self)@ == old(self)@.remove(face),
            r == old(self)@.get(face),
    {
        let r = match face.1 {
            Direction::North => self.north.remove(&face.0.index),
            Direction::South => self.south.remove(&face.0.index),
            Direction::East => self.east.remove(&face.0.index),
            Direction::West => self.west.remove(&face.0.index),
            Direction::Up => self.up.remove(&face.0.index),
            Direction::Down => self.down.remove(&face.0.index),
        };
        assert(self@ =~= old(self)@.remove(face));
        r
    }
}

/// The faces `faces` after those of the voxel at `bi` were brought up to
/// date: where the voxel holds `block`, the side `d` is visible if
/// `open[d]` says that the voxel beyond that side is empty, and carries the
/// material of the block; where the voxel is empty, none of its sides is
/// visible. The faces of all other voxels stay as they are.
pub open spec fn refreshed_map(
    faces: Map<Face, Block>,
    bi: BlockIndex,
    block: Option<Block>,
    open: Seq<bool>,
) -> Map<Face, Block> {
    Map::new(
        |face: Face|
            if face.0 == bi {
                block is Some && open[face.1.ordinal()]
            } else {
                faces.contains_key(face)
            },
        |face: Face|
            if face.0 == bi {
                block.unwrap()
            } else {
                faces[face]
            },
    )
}

/// A visible face with the material of its block.
pub type FaceEntry = (BlockIndex, Direction, Block);

/// True if `list` holds each face of `faces` exactly once, with its
/// material, and nothing else.
pub open spec fn lists_faces(list: Seq<FaceEntry>, faces: Map<Face, Block>) -> bool {
    &&& forall|i: int|
        0 <= i < list.len() ==> faces.contains_key(((#[trigger] list[i]).0, list[i].1))
            && faces[(list[i].0, list[i].1)] == list[i].2
    &&& forall|face: Face|
        faces.contains_key(face) ==> exists|i: int|
            0 <= i < list.len() && (#[trigger] list[i]).0 == face.0 && list[i].1 == face.1
    &&& forall|i: int, j: int|
        0 <= i < j < list.len() ==> !((#[trigger] list[i]).0 == (#[trigger] list[j]).0 && list[i].1
            == list[j].1)
}

/// A list that holds each face exactly once is as long as there are faces.
pub proof fn lemma_lists_faces_count(list: Seq<FaceEntry>, faces: Map<Face, Block>)
    requires
        lists_faces(list, faces),
    ensures
        faces.dom().finite(),
        faces.dom().len() == list.len(),
{
    let keys = list.map_values(|entry: FaceEntry| (entry.0, entry.1));
    assert(keys.no_duplicates()) by {
        assert forall|i: int, j: int| 0 <= i < keys.len() && 0 <= j < keys.len() && i != j
            implies keys[i] != keys[j] by {
            if i < j {
                assert(!(list[i].0 == list[j].0 && list[i].1 == list[j].1));
            } else {
                assert(!(list[j].0 == list[i].0 && list[j].1 == list[i].1));
            }
        }
    }
    assert(keys.to_set() =~= faces.dom()) by {
        assert forall|face: Face| keys.to_set().contains(face) == faces.dom().contains(face) by {
            if keys.contains(face) {
                let i = choose|i: int| 0 <= i < keys.len() && keys[i] == face;
                assert(faces.contains_key((list[i].0, list[i].1)));
            }
            if faces.contains_key(face) {
                let i = choose|i: int|
                    0 <= i < list.len() && (#[trigger] list[i]).0 == face.0 && list[i].1 == face.1;
                assert(keys[i] == face);
            }
        }
    }
    keys.unique_seq_to_set();
}

/// True if `list` holds each entry of `side` exactly once, as a face that
/// looks in the direction `d`, and nothing else.
spec fn lists_side(list: Seq<FaceEntry>, side: Map<u16, Block>, d: Direction) -> bool {
    &&& forall|i: int|
        0 <= i < list.len() ==> side.contains_key((#[trigger] list[i]).0.index) && list[i].1 == d
            && side[list[i].0.index] == list[i].2
    &&& forall|k: u16|
        side.contains_key(k) ==> exists|i: int|
            0 <= i < list.len() && (#[trigger] list[i]).0.index == k
    &&& forall|i: int, j: int|
        0 <= i < j < list.len() ==> (#[trigger] list[i]).0 != (#[trigger] list[j]).0
}

/// Lists the entries of one side as faces that look in the direction `d`.
fn side_entries(side: &HashMap<u16, Block>, d: Direction) -> (out: Vec<FaceEntry>)
    ensures
        lists_side(out@, side@, d),
{
    let mut out: Vec<FaceEntry> = Vec::new();
    let entries = side.iter();
    let ghost all = entries.remaining();
    for pair in it: entries
        invariant
            out@.len() == it.index(),
            it.seq() == all,
            forall|i: int|
                0 <= i < out@.len() ==> (#[trigger] out@[i]).0.index == *all[i].0 && out@[i].1 == d
                    && out@[i].2 == *all[i].1,
    {
        let (index, block) = pair;
        out.push((BlockIndex { index: *index }, d, *block));
    }
    proof {
        assert forall|i: int, j: int| 0 <= i < j < out@.len() implies (#[trigger] out@[i]).0 != (
        #[trigger] out@[j]).0 by {
            if out@[i].0 == out@[j].0 {
                assert(side@.contains_key(*all[i].0) && side@[*all[i].0] == *all[i].1);
                assert(side@.contains_key(*all[j].0) && side@[*all[j].0] == *all[j].1);
                assert(all[i] == all[j]);
            }
        }
        assert forall|k: u16| side@.contains_key(k) implies exists|i: int|
            0 <= i < out@.len() && (#[trigger] out@[i]).0.index == k by {
            assert(all.contains((&k, &side@[k])));
            let i = choose|i: int| 0 <= i < all.len() && all[i] == (&k, &side@[k]);
            assert(out@[i].0.index == k);
        }
    }
    out
}

/// Moves the items of `more` to the end of `list`.
fn append_entries(list: &mut Vec<FaceEntry>, more: Vec<FaceEntry>)
    ensures
        final(list)@ == old(list)@ + more@,
{
    let mut i: usize = 0;
    while i < more.len()
        invariant
            0 <= i <= more.len(),
            list@ == old(list)@ + more@.subrange(0, i as int),
        decreases more.len() - i,
    {
        list.push(more[i]);
        assert(list@ =~= old(list)@ + more@.subrange(0, i + 1));
        i += 1;
    }
    assert(more@.subrange(0, more.len() as int) =~= more@);
}

/// What a chunk holds, as mathematical maps: its blocks, and its visible
/// faces once they have been derived.
pub struct ChunkView {
    pub blocks: Map<BlockIndex, Block>,
    pub faces: Option<Map<Face, Block>>,
}

impl ChunkView {
    /// The stage of a chunk with this content.
    pub open spec fn stage(self) -> ChunkStage {
        if self.faces is Some {
            ChunkStage::Meshed
        } else {
            ChunkStage::Loaded
        }
    }

    /// True if `face` is recorded as visible.
    pub open spec fn shows(self, face: Face) -> bool {
        self.faces is Some && self.faces.unwrap().contains_key(face)
    }

    /// The content after `block` was put at `bi`. Only a meshed chunk takes
    /// the block.
    pub open spec fn with_block(self, bi: BlockIndex, block: Block) -> ChunkView {
        if self.faces is Some {
            ChunkView { blocks: self.blocks.insert(bi, block), faces: self.faces }
        } else {
            self
        }
    }

    /// The content after the voxel at `bi` was emptied. Only a meshed chunk
    /// gives the block up.
    pub open spec fn without_block(self, bi: BlockIndex) -> ChunkView {
        if self.faces is Some {
            ChunkView { blocks: self.blocks.remove(bi), faces: self.faces }
        } else {
            self
        }
    }

    /// The content after the faces were derived.
    pub open spec fn meshed(self, faces: Map<Face, Block>) -> ChunkView {
        ChunkView { blocks: self.blocks, faces: Some(faces) }
    }

    /// The content of a chunk that was loaded with `blocks`.
    pub open spec fn loaded(blocks: Map<BlockIndex, Block>) -> ChunkView {
        ChunkView { blocks, faces: None }
    }

    /// The faces of a meshed chunk after those of the voxel at `bi` were
    /// brought up to date.
    pub open spec fn refreshed_faces(self, bi: BlockIndex, open: Seq<bool>) -> Map<Face, Block> {
        refreshed_map(self.faces.unwrap(), bi, self.blocks.get(bi), open)
    }

    /// The content after the faces of the voxel at `bi` were brought up to
    /// date. A chunk that is not meshed has no faces and stays as it is.
    pub open spec fn refreshed(self, bi: BlockIndex, open: Seq<bool>) -> ChunkView {
        if self.faces is Some {
            ChunkView { blocks: self.blocks, faces: Some(self.refreshed_faces(bi, open)) }
        } else {
            self
        }
    }

    /// True if the side `d` of the voxel at `bi` is recorded as visible
    /// although it should be hidden, or the other way round.
    pub open spec fn differs(self, bi: BlockIndex, open: Seq<bool>, d: Direction) -> bool {
        self.shows((bi, d)) != (self.blocks.contains_key(bi) && open[d.ordinal()])
    }

    /// True if bringing the faces of the voxel at `bi` up to date makes a
    /// hidden face visible or a visible face hidden.
    pub open spec fn stale(self, bi: BlockIndex, open: Seq<bool>) -> bool {
        self.faces is Some && exists|d: Direction| self.differs(bi, open, d)
    }
}

/// A chunk that the world holds.
pub enum ChunkState {
    /// The blocks are known.
    Loaded(BlocksChunk),
    /// The blocks are known and their visible faces have been derived.
    Meshed(BlocksChunk, FacesChunk),
}

impl View for ChunkState {
    type V = ChunkView;

    open spec fn view(&self) -> ChunkView {
        match self {
            ChunkState::Loaded(blocks) => ChunkView { blocks: blocks@, faces: None },
            ChunkState::Meshed(blocks, faces) => ChunkView { blocks: blocks@, faces: Some(faces@) },
        }
    }
}

impl ChunkState {
    /// Returns the block at `bi`, if there is one.
    pub fn get_block(&self, bi: BlockIndex) -> (r: Option<Block>)
        ensures
            r == self@.blocks.get(bi),
    {
        match self {
            ChunkState::Loaded(blocks) => blocks.get(bi),
            ChunkState::Meshed(blocks, _) => blocks.get(bi),
        }
    }

    /// Returns the stage of the chunk.
    pub fn get_stage(&self) -> (r: ChunkStage)
        ensures
            r == self@.stage(),
            r != ChunkStage::Absent,
    {
        match self {
            ChunkState::Loaded(_) => ChunkStage::Loaded,
            ChunkState::Meshed(_, _) => ChunkStage::Meshed,
        }
    }

    /// Returns the material recorded for `face`, if the chunk is meshed
    /// and the face is visible.
    pub fn get_face(&self, face: Face) -> (r: Option<Block>)
        ensures
            r == (if self@.shows(face) {
                Some(self@.faces.unwrap()[face])
            } else {
                None
            }),
    {
        match self {
            ChunkState::Loaded(_) => None,
            ChunkState::Meshed(_, faces) => faces.get(face),
        }
    }

    /// Returns the visible faces of a meshed chunk with their materials,
    /// each once, in no particular order. A chunk that is not meshed has
    /// none to list.
    pub fn faces(&self) -> (r: Option<Vec<FaceEntry>>)
        ensures
            r is Some == self@.faces is Some,
            r is Some ==> lists_faces(r.unwrap()@, self@.faces.unwrap()),
    {
        match self {
            ChunkState::Loaded(_) => None,
            ChunkState::Meshed(_, faces) => Some(faces.entries()),
        }
    }

    /// Turns a loaded chunk into a meshed one with the given faces.
    pub fn into_meshed(self, faces: FacesChunk) -> (r: Self)
        requires
            self@.stage() == ChunkStage::Loaded,
        ensures
            r@ == self@.meshed(faces@),
    {
        match self {
            ChunkState::Loaded(blocks) => ChunkState::Meshed(blocks, faces),
            ChunkState::Meshed(blocks, _) => ChunkState::Meshed(blocks, faces),
        }
    }

    /// Puts `block` at `bi` if the chunk is meshed.
    pub fn with_block(self, bi: BlockIndex, block: Block) -> (r: Self)
        ensures
            r@ == self@.with_block(bi, block),
    {
        match self {
            ChunkState::Loaded(blocks) => ChunkState::Loaded(blocks),
            ChunkState::Meshed(blocks, faces) => {
                let mut blocks = blocks;
                blocks.insert(bi, block);
                ChunkState::Meshed(blocks, faces)
            },
        }
    }

    /// Empties the voxel at `bi` if the chunk is meshed.
    pub fn without_block(self, bi: BlockIndex) -> (r: Self)
        ensures
            r@ == self@.without_block(bi),
    {
        match self {
            ChunkState::Loaded(blocks) => ChunkState::Loaded(blocks),
            ChunkState::Meshed(blocks, faces) => {
                let mut blocks = blocks;
                blocks.remove(bi);
                ChunkState::Meshed(blocks, faces)
            },
        }
    }

    /// Tells whether bringing the faces of the voxel at `bi` up to date
    /// would make a hidden face visible or a visible face hidden. `open[d]`
    /// says whether the voxel beyond the side `d` is empty.
    pub fn faces_stale(&self, bi: BlockIndex, open: &[bool; 6]) -> (r: bool)
        ensures
            r == self@.stale(bi, open@),
    {
        match self {
            ChunkState::Loaded(_) => false,
            ChunkState::Meshed(blocks, faces) => {
                let occupied = blocks.get(bi).is_some();
                let mut stale = false;
                let mut i: u32 = 0;
                while i < 6
                    invariant
                        0 <= i <= 6,
                        self@.faces == Some(faces@),
                        self@.blocks == blocks@,
                        occupied == blocks@.contains_key(bi),
                        stale ==> exists|d: Direction| self@.differs(bi, open@, d),
                        !stale ==> forall|d: Direction|
                            d.ordinal() < i ==> !#[trigger] self@.differs(bi, open@, d),
                    decreases 6 - i,
                {
                    let d = Direction::from_index(i);
                    let shown = faces.get((bi, d)).is_some();
                    let wanted = occupied && open[i as usize];
                    proof {
                        assert((shown != wanted) == self@.differs(bi, open@, d));
                        assert forall|e: Direction| e.ordinal() == i implies e == d by {
                            e.lemma_ordinal_nth();
                        }
                    }
                    if shown != wanted {
                        stale = true;
                    }
                    i += 1;
                }
                proof {
                    if !stale {
                        assert forall|d: Direction| !self@.differs(bi, open@, d) by {
                            d.lemma_ordinal_nth();
                        }
                    }
                }
                stale
            },
        }
    }

    /// Brings the faces of the voxel at `bi` up to date, if the chunk is
    /// meshed: where the voxel holds a block, each side `d` with `open[d]`
    /// becomes a visible face with the material of the block and every
    /// other side becomes hidden; where it is empty, all six become hidden.
    pub fn refresh_faces(self, bi: BlockIndex, open: &[bool; 6]) -> (r: Self)
        ensures
            r@ == self@.refreshed(bi, open@),
    {
        match self {
            ChunkState::Loaded(blocks) => ChunkState::Loaded(blocks),
            ChunkState::Meshed(blocks, faces) => {
                let mut faces = faces;
                faces.refresh(bi, blocks.get(bi), open);
                ChunkState::Meshed(blocks, faces)
            },
        }
    }
}

} // verus!
