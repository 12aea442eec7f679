use voxel_world::{
    Block, BlockIndex, BlocksChunk, ChunkStage, ChunkState, Direction, FacesChunk,
};

fn index(x: u8, y: u8, z: u8) -> BlockIndex {
    BlockIndex::new(x, y, z)
}

#[test]
fn blocks_chunk_keeps_what_is_put_in() {
    let mut blocks = BlocksChunk::new();
    assert_eq!(blocks.get(index(1, 2, 3)), None);
    assert_eq!(blocks.insert(index(1, 2, 3), Block::Dirt), None);
    assert_eq!(blocks.get(index(1, 2, 3)), Some(Block::Dirt));
    assert_eq!(blocks.get(index(3, 2, 1)), None);
    assert_eq!(blocks.insert(index(1, 2, 3), Block::Glass), Some(Block::Dirt));
    assert_eq!(blocks.get(index(1, 2, 3)), Some(Block::Glass));
    assert_eq!(blocks.remove(index(1, 2, 3)), Some(Block::Glass));
    assert_eq!(blocks.remove(index(1, 2, 3)), None);
    assert_eq!(blocks.get(index(1, 2, 3)), None);
}

#[test]
fn faces_chunk_tells_the_sides_of_a_voxel_apart() {
    let mut faces = FacesChunk::new();
    let bi = index(4, 5, 6);
    assert_eq!(faces.insert((bi, Direction::Up), Block::Sand), None);
    assert_eq!(faces.insert((bi, Direction::East), Block::Stone), None);
    assert_eq!(faces.get((bi, Direction::Up)), Some(Block::Sand));
    assert_eq!(faces.get((bi, Direction::East)), Some(Block::Stone));
    assert_eq!(faces.get((bi, Direction::West)), None);
    assert_eq!(faces.get((index(4, 5, 7), Direction::Up)), None);
    assert_eq!(faces.insert((bi, Direction::Up), Block::Brick), Some(Block::Sand));
    assert_eq!(faces.remove((bi, Direction::East)), Some(Block::Stone));
    assert_eq!(faces.remove((bi, Direction::East)), None);
    assert_eq!(faces.entries(), vec![(bi, Direction::Up, Block::Brick)]);
}

#[test]
fn faces_chunk_lists_every_face_once() {
    let mut faces = FacesChunk::new();
    assert!(faces.entries().is_empty());
    let mut expected = Vec::new();
    for (n, d) in Direction::ALL.into_iter().enumerate() {
        for i in 0..=n as u8 {
            let bi = index(i, 100 + i, 15 - i);
            faces.insert((bi, d), Block::Trunk);
            expected.push((bi, d, Block::Trunk));
        }
    }
    let mut listed = faces.entries();
    listed.sort_by_key(|&(bi, d, _)| (d.index(), bi.index));
    assert_eq!(listed, expected);
}

#[test]
fn refresh_sets_the_faces_of_one_voxel() {
    let mut faces = FacesChunk::new();
    let here = index(1, 1, 1);
    let there = index(2, 2, 2);
    faces.insert((there, Direction::North), Block::Dirt);
    faces.insert((here, Direction::North), Block::Dirt);
    // Open to the south and above, in the order north, south, east, west,
    // up, down.
    let open = [false, true, false, false, true, false];
    faces.refresh(here, Some(Block::Grass), &open);
    for d in Direction::ALL {
        let expected = if d == Direction::South || d == Direction::Up {
            Some(Block::Grass)
        } else {
            None
        };
        assert_eq!(faces.get((here, d)), expected);
    }
    assert_eq!(faces.get((there, Direction::North)), Some(Block::Dirt));
    // An empty voxel has no face, however open its sides are.
    faces.refresh(here, None, &[true; 6]);
    for d in Direction::ALL {
        assert_eq!(faces.get((here, d)), None);
    }
    assert_eq!(faces.entries(), vec![(there, Direction::North, Block::Dirt)]);
}

#[test]
fn chunk_state_goes_from_loaded_to_meshed() {
    let mut blocks = BlocksChunk::new();
    blocks.insert(index(0, 0, 0), Block::Stone);
    let state = ChunkState::Loaded(blocks);
    assert_eq!(state.get_stage(), ChunkStage::Loaded);
    assert_eq!(state.get_block(index(0, 0, 0)), Some(Block::Stone));
    assert_eq!(state.get_block(index(0, 1, 0)), None);
    assert_eq!(state.get_face((index(0, 0, 0), Direction::Up)), None);
    assert_eq!(state.faces(), None);

    let mut faces = FacesChunk::new();
    faces.insert((index(0, 0, 0), Direction::Up), Block::Stone);
    let state = state.into_meshed(faces);
    assert_eq!(state.get_stage(), ChunkStage::Meshed);
    assert_eq!(state.get_block(index(0, 0, 0)), Some(Block::Stone));
    assert_eq!(state.get_face((index(0, 0, 0), Direction::Up)), Some(Block::Stone));
    assert_eq!(state.get_face((index(0, 0, 0), Direction::Down)), None);
    assert_eq!(state.faces(), Some(vec![(index(0, 0, 0), Direction::Up, Block::Stone)]));
}

#[test]
fn only_a_meshed_chunk_takes_edits() {
    let state = ChunkState::Loaded(BlocksChunk::new());
    let state = state.with_block(index(1, 1, 1), Block::Brick);
    assert_eq!(state.get_block(index(1, 1, 1)), None);
    assert!(!state.faces_stale(index(1, 1, 1), &[true; 6]));
    let state = state.refresh_faces(index(1, 1, 1), &[true; 6]);
    assert_eq!(state.faces(), None);

    let state = state.into_meshed(FacesChunk::new());
    let state = state.with_block(index(1, 1, 1), Block::Brick);
    assert_eq!(state.get_block(index(1, 1, 1)), Some(Block::Brick));
    let state = state.without_block(index(1, 1, 1));
    assert_eq!(state.get_block(index(1, 1, 1)), None);
    let state = state.without_block(index(1, 1, 1));
    assert_eq!(state.get_block(index(1, 1, 1)), None);
}

#[test]
fn faces_are_stale_until_they_are_refreshed() {
    let state = ChunkState::Loaded(BlocksChunk::new()).into_meshed(FacesChunk::new());
    let bi = index(7, 7, 7);
    let open = [true, false, true, false, true, false];
    assert!(!state.faces_stale(bi, &open));
    let state = state.with_block(bi, Block::Water);
    assert!(state.faces_stale(bi, &open));
    assert!(!state.faces_stale(bi, &[false; 6]));
    let state = state.refresh_faces(bi, &open);
    assert!(!state.faces_stale(bi, &open));
    assert!(state.faces_stale(bi, &[true; 6]));
    assert_eq!(state.get_face((bi, Direction::North)), Some(Block::Water));
    assert_eq!(state.get_face((bi, Direction::South)), None);
    assert_eq!(state.get_face((bi, Direction::East)), Some(Block::Water));
    assert_eq!(state.get_face((bi, Direction::Up)), Some(Block::Water));
    let state = state.without_block(bi);
    assert!(state.faces_stale(bi, &open));
    let state = state.refresh_faces(bi, &open);
    assert_eq!(state.faces(), Some(Vec::new()));
}
