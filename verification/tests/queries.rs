use voxel_world::{
    AristideCmd, Block, BlockCoords, BlockIndex, BlocksChunk, ChunkCoords, ChunkStage, Cmd,
    Direction, Generator, RenderedChunks, World,
};

fn at(x: i32, y: i32, z: i32) -> BlockCoords {
    BlockCoords::try_from([x, y, z]).unwrap()
}

fn chunk(x: i32, z: i32) -> ChunkCoords {
    ChunkCoords { x, z }
}

fn floor(_x: i32, _z: i32) -> i32 {
    0
}

fn nothing(_x: i32, _z: i32) -> i32 {
    -1
}

fn flat_world() -> World<fn(i32, i32) -> i32> {
    World::new(Generator::new(floor as fn(i32, i32) -> i32))
}

fn empty_world() -> World<fn(i32, i32) -> i32> {
    World::new(Generator::new(nothing as fn(i32, i32) -> i32))
}

#[test]
fn first_hit_is_the_first_block_on_the_ray() {
    let mut world = flat_world();
    world.request_chunk_stage(chunk(0, 0), ChunkStage::Meshed);
    world.place_block(at(3, 4, 3), Block::Brick);
    let ray = vec![
        Some((at(3, 8, 3), Direction::Up)),
        None,
        Some((at(3, 6, 3), Direction::Up)),
        Some((at(3, 5, 3), Direction::Up)),
        Some((at(3, 4, 3), Direction::Up)),
        Some((at(3, 3, 3), Direction::Up)),
        Some((at(3, 0, 3), Direction::Up)),
    ];
    assert_eq!(world.first_hit(&ray), Some((at(3, 4, 3), Direction::Up)));
    assert_eq!(world.click_left(&ray), Some(Cmd::RemoveBlock(at(3, 4, 3))));
    assert_eq!(
        world.click_right(&ray, Block::Glass),
        Some(Cmd::PlaceBlock(at(3, 5, 3), Block::Glass))
    );
}

#[test]
fn a_ray_that_meets_no_block_gives_no_command() {
    let mut world = flat_world();
    world.request_chunk_stage(chunk(0, 0), ChunkStage::Meshed);
    let ray = vec![
        Some((at(3, 8, 3), Direction::East)),
        Some((at(4, 8, 3), Direction::East)),
        None,
        Some((at(100, 0, 3), Direction::East)),
    ];
    assert_eq!(world.first_hit(&ray), None);
    assert_eq!(world.click_left(&ray), None);
    assert_eq!(world.click_right(&ray, Block::Glass), None);
    assert_eq!(world.first_hit(&Vec::new()), None);
}

#[test]
fn a_placing_click_at_the_top_of_the_world_gives_no_command() {
    let mut world = empty_world();
    world.request_chunk_stage(chunk(0, 0), ChunkStage::Meshed);
    world.place_block(at(1, 255, 1), Block::Stone);
    let ray = vec![Some((at(1, 255, 1), Direction::Up))];
    assert_eq!(world.click_left(&ray), Some(Cmd::RemoveBlock(at(1, 255, 1))));
    assert_eq!(world.click_right(&ray, Block::Sand), None);
    let ray = vec![Some((at(1, 255, 1), Direction::West))];
    assert_eq!(
        world.click_right(&ray, Block::Sand),
        Some(Cmd::PlaceBlock(at(0, 255, 1), Block::Sand))
    );
}

#[test]
fn a_slice_is_solid_where_it_holds_a_block() {
    let mut world = flat_world();
    world.request_chunk_stage(chunk(0, 0), ChunkStage::Meshed);
    // The floor fills the height 0: a slice at y = 0 across x and z.
    assert!(world.find_collision_tranch::<1, 0, 2>(0, 3, 5, 3, 5));
    assert!(!world.find_collision_tranch::<1, 0, 2>(1, 3, 5, 3, 5));
    // A slice at x = 4 that spans heights and z.
    assert!(world.find_collision_tranch::<0, 1, 2>(4, 0, 2, 3, 5));
    assert!(!world.find_collision_tranch::<0, 1, 2>(4, 1, 3, 3, 5));
    // A slice at z = 4 that spans x and heights.
    assert!(world.find_collision_tranch::<2, 0, 1>(4, 3, 5, 0, 2));
    assert!(!world.find_collision_tranch::<2, 0, 1>(4, 3, 5, 1, 3));
    world.place_block(at(7, 3, 9), Block::Brick);
    assert!(world.find_collision_tranch::<0, 1, 2>(7, 3, 4, 9, 10));
    assert!(world.find_collision_tranch::<0, 1, 2>(7, 1, 6, 0, 16));
    assert!(!world.find_collision_tranch::<0, 1, 2>(7, 1, 3, 0, 16));
    assert!(!world.find_collision_tranch::<0, 1, 2>(7, 3, 4, 0, 9));
    assert!(!world.find_collision_tranch::<0, 1, 2>(8, 1, 6, 0, 16));
}

#[test]
fn an_empty_slice_or_one_outside_the_world_is_not_solid() {
    let mut world = flat_world();
    world.request_chunk_stage(chunk(0, 0), ChunkStage::Meshed);
    assert!(!world.find_collision_tranch::<0, 1, 2>(4, 0, 0, 3, 5));
    assert!(!world.find_collision_tranch::<0, 1, 2>(4, 2, 0, 3, 5));
    assert!(!world.find_collision_tranch::<0, 1, 2>(4, 0, 2, 5, 5));
    assert!(!world.find_collision_tranch::<0, 1, 2>(4, -5, 0, 3, 5));
    assert!(!world.find_collision_tranch::<0, 1, 2>(4, 256, 300, 3, 5));
    assert!(!world.find_collision_tranch::<1, 0, 2>(-1, 3, 5, 3, 5));
    // Chunks that are not loaded hold no block.
    assert!(!world.find_collision_tranch::<0, 1, 2>(400, 0, 2, 3, 5));
}

#[test]
fn faces_lists_each_face_once() {
    let mut world = empty_world();
    assert_eq!(world.faces(chunk(0, 0)), None);
    world.load_chunk(chunk(0, 0), BlocksChunk::new());
    assert_eq!(world.faces(chunk(0, 0)), None);
    world.request_chunk_stage(chunk(0, 0), ChunkStage::Meshed);
    assert_eq!(world.faces(chunk(0, 0)), Some(Vec::new()));
    world.place_block(at(8, 10, 8), Block::Brick);
    world.place_block(at(9, 10, 8), Block::Glass);
    let mut faces = world.faces(chunk(0, 0)).unwrap();
    assert_eq!(faces.len(), 10);
    faces.sort_by_key(|&(bi, d, _)| (bi.index, d.index()));
    let brick = BlockIndex::new(8, 10, 8);
    let glass = BlockIndex::new(9, 10, 8);
    assert_eq!(
        faces,
        vec![
            (brick, Direction::North, Block::Brick),
            (brick, Direction::South, Block::Brick),
            (brick, Direction::West, Block::Brick),
            (brick, Direction::Up, Block::Brick),
            (brick, Direction::Down, Block::Brick),
            (glass, Direction::North, Block::Glass),
            (glass, Direction::South, Block::Glass),
            (glass, Direction::East, Block::Glass),
            (glass, Direction::Up, Block::Glass),
            (glass, Direction::Down, Block::Glass),
        ]
    );
}

#[test]
fn the_display_takes_in_the_chunks_around_the_player() {
    let mut world = flat_world();
    let mut rendered = RenderedChunks::new();
    assert_eq!(rendered.len(), 0);
    let center = chunk(0, 0);
    let notes = rendered.update(&mut world, center);
    // 197 chunks lie within 8 chunks of the center.
    assert_eq!(notes.len(), 197);
    assert_eq!(rendered.len(), 197);
    assert_eq!(notes[0], AristideCmd::RenderChunk(chunk(-8, 0), true));
    assert_eq!(notes[1], AristideCmd::RenderChunk(chunk(-7, -3), true));
    assert_eq!(notes[196], AristideCmd::RenderChunk(chunk(8, 0), true));
    for note in &notes {
        let AristideCmd::RenderChunk(cc, visible) = *note;
        assert!(visible);
        assert!(cc.in_range(center, 8));
        assert!(rendered.contains(cc));
        assert_eq!(world.get_chunk_stage(cc), ChunkStage::Meshed);
    }
    assert!(!rendered.contains(chunk(8, 1)));
    assert!(!rendered.contains(chunk(6, 6)));
    assert_eq!(world.get_chunk_stage(chunk(9, 0)), ChunkStage::Loaded);
    assert_eq!(world.get_chunk_stage(chunk(10, 0)), ChunkStage::Absent);

    // Nothing changes while the player stays.
    let notes = rendered.update(&mut world, center);
    assert!(notes.is_empty());
    assert_eq!(rendered.len(), 197);
}

#[test]
fn the_display_drops_chunks_that_are_far_behind() {
    let mut world = flat_world();
    let mut rendered = RenderedChunks::new();
    rendered.update(&mut world, chunk(0, 0));

    // After a walk of eight chunks every chunk is still within 16.
    let notes = rendered.update(&mut world, chunk(8, 0));
    assert!(notes.iter().all(|note| matches!(note, AristideCmd::RenderChunk(_, true))));
    assert!(rendered.contains(chunk(-8, 0)));
    assert!(rendered.contains(chunk(16, 0)));

    // One chunk further the chunks at the far end fall out: those whose
    // distance from the player is now more than 16.
    let notes = rendered.update(&mut world, chunk(9, 0));
    let hidden: Vec<ChunkCoords> = notes
        .iter()
        .filter_map(|note| match *note {
            AristideCmd::RenderChunk(cc, false) => Some(cc),
            _ => None,
        })
        .collect();
    assert_eq!(
        hidden,
        vec![
            chunk(-8, 0),
            chunk(-7, -3),
            chunk(-7, -2),
            chunk(-7, -1),
            chunk(-7, 1),
            chunk(-7, 2),
            chunk(-7, 3),
        ]
    );
    assert_eq!(notes[0], AristideCmd::RenderChunk(chunk(-8, 0), false));
    assert_eq!(notes[7], AristideCmd::RenderChunk(chunk(9, -8), true));
    assert!(!rendered.contains(chunk(-8, 0)));
    assert!(!rendered.contains(chunk(-7, 1)));
    assert!(rendered.contains(chunk(-7, 0)));
    assert!(rendered.contains(chunk(17, 0)));
    // The chunk stays in the world, meshed.
    assert_eq!(world.get_chunk_stage(chunk(-8, 0)), ChunkStage::Meshed);
}
