use std::cell::Cell;
use voxel_world::generator::layer;
use voxel_world::{
    Block, BlockCoords, BlockIndex, BlocksChunk, ChunkCoords, ChunkStage, Direction, Generator,
    World,
};

fn at(x: i32, y: i32, z: i32) -> BlockCoords {
    BlockCoords::try_from([x, y, z]).unwrap()
}

fn chunk(x: i32, z: i32) -> ChunkCoords {
    ChunkCoords { x, z }
}

/// Counts the faces recorded for a chunk by asking for each of them.
fn count_faces<A: Fn(i32, i32) -> i32>(world: &World<A>, cc: ChunkCoords) -> usize {
    let mut n = 0;
    for index in 0..=u16::MAX {
        for d in Direction::ALL {
            if world.get_face(BlockCoords(cc, BlockIndex { index }), d).is_some() {
                n += 1;
            }
        }
    }
    n
}

fn empty_world() -> World<fn(i32, i32) -> i32> {
    fn nothing(_x: i32, _z: i32) -> i32 {
        -1
    }
    World::new(Generator::new(nothing as fn(i32, i32) -> i32))
}

fn flat_world() -> World<fn(i32, i32) -> i32> {
    fn floor(_x: i32, _z: i32) -> i32 {
        0
    }
    World::new(Generator::new(floor as fn(i32, i32) -> i32))
}

#[test]
fn a_new_world_holds_no_chunk() {
    let world = empty_world();
    assert_eq!(world.get_chunk_stage(chunk(0, 0)), ChunkStage::Absent);
    assert_eq!(world.get_block(at(0, 0, 0)), None);
    assert_eq!(world.get_face(at(0, 0, 0), Direction::Up), None);
}

#[test]
fn requesting_loaded_loads_only_that_chunk() {
    let mut world = flat_world();
    world.request_chunk_stage(chunk(2, 3), ChunkStage::Loaded);
    assert_eq!(world.get_chunk_stage(chunk(2, 3)), ChunkStage::Loaded);
    for n in chunk(2, 3).neighbors() {
        assert_eq!(world.get_chunk_stage(n), ChunkStage::Absent);
    }
    assert_eq!(world.get_block(at(32, 0, 48)), Some(Some(Block::Sand)));
    assert_eq!(world.get_block(at(32, 1, 48)), Some(None));
    assert_eq!(world.get_block(at(31, 0, 48)), None);
}

#[test]
fn requesting_absent_does_nothing() {
    let mut world = flat_world();
    world.request_chunk_stage(chunk(0, 0), ChunkStage::Absent);
    assert_eq!(world.get_chunk_stage(chunk(0, 0)), ChunkStage::Absent);
}

#[test]
fn requesting_meshed_loads_the_four_neighbors() {
    let mut world = flat_world();
    world.request_chunk_stage(chunk(0, 0), ChunkStage::Meshed);
    assert_eq!(world.get_chunk_stage(chunk(0, 0)), ChunkStage::Meshed);
    for n in chunk(0, 0).neighbors() {
        assert_eq!(world.get_chunk_stage(n), ChunkStage::Loaded);
    }
    assert_eq!(world.get_chunk_stage(chunk(1, 1)), ChunkStage::Absent);
    assert_eq!(world.get_chunk_stage(chunk(2, 0)), ChunkStage::Absent);
}

#[test]
fn a_flat_floor_shows_only_its_upper_faces() {
    let mut world = flat_world();
    world.request_chunk_stage(chunk(0, 0), ChunkStage::Meshed);
    for x in 0..16 {
        for z in 0..16 {
            let bc = at(x, 0, z);
            assert_eq!(world.get_block(bc), Some(Some(Block::Sand)));
            for d in Direction::ALL {
                let expected = if d == Direction::Up { Some(Block::Sand) } else { None };
                assert_eq!(world.get_face(bc, d), expected);
            }
        }
    }
    assert_eq!(count_faces(&world, chunk(0, 0)), 256);
    assert_eq!(count_faces(&world, chunk(1, 0)), 0);
}

#[test]
fn a_stage_never_goes_back_and_a_second_request_changes_nothing() {
    let mut world = flat_world();
    world.request_chunk_stage(chunk(0, 0), ChunkStage::Meshed);
    let changed = world.place_block(at(4, 5, 6), Block::Brick);
    assert_eq!(changed.as_slice(), &[chunk(0, 0)]);
    let faces = count_faces(&world, chunk(0, 0));
    for target in [ChunkStage::Absent, ChunkStage::Loaded, ChunkStage::Meshed] {
        world.request_chunk_stage(chunk(0, 0), target);
        assert_eq!(world.get_chunk_stage(chunk(0, 0)), ChunkStage::Meshed);
        assert_eq!(world.get_block(at(4, 5, 6)), Some(Some(Block::Brick)));
        assert_eq!(count_faces(&world, chunk(0, 0)), faces);
    }
    world.request_chunk_stage(chunk(1, 0), ChunkStage::Loaded);
    assert_eq!(world.get_chunk_stage(chunk(1, 0)), ChunkStage::Loaded);
    world.request_chunk_stage(chunk(1, 0), ChunkStage::Meshed);
    assert_eq!(world.get_chunk_stage(chunk(1, 0)), ChunkStage::Meshed);
    assert_eq!(world.get_chunk_stage(chunk(0, 0)), ChunkStage::Meshed);
    assert_eq!(world.get_block(at(4, 5, 6)), Some(Some(Block::Brick)));
}

#[test]
fn the_generator_is_asked_once_for_each_column() {
    let asked = Cell::new(0usize);
    let mut world = World::new(Generator::new(|_x: i32, _z: i32| {
        asked.set(asked.get() + 1);
        0
    }));
    world.request_chunk_stage(chunk(0, 0), ChunkStage::Meshed);
    assert_eq!(asked.get(), 5 * 256);
    world.request_chunk_stage(chunk(0, 0), ChunkStage::Meshed);
    world.request_chunk_stage(chunk(0, 0), ChunkStage::Loaded);
    world.request_chunk_stage(chunk(1, 0), ChunkStage::Loaded);
    assert_eq!(asked.get(), 5 * 256);
    world.request_chunk_stage(chunk(1, 0), ChunkStage::Meshed);
    assert_eq!(asked.get(), 8 * 256);
}

#[test]
fn an_isolated_block_shows_six_faces_after_meshing() {
    let mut world = empty_world();
    let here = chunk(0, 0);
    let mut blocks = BlocksChunk::new();
    blocks.insert(BlockIndex::new(8, 10, 8), Block::Brick);
    world.load_chunk(here, blocks);
    for n in here.neighbors() {
        world.load_chunk(n, BlocksChunk::new());
    }
    assert_eq!(world.get_chunk_stage(here), ChunkStage::Loaded);
    assert_eq!(count_faces(&world, here), 0);
    world.chunk_stage_loaded_to_meshed(here);
    assert_eq!(world.get_chunk_stage(here), ChunkStage::Meshed);
    assert_eq!(count_faces(&world, here), 6);
    for d in Direction::ALL {
        assert_eq!(world.get_face(at(8, 10, 8), d), Some(Block::Brick));
    }
}

#[test]
fn two_blocks_side_by_side_show_ten_faces_after_meshing() {
    let mut world = empty_world();
    let here = chunk(0, 0);
    let mut blocks = BlocksChunk::new();
    blocks.insert(BlockIndex::new(8, 10, 8), Block::Brick);
    blocks.insert(BlockIndex::new(9, 10, 8), Block::Glass);
    world.load_chunk(here, blocks);
    for n in here.neighbors() {
        world.load_chunk(n, BlocksChunk::new());
    }
    world.chunk_stage_loaded_to_meshed(here);
    assert_eq!(count_faces(&world, here), 10);
    assert_eq!(world.get_face(at(8, 10, 8), Direction::East), None);
    assert_eq!(world.get_face(at(9, 10, 8), Direction::West), None);
    assert_eq!(world.get_face(at(8, 10, 8), Direction::West), Some(Block::Brick));
    assert_eq!(world.get_face(at(9, 10, 8), Direction::East), Some(Block::Glass));
}

#[test]
fn blocks_across_a_chunk_border_hide_each_other() {
    let mut world = empty_world();
    let mut west = BlocksChunk::new();
    west.insert(BlockIndex::new(15, 10, 8), Block::Brick);
    let mut east = BlocksChunk::new();
    east.insert(BlockIndex::new(0, 10, 8), Block::Stone);
    world.load_chunk(chunk(0, 0), west);
    world.load_chunk(chunk(1, 0), east);
    world.request_chunk_stage(chunk(0, 0), ChunkStage::Meshed);
    world.request_chunk_stage(chunk(1, 0), ChunkStage::Meshed);
    assert_eq!(count_faces(&world, chunk(0, 0)), 5);
    assert_eq!(count_faces(&world, chunk(1, 0)), 5);
    assert_eq!(world.get_face(at(15, 10, 8), Direction::East), None);
    assert_eq!(world.get_face(at(16, 10, 8), Direction::West), None);
}

#[test]
fn a_face_against_a_chunk_that_is_not_loaded_is_not_recorded() {
    let mut world = empty_world();
    let mut blocks = BlocksChunk::new();
    blocks.insert(BlockIndex::new(15, 10, 8), Block::Brick);
    world.load_chunk(chunk(0, 0), blocks);
    world.chunk_stage_loaded_to_meshed(chunk(0, 0));
    assert_eq!(world.get_face(at(15, 10, 8), Direction::East), None);
    assert_eq!(world.get_face(at(15, 10, 8), Direction::West), Some(Block::Brick));
    assert_eq!(count_faces(&world, chunk(0, 0)), 5);
}

#[test]
fn a_block_at_the_bottom_of_the_world_has_no_lower_face() {
    let mut world = empty_world();
    world.request_chunk_stage(chunk(0, 0), ChunkStage::Meshed);
    world.place_block(at(3, 0, 3), Block::Stone);
    assert_eq!(world.get_face(at(3, 0, 3), Direction::Down), None);
    assert_eq!(world.get_face(at(3, 0, 3), Direction::Up), Some(Block::Stone));
    assert_eq!(count_faces(&world, chunk(0, 0)), 5);
    world.place_block(at(3, 255, 3), Block::Stone);
    assert_eq!(world.get_face(at(3, 255, 3), Direction::Up), None);
    assert_eq!(count_faces(&world, chunk(0, 0)), 10);
}

#[test]
fn placing_next_to_a_block_hides_the_two_faces_between_them() {
    let mut world = empty_world();
    world.request_chunk_stage(chunk(0, 0), ChunkStage::Meshed);
    let changed = world.place_block(at(8, 10, 8), Block::Brick);
    assert_eq!(changed.as_slice(), &[chunk(0, 0)]);
    assert_eq!(count_faces(&world, chunk(0, 0)), 6);

    let changed = world.place_block(at(8, 11, 8), Block::Glass);
    assert_eq!(changed.as_slice(), &[chunk(0, 0)]);
    assert_eq!(count_faces(&world, chunk(0, 0)), 10);
    assert_eq!(world.get_face(at(8, 10, 8), Direction::Up), None);
    assert_eq!(world.get_face(at(8, 11, 8), Direction::Down), None);
    for d in [Direction::North, Direction::South, Direction::East, Direction::West] {
        assert_eq!(world.get_face(at(8, 10, 8), d), Some(Block::Brick));
        assert_eq!(world.get_face(at(8, 11, 8), d), Some(Block::Glass));
    }
    assert_eq!(world.get_face(at(8, 10, 8), Direction::Down), Some(Block::Brick));
    assert_eq!(world.get_face(at(8, 11, 8), Direction::Up), Some(Block::Glass));

    let changed = world.remove_block(at(8, 11, 8));
    assert_eq!(changed.as_slice(), &[chunk(0, 0)]);
    assert_eq!(world.get_block(at(8, 11, 8)), Some(None));
    assert_eq!(count_faces(&world, chunk(0, 0)), 6);
    for d in Direction::ALL {
        assert_eq!(world.get_face(at(8, 10, 8), d), Some(Block::Brick));
        assert_eq!(world.get_face(at(8, 11, 8), d), None);
    }
}

#[test]
fn an_edit_at_a_chunk_border_reports_both_chunks() {
    let mut world = empty_world();
    world.request_chunk_stage(chunk(0, 0), ChunkStage::Meshed);
    world.request_chunk_stage(chunk(1, 0), ChunkStage::Meshed);
    let changed = world.place_block(at(15, 10, 8), Block::Brick);
    assert_eq!(changed.as_slice(), &[chunk(0, 0)]);
    assert_eq!(count_faces(&world, chunk(0, 0)), 6);

    let changed = world.place_block(at(16, 10, 8), Block::Stone);
    assert_eq!(changed.as_slice(), &[chunk(1, 0), chunk(0, 0)]);
    assert_eq!(count_faces(&world, chunk(0, 0)), 5);
    assert_eq!(count_faces(&world, chunk(1, 0)), 5);
    assert_eq!(world.get_face(at(15, 10, 8), Direction::East), None);
    assert_eq!(world.get_face(at(16, 10, 8), Direction::West), None);

    let changed = world.remove_block(at(16, 10, 8));
    assert_eq!(changed.as_slice(), &[chunk(1, 0), chunk(0, 0)]);
    assert_eq!(count_faces(&world, chunk(0, 0)), 6);
    assert_eq!(count_faces(&world, chunk(1, 0)), 0);
    assert_eq!(world.get_face(at(15, 10, 8), Direction::East), Some(Block::Brick));
}

#[test]
fn an_edit_in_a_chunk_that_is_not_meshed_is_dropped() {
    let mut world = empty_world();
    assert!(world.place_block(at(1, 1, 1), Block::Brick).is_empty());
    assert_eq!(world.get_chunk_stage(chunk(0, 0)), ChunkStage::Absent);
    world.request_chunk_stage(chunk(0, 0), ChunkStage::Loaded);
    assert!(world.place_block(at(1, 1, 1), Block::Brick).is_empty());
    assert_eq!(world.get_block(at(1, 1, 1)), Some(None));
    assert!(world.remove_block(at(1, 1, 1)).is_empty());

    let mut world = flat_world();
    world.request_chunk_stage(chunk(0, 0), ChunkStage::Loaded);
    assert!(world.remove_block(at(1, 0, 1)).is_empty());
    assert_eq!(world.get_block(at(1, 0, 1)), Some(Some(Block::Sand)));
}

#[test]
fn placing_on_a_block_replaces_it_and_leaves_the_faces() {
    let mut world = empty_world();
    world.request_chunk_stage(chunk(0, 0), ChunkStage::Meshed);
    world.place_block(at(8, 10, 8), Block::Brick);
    let changed = world.place_block(at(8, 10, 8), Block::Glass);
    assert!(changed.is_empty());
    assert_eq!(world.get_block(at(8, 10, 8)), Some(Some(Block::Glass)));
    assert_eq!(count_faces(&world, chunk(0, 0)), 6);
    for d in Direction::ALL {
        assert_eq!(world.get_face(at(8, 10, 8), d), Some(Block::Brick));
    }
}

#[test]
fn removing_from_an_empty_voxel_changes_nothing() {
    let mut world = flat_world();
    world.request_chunk_stage(chunk(0, 0), ChunkStage::Meshed);
    let changed = world.remove_block(at(3, 9, 3));
    assert!(changed.is_empty());
    assert_eq!(count_faces(&world, chunk(0, 0)), 256);
}

#[test]
fn removing_a_floor_block_opens_the_sides_of_its_neighbors() {
    let mut world = flat_world();
    world.request_chunk_stage(chunk(0, 0), ChunkStage::Meshed);
    let changed = world.remove_block(at(5, 0, 5));
    assert_eq!(changed.as_slice(), &[chunk(0, 0)]);
    assert_eq!(world.get_face(at(5, 0, 5), Direction::Up), None);
    assert_eq!(world.get_face(at(4, 0, 5), Direction::East), Some(Block::Sand));
    assert_eq!(world.get_face(at(6, 0, 5), Direction::West), Some(Block::Sand));
    assert_eq!(world.get_face(at(5, 0, 4), Direction::South), Some(Block::Sand));
    assert_eq!(world.get_face(at(5, 0, 6), Direction::North), Some(Block::Sand));
    assert_eq!(count_faces(&world, chunk(0, 0)), 255 + 4);
}

#[test]
fn update_block_mesh_finds_nothing_to_do_in_a_settled_world() {
    let mut world = flat_world();
    world.request_chunk_stage(chunk(0, 0), ChunkStage::Meshed);
    assert!(!world.update_block_mesh(at(5, 0, 5)));
    assert!(!world.update_block_mesh(at(5, 1, 5)));
    assert!(!world.update_block_mesh(at(40, 1, 5)));
    assert_eq!(count_faces(&world, chunk(0, 0)), 256);
}

#[test]
fn open_sides_follow_the_order_of_the_directions() {
    let mut world = flat_world();
    world.request_chunk_stage(chunk(0, 0), ChunkStage::Meshed);
    assert_eq!(
        world.open_sides(at(5, 0, 5)),
        [false, false, false, false, true, false]
    );
    assert_eq!(
        world.open_sides(at(5, 1, 5)),
        [true, true, true, true, true, false]
    );
    assert!(world.is_open(at(5, 0, 5), Direction::Up));
    assert!(!world.is_open(at(5, 0, 5), Direction::Down));
    assert!(!world.is_open(at(0, 1, 0), Direction::North) || world.get_chunk_stage(chunk(0, -1)) != ChunkStage::Absent);
}

#[test]
fn terrain_is_layered_by_altitude() {
    assert_eq!(layer(0, 0), Block::Sand);
    assert_eq!(layer(10, 10), Block::Sand);
    assert_eq!(layer(10, 7), Block::Sand);
    assert_eq!(layer(10, 6), Block::Stone);
    assert_eq!(layer(11, 11), Block::Grass);
    assert_eq!(layer(11, 10), Block::Dirt);
    assert_eq!(layer(11, 9), Block::Dirt);
    assert_eq!(layer(11, 8), Block::Stone);
    assert_eq!(layer(35, 35), Block::Grass);
    assert_eq!(layer(35, 34), Block::Stone);
    assert_eq!(layer(36, 36), Block::Stone);
    assert_eq!(layer(36, 35), Block::Stone);
    assert_eq!(layer(36, 34), Block::Brick);
    assert_eq!(layer(255, 0), Block::Brick);
}

#[test]
fn generated_columns_reach_up_to_their_altitude() {
    fn slope(x: i32, _z: i32) -> i32 {
        x - 1
    }
    let generator = Generator::new(slope as fn(i32, i32) -> i32);
    let mut blocks = BlocksChunk::new();
    blocks.insert(BlockIndex::new(0, 200, 0), Block::Glass);
    generator.gen_chunk(chunk(0, 0), &mut blocks);
    assert_eq!(blocks.get(BlockIndex::new(0, 0, 0)), None);
    assert_eq!(blocks.get(BlockIndex::new(0, 200, 0)), Some(Block::Glass));
    assert_eq!(blocks.get(BlockIndex::new(1, 0, 3)), Some(Block::Sand));
    assert_eq!(blocks.get(BlockIndex::new(1, 1, 3)), None);
    assert_eq!(blocks.get(BlockIndex::new(15, 14, 9)), Some(Block::Grass));
    assert_eq!(blocks.get(BlockIndex::new(15, 13, 9)), Some(Block::Dirt));
    assert_eq!(blocks.get(BlockIndex::new(15, 0, 9)), Some(Block::Stone));
    assert_eq!(blocks.get(BlockIndex::new(15, 15, 9)), None);

    let mut blocks = BlocksChunk::new();
    generator.gen_chunk(chunk(-1, 2), &mut blocks);
    for index in 0..=u16::MAX {
        assert_eq!(blocks.get(BlockIndex { index }), None);
    }
    let mut blocks = BlocksChunk::new();
    generator.gen_chunk(chunk(2, 0), &mut blocks);
    assert_eq!(blocks.get(BlockIndex::new(0, 31, 0)), Some(Block::Grass));
    assert_eq!(blocks.get(BlockIndex::new(0, 32, 0)), None);
    assert_eq!(blocks.get(BlockIndex::new(5, 36, 0)), Some(Block::Stone));
    assert_eq!(blocks.get(BlockIndex::new(5, 34, 0)), Some(Block::Brick));
}
