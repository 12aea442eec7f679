use voxel_world::{
    Block, BlockCoords, BlockIndex, ChunkCoords, ChunkStage, Direction, OutOfChunk, OutOfWorld,
    Sprite,
};

fn block_coords(x: i32, y: i32, z: i32) -> BlockCoords {
    BlockCoords::try_from([x, y, z]).unwrap()
}

#[test]
fn test_coords_convert() {
    for x in -128..128 {
        for z in -128..128 {
            for y in 0..=255 {
                let bc: BlockCoords = [x, y, z].try_into().unwrap();
                let vector: [i32; 3] = bc.into();
                assert_eq!(vector, [x, y, z]);
            }
        }
    }
}

#[test]
fn global_round_trip_at_the_edges_of_the_range() {
    for &x in &[i32::MIN, i32::MIN + 1, -17, -16, -1, 0, 15, 16, i32::MAX - 1, i32::MAX] {
        for &z in &[i32::MIN, -1, 0, 1, i32::MAX] {
            for &y in &[0, 1, 254, 255] {
                let bc = block_coords(x, y, z);
                assert_eq!(<[i32; 3]>::from(bc), [x, y, z]);
            }
        }
    }
}

#[test]
fn global_position_splits_into_chunk_and_local_position() {
    let bc = block_coords(-1, 7, 33);
    assert_eq!(bc.0, ChunkCoords { x: -1, z: 2 });
    assert_eq!(bc.1.local(), (15, 7, 1));
    assert_eq!(bc.1, BlockIndex { index: 15 | 1 << 4 | 7 << 8 });
    let bc = block_coords(-16, 0, -17);
    assert_eq!(bc.0, ChunkCoords { x: -1, z: -2 });
    assert_eq!(bc.1.local(), (0, 0, 15));
}

#[test]
fn positions_outside_the_height_of_the_world_are_refused() {
    assert_eq!(BlockCoords::try_from([0, -1, 0]), Err(OutOfWorld));
    assert_eq!(BlockCoords::try_from([0, 256, 0]), Err(OutOfWorld));
    assert_eq!(BlockCoords::try_from([5, i32::MAX, 5]), Err(OutOfWorld));
    assert!(BlockCoords::try_from([0, 0, 0]).is_ok());
    assert!(BlockCoords::try_from([0, 255, 0]).is_ok());
}

#[test]
fn block_index_packs_x_then_z_then_y() {
    assert_eq!(BlockIndex::try_from([0, 0, 0]), Ok(BlockIndex { index: 0 }));
    assert_eq!(BlockIndex::try_from([3, 0, 0]), Ok(BlockIndex { index: 3 }));
    assert_eq!(BlockIndex::try_from([0, 0, 5]), Ok(BlockIndex { index: 5 << 4 }));
    assert_eq!(BlockIndex::try_from([0, 9, 0]), Ok(BlockIndex { index: 9 << 8 }));
    assert_eq!(BlockIndex::try_from([15, 255, 15]), Ok(BlockIndex { index: 0xffff }));
    assert_eq!(BlockIndex::new(3, 9, 5), BlockIndex { index: 3 | 5 << 4 | 9 << 8 });
}

#[test]
fn block_index_refuses_positions_outside_the_chunk() {
    assert_eq!(BlockIndex::try_from([16, 0, 0]), Err(OutOfChunk));
    assert_eq!(BlockIndex::try_from([-1, 0, 0]), Err(OutOfChunk));
    assert_eq!(BlockIndex::try_from([0, 256, 0]), Err(OutOfChunk));
    assert_eq!(BlockIndex::try_from([0, -1, 0]), Err(OutOfChunk));
    assert_eq!(BlockIndex::try_from([0, 0, 16]), Err(OutOfChunk));
    assert_eq!(BlockIndex::try_from([0, 0, -1]), Err(OutOfChunk));
}

#[test]
fn block_index_round_trip_over_every_index() {
    for index in 0..=u16::MAX {
        let bi = BlockIndex { index };
        let local: [i32; 3] = bi.into();
        assert!(0 <= local[0] && local[0] < 16);
        assert!(0 <= local[1] && local[1] < 256);
        assert!(0 <= local[2] && local[2] < 16);
        assert_eq!(BlockIndex::try_from(local), Ok(bi));
        let (x, y, z) = bi.local();
        assert_eq!([x as i32, y as i32, z as i32], local);
    }
}

#[test]
fn chunk_coords_convert_to_and_from_arrays() {
    let cc = ChunkCoords::from([3, -4]);
    assert_eq!(cc, ChunkCoords { x: 3, z: -4 });
    assert_eq!(<[i32; 2]>::from(cc), [3, -4]);
}

#[test]
fn direction_opposite_is_an_involution() {
    for d in Direction::ALL {
        assert_eq!(d.oposit().oposit(), d);
        assert_ne!(d.oposit(), d);
    }
    assert_eq!(Direction::North.oposit(), Direction::South);
    assert_eq!(Direction::East.oposit(), Direction::West);
    assert_eq!(Direction::Up.oposit(), Direction::Down);
}

#[test]
fn offsets_of_opposite_directions_cancel() {
    for d in Direction::ALL {
        let a: [i32; 3] = d.into();
        let b: [i32; 3] = d.oposit().into();
        assert_eq!([a[0] + b[0], a[1] + b[1], a[2] + b[2]], [0, 0, 0]);
        assert_eq!(a[0] * a[0] + a[1] * a[1] + a[2] * a[2], 1);
    }
    assert_eq!(<[i32; 3]>::from(Direction::East), [1, 0, 0]);
    assert_eq!(<[i32; 3]>::from(Direction::Up), [0, 1, 0]);
    assert_eq!(<[i32; 3]>::from(Direction::South), [0, 0, 1]);
    assert_eq!(<[i32; 3]>::from(Direction::North), [0, 0, -1]);
}

#[test]
fn direction_index_follows_the_order_of_all() {
    for (i, d) in Direction::ALL.into_iter().enumerate() {
        assert_eq!(d.index() as usize, i);
        assert_eq!(Direction::from_index(i as u32), d);
    }
    assert_eq!(
        Direction::CARDINAL,
        [Direction::North, Direction::South, Direction::East, Direction::West]
    );
}

#[test]
fn face_vertices_lie_on_the_side_of_the_cube() {
    for d in Direction::ALL {
        let offset: [i32; 3] = d.into();
        let corners = d.face_vertices();
        for corner in corners {
            for axis in 0..3 {
                assert!(corner[axis] == 0 || corner[axis] == 1);
                if offset[axis] != 0 {
                    assert_eq!(2 * corner[axis] - 1, offset[axis]);
                }
            }
        }
        for i in 0..4 {
            for j in 0..i {
                assert_ne!(corners[i], corners[j]);
            }
        }
    }
    assert_eq!(
        Direction::Up.face_vertices(),
        [[0, 1, 0], [0, 1, 1], [1, 1, 1], [1, 1, 0]]
    );
    assert_eq!(
        Direction::North.face_vertices(),
        [[0, 0, 0], [0, 1, 0], [1, 1, 0], [1, 0, 0]]
    );
}

#[test]
fn step_moves_by_the_offset_of_the_direction() {
    for &(x, y, z) in &[(0, 0, 0), (15, 100, 15), (-1, 255, -16), (16, 1, -17), (1000, 254, -1000)] {
        let bc = block_coords(x, y, z);
        for d in Direction::ALL {
            let offset: [i32; 3] = d.into();
            let expected = BlockCoords::try_from([x + offset[0], y + offset[1], z + offset[2]]).ok();
            assert_eq!(bc.step(d), expected);
        }
    }
}

#[test]
fn step_stops_at_the_bottom_and_the_top_of_the_world() {
    assert_eq!(block_coords(3, 0, 3).step(Direction::Down), None);
    assert_eq!(block_coords(3, 255, 3).step(Direction::Up), None);
    assert_eq!(block_coords(3, 0, 3).step(Direction::Up), Some(block_coords(3, 1, 3)));
    assert_eq!(block_coords(3, 255, 3).step(Direction::Down), Some(block_coords(3, 254, 3)));
}

#[test]
fn step_crosses_into_the_next_chunk() {
    let east = block_coords(15, 4, 7).step(Direction::East).unwrap();
    assert_eq!(east.0, ChunkCoords { x: 1, z: 0 });
    assert_eq!(east.1.local(), (0, 4, 7));
    let north = block_coords(7, 4, 0).step(Direction::North).unwrap();
    assert_eq!(north.0, ChunkCoords { x: 0, z: -1 });
    assert_eq!(north.1.local(), (7, 4, 15));
}

#[test]
fn step_back_returns_to_the_start() {
    for &(x, y, z) in &[(0, 0, 0), (15, 255, 15), (-1, 7, -16), (i32::MAX, 3, i32::MIN)] {
        let bc = block_coords(x, y, z);
        for d in Direction::ALL {
            if let Some(next) = bc.step(d) {
                assert_eq!(next.step(d.oposit()), Some(bc));
                assert_ne!(next, bc);
            }
        }
    }
}

#[test]
fn step_wraps_around_at_the_edge_of_the_grid() {
    let edge = BlockCoords(ChunkCoords { x: i32::MAX, z: 0 }, BlockIndex::new(15, 0, 0));
    let over = edge.step(Direction::East).unwrap();
    assert_eq!(over.0, ChunkCoords { x: i32::MIN, z: 0 });
    assert_eq!(over.1.local(), (0, 0, 0));
}

#[test]
fn neighbors_are_north_south_east_west() {
    let cc = ChunkCoords { x: 2, z: -3 };
    assert_eq!(
        cc.neighbors(),
        [
            ChunkCoords { x: 2, z: -4 },
            ChunkCoords { x: 2, z: -2 },
            ChunkCoords { x: 3, z: -3 },
            ChunkCoords { x: 1, z: -3 },
        ]
    );
    for (i, d) in Direction::CARDINAL.into_iter().enumerate() {
        assert_eq!(cc.neighbor(d), cc.neighbors()[i]);
        assert_eq!(cc.neighbor(d).neighbor(d.oposit()), cc);
    }
}

#[test]
fn in_range_is_the_euclidean_distance() {
    let center = ChunkCoords { x: 0, z: 0 };
    assert!(center.in_range(ChunkCoords { x: 3, z: 4 }, 5));
    assert!(!center.in_range(ChunkCoords { x: 3, z: 4 }, 4));
    assert!(center.in_range(ChunkCoords { x: 0, z: -8 }, 8));
    assert!(!center.in_range(ChunkCoords { x: 6, z: 6 }, 8));
    assert!(center.in_range(center, 0));
    assert!(!center.in_range(ChunkCoords { x: 1, z: 0 }, 0));
    assert!(ChunkCoords { x: -5, z: 7 }.in_range(ChunkCoords { x: -2, z: 3 }, 5));
}

#[test]
fn in_range_does_not_overflow() {
    let far = ChunkCoords { x: i32::MAX, z: i32::MAX };
    let other = ChunkCoords { x: i32::MIN, z: i32::MIN };
    assert!(!far.in_range(other, i32::MAX));
    assert!(!far.in_range(other, 16));
    assert!(far.in_range(far, 0));
    assert!(ChunkCoords { x: i32::MAX, z: 0 }.in_range(ChunkCoords { x: 0, z: 0 }, i32::MAX));
}

#[test]
fn stages_are_ordered() {
    assert!(ChunkStage::Absent < ChunkStage::Loaded);
    assert!(ChunkStage::Loaded < ChunkStage::Meshed);
    assert!(ChunkStage::Absent < ChunkStage::Meshed);
    assert!(ChunkStage::Meshed >= ChunkStage::Meshed);
    assert_eq!(ChunkStage::Meshed.max(ChunkStage::Loaded), ChunkStage::Meshed);
    assert_eq!(ChunkStage::Absent.previous(), None);
    assert_eq!(ChunkStage::Loaded.previous(), Some(ChunkStage::Absent));
    assert_eq!(ChunkStage::Meshed.previous(), Some(ChunkStage::Loaded));
    assert_eq!(ChunkStage::Absent.level(), 0);
    assert_eq!(ChunkStage::Loaded.level(), 1);
    assert_eq!(ChunkStage::Meshed.level(), 2);
}

#[test]
fn sprites_of_blocks() {
    assert_eq!(Block::Grass.sprite(Direction::Up), Sprite::GrassTop);
    assert_eq!(Block::Grass.sprite(Direction::Down), Sprite::Dirt);
    assert_eq!(Block::Grass.sprite(Direction::North), Sprite::GrassSide);
    assert_eq!(Block::Trunk.sprite(Direction::Up), Sprite::TrunkTop);
    assert_eq!(Block::Trunk.sprite(Direction::Down), Sprite::TrunkTop);
    assert_eq!(Block::Trunk.sprite(Direction::East), Sprite::TrunkSide);
    for d in Direction::ALL {
        assert_eq!(Block::Stone.sprite(d), Sprite::Stone);
        assert_eq!(Block::Sand.sprite(d), Sprite::Sand);
        assert_eq!(Block::Dirt.sprite(d), Sprite::Dirt);
        assert_eq!(Block::Brick.sprite(d), Sprite::Brick);
        assert_eq!(Block::Glass.sprite(d), Sprite::Glass);
        assert_eq!(Block::Water.sprite(d), Sprite::Water);
    }
}

#[test]
fn sprite_layers() {
    let layers = [
        Sprite::Stone,
        Sprite::Dirt,
        Sprite::GrassTop,
        Sprite::GrassSide,
        Sprite::Sand,
        Sprite::Brick,
        Sprite::Glass,
        Sprite::Water,
        Sprite::TrunkTop,
        Sprite::TrunkSide,
    ];
    for (i, sprite) in layers.into_iter().enumerate() {
        assert_eq!(sprite.index() as usize, i);
    }
}
