use voxel_world::control::{
    KEY_BACK, KEY_DOWN, KEY_FRONT, KEY_LEFT, KEY_RIGHT, KEY_SHIFT, KEY_UP,
};
use voxel_world::{BlockIndex, ChunkCoords, Control};

#[test]
fn block_index_walk_visits_every_index_in_order() {
    let mut walk = BlockIndex::all();
    for index in 0..=u16::MAX {
        assert_eq!(walk.next(), Some(BlockIndex { index }));
    }
    assert_eq!(walk.next(), None);
    assert_eq!(walk.next(), None);
}

#[test]
fn chunk_walk_goes_row_by_row() {
    let mut walk = ChunkCoords { x: 10, z: -3 }.iter_range(1);
    let mut seen = Vec::new();
    while let Some(cc) = walk.next() {
        seen.push((cc.x, cc.z));
    }
    assert_eq!(
        seen,
        vec![(9, -4), (10, -4), (11, -4), (9, -3), (10, -3), (11, -3), (9, -2), (10, -2), (11, -2)]
    );
    assert_eq!(walk.next(), None);
}

#[test]
fn chunk_walk_of_range_zero_visits_the_center() {
    let center = ChunkCoords { x: -7, z: 7 };
    let mut walk = center.iter_range(0);
    assert_eq!(walk.next(), Some(center));
    assert_eq!(walk.next(), None);
}

#[test]
fn chunk_walk_visits_the_whole_square_once() {
    let center = ChunkCoords { x: 0, z: 0 };
    for range in [2u8, 8, 40] {
        let mut walk = center.iter_range(range);
        let side = 2 * range as i32 + 1;
        let mut n = 0;
        while let Some(cc) = walk.next() {
            let expected = ChunkCoords {
                x: -(range as i32) + n % side,
                z: -(range as i32) + n / side,
            };
            assert_eq!(cc, expected);
            n += 1;
        }
        assert_eq!(n, side * side);
    }
}

#[test]
fn containing_chunk_rounds_down() {
    assert_eq!(ChunkCoords::containing(0, 0), ChunkCoords { x: 0, z: 0 });
    assert_eq!(ChunkCoords::containing(15, 16), ChunkCoords { x: 0, z: 1 });
    assert_eq!(ChunkCoords::containing(-1, -16), ChunkCoords { x: -1, z: -1 });
    assert_eq!(ChunkCoords::containing(-17, 31), ChunkCoords { x: -2, z: 1 });
    assert_eq!(
        ChunkCoords::containing(i32::MIN, i32::MAX),
        ChunkCoords { x: -(1 << 27), z: (1 << 27) - 1 }
    );
}

#[test]
fn nearer_than_is_strict() {
    let center = ChunkCoords { x: 0, z: 0 };
    assert!(center.nearer_than(ChunkCoords { x: 3, z: 4 }, 6));
    assert!(!center.nearer_than(ChunkCoords { x: 3, z: 4 }, 5));
    assert!(!center.nearer_than(ChunkCoords { x: 16, z: 0 }, 16));
    assert!(center.nearer_than(ChunkCoords { x: 15, z: 5 }, 16));
    assert!(!center.nearer_than(center, 0));
    assert!(!ChunkCoords { x: i32::MAX, z: i32::MAX }
        .nearer_than(ChunkCoords { x: i32::MIN, z: i32::MIN }, i32::MAX));
}

#[test]
fn control_starts_with_every_key_released() {
    let control = Control::default();
    assert_eq!(
        control,
        Control {
            front: false,
            back: false,
            left: false,
            right: false,
            up: false,
            down: false,
            shift: false,
        }
    );
}

#[test]
fn control_follows_the_movement_keys() {
    let mut control = Control::default();
    control.update(17, true);
    assert!(control.front);
    control.update(31, true);
    assert!(control.back);
    control.update(30, true);
    assert!(control.left);
    control.update(32, true);
    assert!(control.right);
    control.update(57, true);
    assert!(control.up);
    control.update(29, true);
    assert!(control.down);
    control.update(42, true);
    assert!(control.shift);
    assert_eq!(
        [KEY_FRONT, KEY_BACK, KEY_LEFT, KEY_RIGHT, KEY_UP, KEY_DOWN, KEY_SHIFT],
        [17, 31, 30, 32, 57, 29, 42]
    );
    control.update(KEY_LEFT, false);
    assert_eq!(
        control,
        Control {
            front: true,
            back: true,
            left: false,
            right: true,
            up: true,
            down: true,
            shift: true,
        }
    );
}

#[test]
fn control_ignores_other_keys() {
    let mut control = Control::default();
    control.update(KEY_UP, true);
    let before = control;
    for key in [0, 1, 16, 18, 28, 33, 41, 43, 56, 58, 1000, u32::MAX] {
        control.update(key, true);
        control.update(key, false);
        assert_eq!(control, before);
    }
}
