use bbman::world::{Block, Room};

#[test]
fn block_from_decodes_known_values() {
    assert_eq!(Block::from(0), Block::AIR);
    assert_eq!(Block::from(1), Block::SOLID);
    assert_eq!(Block::from(2), Block::DESTRUCTABLE);
    assert_eq!(Block::from(3), Block::AIR);
    assert_eq!(Block::from(usize::MAX), Block::AIR);
}

#[test]
fn room_new_builds_default_grids() {
    let room = Room::new(16, 16, 2, 3).unwrap();
    assert_eq!(room.blocks.width, 2);
    assert_eq!(room.blocks.height, 3);
    assert_eq!(room.blocks.depth, 1);
    assert_eq!(room.blocks.tile_width, 16);
    assert_eq!(room.blocks.at(1, 2, 0), Some(&Block::AIR));
    assert_eq!(room.texture.at(1, 2, 0), Some(&0));
    assert!(Room::new(0, 16, 2, 3).is_none());
    assert!(Room::new(16, 16, 0, 3).is_none());
}

#[test]
fn room_from_cells_populates_grids() {
    let blocks = vec![
        vec![Some(0), Some(1)],
        vec![Some(2), Some(0)],
        vec![Some(1), Some(2)],
    ];
    let texture = vec![
        vec![Some(1), Some(0)],
        vec![Some(0), Some(2)],
        vec![Some(3), Some(0)],
    ];
    let room = Room::from_cells(16, 16, 2, 3, &blocks, &texture).unwrap();

    assert_eq!(room.blocks.at(1, 0, 0), Some(&Block::SOLID));
    assert_eq!(room.blocks.at(1, 2, 0), Some(&Block::DESTRUCTABLE));
    assert_eq!(room.blocks.at(0, 0, 0), Some(&Block::AIR));

    assert_eq!(room.texture.at(0, 0, 0), Some(&1));
    assert_eq!(room.texture.at(1, 2, 0), Some(&0));
    assert_eq!(room.texture.at(1, 1, 0), Some(&2));
    assert_eq!(room.texture.at(0, 2, 0), Some(&3));
}

#[test]
fn room_from_cells_missing_data_keeps_defaults() {
    // One row only, with a hole: everything else keeps the defaults.
    let blocks = vec![vec![None, Some(1)]];
    let texture: Vec<Vec<Option<usize>>> = Vec::new();
    let room = Room::from_cells(8, 8, 2, 2, &blocks, &texture).unwrap();
    assert_eq!(room.blocks.at(0, 0, 0), Some(&Block::AIR));
    assert_eq!(room.blocks.at(1, 0, 0), Some(&Block::SOLID));
    assert_eq!(room.blocks.at(0, 1, 0), Some(&Block::AIR));
    assert_eq!(room.texture.at(1, 1, 0), Some(&0));
}

#[test]
fn room_from_cells_rejects_zero_sizes() {
    let none: Vec<Vec<Option<usize>>> = Vec::new();
    assert!(Room::from_cells(0, 8, 2, 2, &none, &none).is_none());
    assert!(Room::from_cells(8, 0, 2, 2, &none, &none).is_none());
    assert!(Room::from_cells(8, 8, 0, 2, &none, &none).is_none());
    assert!(Room::from_cells(8, 8, 2, 0, &none, &none).is_none());
}
