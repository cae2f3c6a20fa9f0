use bbman::graphics::{extract_tile, sheet_dims};
use bbman::grid::{DimensionError, Grid};

#[test]
fn size() {
    let grid = Grid::<u8>::new_with_default(2, 2, 2, 3, 2, 1, &0).unwrap();

    assert_eq!(grid.elements.len(), grid.depth);
    assert_eq!(grid.elements[0].len(), grid.height);
    assert_eq!(grid.elements[0][0].len(), grid.width);
}

#[test]
fn flatten() {
    let mut grid = Grid::<u32>::new_with_default(2, 2, 2, 2, 2, 2, &0).unwrap();

    grid.insert(0, 0, 1, 32);
    grid.insert(1, 0, 1, 64);
    grid.insert(0, 1, 1, 128);
    grid.insert(1, 1, 1, 256);
    grid.insert(0, 0, 0, 2);
    grid.insert(1, 0, 0, 4);
    grid.insert(0, 1, 0, 8);
    grid.insert(1, 1, 0, 16);

    assert_eq!(grid.flatten(), vec![2, 4, 8, 16, 32, 64, 128, 256]);
}

#[test]
fn flatten_single_sheet_row_major() {
    let mut grid = Grid::<u32>::new_with_default(1, 1, 1, 2, 2, 1, &0).unwrap();
    grid.insert(0, 0, 0, 2);
    grid.insert(1, 0, 0, 4);
    grid.insert(0, 1, 0, 8);
    grid.insert(1, 1, 0, 16);

    assert_eq!(grid.flatten(), vec![2, 4, 8, 16]);
}

#[test]
fn new_rejects_each_zero_dimension() {
    assert_eq!(Grid::<u8>::new(0, 2, 2, 2, 2, 2).unwrap_err(), DimensionError);
    assert!(Grid::<u8>::new(2, 0, 2, 2, 2, 2).is_err());
    assert!(Grid::<u8>::new(2, 2, 0, 2, 2, 2).is_err());
    assert!(Grid::<u8>::new(2, 2, 2, 0, 2, 2).is_err());
    assert!(Grid::<u8>::new(2, 2, 2, 2, 0, 2).is_err());
    assert!(Grid::<u8>::new(2, 2, 2, 2, 2, 0).is_err());
    assert!(Grid::<u8>::new(1, 1, 1, 1, 1, 1).is_ok());
}

#[test]
fn new_with_default_rejects_each_zero_dimension() {
    assert!(Grid::<u8>::new_with_default(0, 2, 2, 2, 2, 2, &7).is_err());
    assert!(Grid::<u8>::new_with_default(2, 0, 2, 2, 2, 2, &7).is_err());
    assert!(Grid::<u8>::new_with_default(2, 2, 0, 2, 2, 2, &7).is_err());
    assert!(Grid::<u8>::new_with_default(2, 2, 2, 0, 2, 2, &7).is_err());
    assert!(Grid::<u8>::new_with_default(2, 2, 2, 2, 0, 2, &7).is_err());
    assert!(Grid::<u8>::new_with_default(2, 2, 2, 2, 2, 0, &7).is_err());
    let grid = Grid::<u8>::new_with_default(2, 2, 2, 2, 2, 2, &7).unwrap();
    assert_eq!(grid.at(1, 1, 1), Some(&7));
}

#[test]
fn in_range_is_strict() {
    let grid = Grid::<u8>::new_with_default(1, 1, 1, 3, 2, 1, &0).unwrap();
    assert!(grid.in_range(2, 1, 0));
    assert!(!grid.in_range(3, 1, 0));
    assert!(!grid.in_range(2, 2, 0));
    assert!(!grid.in_range(2, 1, 1));
}

#[test]
fn at_and_insert() {
    let mut grid = Grid::<u8>::new_with_default(1, 1, 1, 2, 2, 1, &0).unwrap();
    grid.insert(1, 0, 0, 9);
    assert_eq!(grid.at(1, 0, 0), Some(&9));
    assert_eq!(grid.at(0, 1, 0), Some(&0));
    assert_eq!(grid.at(2, 0, 0), None);
    // Out-of-range insert is a silent no-op.
    grid.insert(5, 5, 5, 9);
    assert_eq!(grid.at(0, 0, 0), Some(&0));
}

#[test]
fn at_mut_updates_in_place() {
    let mut grid = Grid::<u8>::new_with_default(1, 1, 1, 2, 1, 1, &0).unwrap();
    if let Some(cell) = grid.at_mut(1, 0, 0) {
        *cell = 42;
    }
    assert_eq!(grid.at(1, 0, 0), Some(&42));
    assert!(grid.at_mut(2, 0, 0).is_none());
}

#[test]
fn push_appends_to_row() {
    let mut grid = Grid::<u8>::new(1, 1, 1, 2, 2, 1).unwrap();
    // Rows start empty after `new`.
    assert_eq!(grid.at(0, 0, 0), None);
    grid.push(0, 0, 5);
    grid.push(0, 0, 6);
    assert_eq!(grid.at(0, 0, 0), Some(&5));
    assert_eq!(grid.at(1, 0, 0), Some(&6));
    assert_eq!(grid.at(0, 1, 0), None);
}

#[test]
fn absolute_sizes() {
    let grid = Grid::<u8>::new_with_default(16, 8, 2, 3, 4, 5, &0).unwrap();
    assert_eq!(grid.absolute_width(), 48);
    assert_eq!(grid.absolute_height(), 32);
    assert_eq!(grid.absolute_depth(), 10);
}

#[test]
fn resize_grows_and_truncates() {
    let mut grid = Grid::<u8>::new_with_default(1, 1, 1, 2, 2, 1, &1).unwrap();
    grid.insert(1, 1, 0, 9);
    grid.resize(3, 1, 1, 7);
    assert_eq!(grid.width, 3);
    assert_eq!(grid.height, 1);
    assert_eq!(grid.depth, 1);
    // Kept cells survive, new cells take the fill value.
    assert_eq!(grid.at(0, 0, 0), Some(&1));
    assert_eq!(grid.at(1, 0, 0), Some(&1));
    assert_eq!(grid.at(2, 0, 0), Some(&7));
    // The truncated row is gone.
    assert_eq!(grid.at(1, 1, 0), None);
}

#[test]
fn clear_overwrites_every_cell() {
    let mut grid = Grid::<u8>::new_with_default(1, 1, 1, 2, 2, 2, &3).unwrap();
    grid.insert(0, 0, 0, 9);
    grid.clear(&5);
    for z in 0..2 {
        for y in 0..2 {
            for x in 0..2 {
                assert_eq!(grid.at(x, y, z), Some(&5));
            }
        }
    }
}

#[test]
fn spritesheet_arithmetic() {
    // A 4x4 single-channel image holding bytes 0..16, cut into 2x2 tiles.
    let data: Vec<u8> = (0..16).collect();
    assert_eq!(sheet_dims(4, 4, 2, 2), (2, 2));
    assert_eq!(sheet_dims(33, 17, 16, 16), (2, 1));

    // Tiles come out bottom row first.
    assert_eq!(extract_tile(&data, 4, 4, 1, 2, 2, 0, 0), vec![4, 5, 0, 1]);
    assert_eq!(extract_tile(&data, 4, 4, 1, 2, 2, 1, 1), vec![14, 15, 10, 11]);

    // A sheet grid of 16-pixel tiles, two by two, flattens to four tiles.
    let mut sheet = bbman::grid::Grid::<Vec<u8>>::new(16, 16, 1, 2, 2, 1).unwrap();
    for y in 0..2 {
        for x in 0..2 {
            let _ = x;
            sheet.push(y, 0, vec![0u8; 16 * 16 * 4]);
        }
    }
    assert!(sheet.in_range(1, 1, 0));
    assert_eq!(sheet.flatten().len(), 4);
}
