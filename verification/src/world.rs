//! Rooms: tile-mapped level pieces built from a block grid and a texture
//! mapping grid.
//!
//! Loading a room from a scene file is the loader's business; this module
//! holds the room itself and the population of its grids from plain cell
//! data.

use crate::grid::Grid;
use vstd::prelude::*;

verus! {

/// What one tile of a room is made of.
#[allow(non_camel_case_types)]
#[derive(Clone, Copy, PartialEq, Eq, Structural, Debug)]
pub enum Block {
    AIR,
    SOLID,
    DESTRUCTABLE,
}

/// The block a stored cell value decodes to; unknown values decode to
/// air.
pub open spec fn spec_block_from(val: int) -> Block {
    if val == 0 {
        Block::AIR
    } else if val == 1 {
        Block::SOLID
    } else if val == 2 {
        Block::DESTRUCTABLE
    } else {
        Block::AIR
    }
}

impl Block {
    /// Decodes a stored cell value; unknown values decode to air.
    pub fn from(val: usize) -> (r: Block)
        ensures
            r == spec_block_from(val as int),
    {
        match val {
            0 => Block::AIR,
            1 => Block::SOLID,
            2 => Block::DESTRUCTABLE,
            _ => Block::AIR,
        }
    }
}

/// The block a room stores at `(x, y)` when built from `cells`: the
/// decoded value where one is given, air everywhere else.
pub open spec fn spec_room_block(cells: Seq<Seq<Option<usize>>>, x: int, y: int) -> Block {
    if 0 <= y < cells.len() && 0 <= x < cells[y].len() && cells[y][x] is Some {
        spec_block_from(cells[y][x]->0 as int)
    } else {
        Block::AIR
    }
}

/// The texture index a room stores at `(x, y)` when built from `cells`:
/// the given value where one is given, zero everywhere else.
pub open spec fn spec_room_texture(cells: Seq<Seq<Option<usize>>>, x: int, y: int) -> usize {
    if 0 <= y < cells.len() && 0 <= x < cells[y].len() && cells[y][x] is Some {
        cells[y][x]->0
    } else {
        0
    }
}

/// A room: a collision mapping and a texture mapping over one sheet of
/// tiles.
#[derive(Clone, PartialEq, Eq, Debug)]
pub struct Room {
    /// Collision mapping.
    pub blocks: Grid<Block>,
    /// Texture mapping.
    pub texture: Grid<usize>,
}

impl Room {
    /// Creates a room of the given tile size and cell counts, all blocks
    /// air and all texture indices zero.  Fails when any parameter is
    /// zero.
    pub fn new(block_width: usize, block_height: usize, width: usize, height: usize) -> (r: Option<
        Room,
    >)
        ensures
            r is Some <==> (block_width >= 1 && block_height >= 1 && width >= 1 && height >= 1),
            r matches Some(room) ==> {
                &&& room.blocks.spec_wf()
                &&& room.blocks.tile_width == block_width
                &&& room.blocks.tile_height == block_height
                &&& room.blocks.width == width
                &&& room.blocks.height == height
                &&& room.blocks.depth == 1
                &&& room.texture.spec_wf()
                &&& room.texture.tile_width == block_width
                &&& room.texture.tile_height == block_height
                &&& room.texture.width == width
                &&& room.texture.height == height
                &&& room.texture.depth == 1
            },
    {
        let blocks = match Grid::<Block>::new_with_default(
            block_width,
            block_height,
            1,
            width,
            height,
            1,
            &Block::AIR,
        ) {
            Ok(g) => g,
            Err(_) => {
                return None;
            },
        };
        let texture = match Grid::<usize>::new_with_default(
            block_width,
            block_height,
            1,
            width,
            height,
            1,
            &0,
        ) {
            Ok(g) => g,
            Err(_) => {
                return None;
            },
        };
        Some(Room { blocks, texture })
    }

    /// Builds a room from plain cell data, row by row: a given value sets
    /// the cell, a missing one leaves the default (air, texture index
    /// zero).  Rows beyond the data, and cells beyond a row, keep their
    /// defaults; data beyond the declared width and height is ignored.
    /// Fails when any size parameter is zero.
    pub fn from_cells(
        tile_width: usize,
        tile_height: usize,
        width: usize,
        height: usize,
        block_cells: &Vec<Vec<Option<usize>>>,
        texture_cells: &Vec<Vec<Option<usize>>>,
    ) -> (r: Option<Room>)
        ensures
            r is Some <==> (tile_width >= 1 && tile_height >= 1 && width >= 1 && height >= 1),
            r matches Some(room) ==> {
                &&& room.blocks.spec_wf()
                &&& room.blocks.tile_width == tile_width
                &&& room.blocks.tile_height == tile_height
                &&& room.blocks.width == width
                &&& room.blocks.height == height
                &&& room.blocks.depth == 1
                &&& room.texture.spec_wf()
                &&& room.texture.tile_width == tile_width
                &&& room.texture.tile_height == tile_height
                &&& room.texture.width == width
                &&& room.texture.height == height
                &&& room.texture.depth == 1
                &&& forall|x: int, y: int|
                    room.blocks.spec_in_range(x, y, 0) ==> #[trigger] room.blocks.spec_cell(x, y, 0)
                        == spec_room_block(spec_rows(block_cells@), x, y)
                &&& forall|x: int, y: int|
                    room.texture.spec_in_range(x, y, 0) ==> #[trigger] room.texture.spec_cell(
                        x,
                        y,
                        0,
                    ) == spec_room_texture(spec_rows(texture_cells@), x, y)
            },
    {
        let mut blocks = match Grid::<Block>::new_with_default(
            tile_width,
            tile_height,
            1,
            width,
            height,
            1,
            &Block::AIR,
        ) {
            Ok(g) => g,
            Err(_) => {
                return None;
            },
        };
        let mut texture = match Grid::<usize>::new_with_default(
            tile_width,
            tile_height,
            1,
            width,
            height,
            1,
            &0,
        ) {
            Ok(g) => g,
            Err(_) => {
                return None;
            },
        };
        let mut y: usize = 0;
        while y < height
            invariant
                y <= height,
                blocks.spec_wf(),
                blocks.tile_width == tile_width,
                blocks.tile_height == tile_height,
                blocks.width == width,
                blocks.height == height,
                blocks.depth == 1,
                forall|i: int, j: int|
                    0 <= i < width && 0 <= j < y ==> #[trigger] blocks.spec_cell(i, j, 0)
                        == spec_room_block(spec_rows(block_cells@), i, j),
            decreases height - y,
        {
            let mut x: usize = 0;
            while x < width
                invariant
                    y < height,
                    x <= width,
                    blocks.spec_wf(),
                    blocks.tile_width == tile_width,
                    blocks.tile_height == tile_height,
                    blocks.width == width,
                    blocks.height == height,
                    blocks.depth == 1,
                    forall|i: int, j: int|
                        0 <= i < width && 0 <= j < y ==> #[trigger] blocks.spec_cell(i, j, 0)
                            == spec_room_block(spec_rows(block_cells@), i, j),
                    forall|i: int|
                        0 <= i < x ==> #[trigger] blocks.spec_cell(i, y as int, 0)
                            == spec_room_block(spec_rows(block_cells@), i, y as int),
                decreases width - x,
            {
                let value: Block = if y < block_cells.len() && x < block_cells[y].len() {
                    match block_cells[y][x] {
                        Some(v) => Block::from(v),
                        None => Block::AIR,
                    }
                } else {
                    Block::AIR
                };
                let ghost blocks0: Grid<Block> = blocks;
                blocks.insert(x, y, 0, value);
                proof {
                    let rows = spec_rows(block_cells@);
                    if (y as int) < block_cells@.len() {
                        assert(rows[y as int] == block_cells@[y as int]@);
                    }
                    assert(value == spec_room_block(rows, x as int, y as int));
                    assert forall|i: int, j: int| 0 <= i < width && 0 <= j < y implies #[trigger] blocks.spec_cell(i, j, 0) == spec_room_block(rows, i, j) by {
                        assert(blocks.elements@[0]@[j] == blocks0.elements@[0]@[j]);
                        assert(blocks0.spec_cell(i, j, 0) == spec_room_block(rows, i, j));
                    }
                    assert forall|i: int| 0 <= i < x + 1 implies #[trigger] blocks.spec_cell(i, y as int, 0) == spec_room_block(rows, i, y as int) by {
                        assert(blocks.elements@[0]@[y as int]@ == blocks0.elements@[0]@[y as int]@.update(x as int, value));
                        if i < x as int {
                            assert(blocks0.spec_cell(i, y as int, 0) == spec_room_block(rows, i, y as int));
                        }
                    }
                }
                x = x + 1;
            }
            y = y + 1;
        }
        let mut y2: usize = 0;
        while y2 < height
            invariant
                y2 <= height,
                texture.spec_wf(),
                texture.tile_width == tile_width,
                texture.tile_height == tile_height,
                texture.width == width,
                texture.height == height,
                texture.depth == 1,
                forall|i: int, j: int|
                    0 <= i < width && 0 <= j < y2 ==> #[trigger] texture.spec_cell(i, j, 0)
                        == spec_room_texture(spec_rows(texture_cells@), i, j),
            decreases height - y2,
        {
            let mut x2: usize = 0;
            while x2 < width
                invariant
                    y2 < height,
                    x2 <= width,
                    texture.spec_wf(),
                    texture.tile_width == tile_width,
                    texture.tile_height == tile_height,
                    texture.width == width,
                    texture.height == height,
                    texture.depth == 1,
                    forall|i: int, j: int|
                        0 <= i < width && 0 <= j < y2 ==> #[trigger] texture.spec_cell(i, j, 0)
                            == spec_room_texture(spec_rows(texture_cells@), i, j),
                    forall|i: int|
                        0 <= i < x2 ==> #[trigger] texture.spec_cell(i, y2 as int, 0)
                            == spec_room_texture(spec_rows(texture_cells@), i, y2 as int),
                decreases width - x2,
            {
                let value: usize = if y2 < texture_cells.len() && x2 < texture_cells[y2].len() {
                    match texture_cells[y2][x2] {
                        Some(v) => v,
                        None => 0,
                    }
                } else {
                    0
                };
                let ghost texture0: Grid<usize> = texture;
                texture.insert(x2, y2, 0, value);
                proof {
                    let rows = spec_rows(texture_cells@);
                    if (y2 as int) < texture_cells@.len() {
                        assert(rows[y2 as int] == texture_cells@[y2 as int]@);
                    }
                    assert(value == spec_room_texture(rows, x2 as int, y2 as int));
                    assert forall|i: int, j: int| 0 <= i < width && 0 <= j < y2 implies #[trigger] texture.spec_cell(i, j, 0) == spec_room_texture(rows, i, j) by {
                        assert(texture.elements@[0]@[j] == texture0.elements@[0]@[j]);
                        assert(texture0.spec_cell(i, j, 0) == spec_room_texture(rows, i, j));
                    }
                    assert forall|i: int| 0 <= i < x2 + 1 implies #[trigger] texture.spec_cell(i, y2 as int, 0) == spec_room_texture(rows, i, y2 as int) by {
                        assert(texture.elements@[0]@[y2 as int]@ == texture0.elements@[0]@[y2 as int]@.update(x2 as int, value));
                        if i < x2 as int {
                            assert(texture0.spec_cell(i, y2 as int, 0) == spec_room_texture(rows, i, y2 as int));
                        }
                    }
                }
                x2 = x2 + 1;
            }
            y2 = y2 + 1;
        }
        Some(Room { blocks, texture })
    }
}

/// The rows of nested cell data, as mathematical sequences.
pub open spec fn spec_rows(rows: Seq<Vec<Option<usize>>>) -> Seq<Seq<Option<usize>>> {
    rows.map_values(|row: Vec<Option<usize>>| row@)
}

} // verus!
