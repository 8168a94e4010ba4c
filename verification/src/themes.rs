use vstd::prelude::*;

use crate::map::{GameMap, TileType};

verus! {

/// The character a tile is drawn with: in the forest (depth 2) floor is grass and walls are
/// trees; elsewhere floor and walls are dots (walls are told apart by their colour).
pub open spec fn spec_tile_glyph(tile: TileType, depth: i32) -> char {
    match tile {
        TileType::Floor => if depth == 2 { '"' } else { '.' },
        TileType::Wall => if depth == 2 { '\u{2663}' } else { '.' },
        TileType::DownStairs => '>',
        TileType::Bridge => '|',
        TileType::Road => '~',
        TileType::Grass => '"',
        TileType::ShallowWater => '\u{2248}',
        TileType::DeepWater => '\u{2248}',
        TileType::WoodFloor => '.',
        TileType::Gravel => '\'',
        TileType::Moss => '#',
    }
}

/// The character a tile is drawn with at a depth (see `spec_tile_glyph`).
pub fn tile_glyph(tile: TileType, depth: i32) -> (g: char)
    ensures
        g == spec_tile_glyph(tile, depth),
{
    match tile {
        TileType::Floor => if depth == 2 { '"' } else { '.' },
        TileType::Wall => if depth == 2 { '\u{2663}' } else { '.' },
        TileType::DownStairs => '>',
        TileType::Bridge => '|',
        TileType::Road => '~',
        TileType::Grass => '"',
        TileType::ShallowWater => '\u{2248}',
        TileType::DeepWater => '\u{2248}',
        TileType::WoodFloor => '.',
        TileType::Gravel => '\'',
        TileType::Moss => '#',
    }
}

/// The tile at `(x, y)` is a wall the player has seen.
pub open spec fn seen_wall(m: GameMap, x: int, y: int) -> bool {
    m.tile(x, y) == TileType::Wall && m.revealed_tiles@[x]@[y]
}

/// Which neighbours are seen walls: 1 north, 2 south, 4 west, 8 east.
pub open spec fn wall_mask(m: GameMap, x: int, y: int) -> int {
    (if seen_wall(m, x, y - 1) { 1int } else { 0int }) + (if seen_wall(m, x, y + 1) { 2int } else { 0int })
        + (if seen_wall(m, x - 1, y) { 4int } else { 0int }) + (if seen_wall(m, x + 1, y) { 8int } else { 0int })
}

/// The code-page-437 line glyph joining a wall to the seen walls around it, by mask.
pub open spec fn mask_glyph(mask: int) -> u16 {
    if mask == 0 { 9 } else if mask <= 3 { 186 } else if mask == 4 { 205 } else if mask == 5 { 188 }
    else if mask == 6 { 187 } else if mask == 7 { 185 } else if mask == 8 { 205 } else if mask == 9 { 200 }
    else if mask == 10 { 201 } else if mask == 11 { 204 } else if mask == 12 { 205 } else if mask == 13 { 202 }
    else if mask == 14 { 203 } else if mask == 15 { 206 } else { 35 }
}

fn is_revealed_and_wall(map: &GameMap, x: i32, y: i32) -> (r: bool)
    requires
        map.wf(),
        map.on_map(x as int, y as int),
    ensures
        r == seen_wall(*map, x as int, y as int),
{
    map.tiles[x as usize][y as usize] == TileType::Wall && map.revealed_tiles[x as usize][y as usize]
}

/// The glyph for a wall at `(x, y)`: a plain `#` on the map's edge, else a line glyph
/// joining it to the seen walls next to it.
pub fn wall_glyph(map: &GameMap, x: i32, y: i32) -> (g: u16)
    requires
        map.wf(),
    ensures
        g == if x < 1 || x > map.width - 2 || y < 1 || y > map.height - 2 { 35 } else { mask_glyph(wall_mask(*map, x as int, y as int)) },
{
    if x < 1 || x > map.width - 2 || y < 1 || y > map.height - 2 {
        return 35;
    }
    let mut mask: u8 = 0;
    if is_revealed_and_wall(map, x, y - 1) {
        mask = mask + 1;
    }
    if is_revealed_and_wall(map, x, y + 1) {
        mask = mask + 2;
    }
    if is_revealed_and_wall(map, x - 1, y) {
        mask = mask + 4;
    }
    if is_revealed_and_wall(map, x + 1, y) {
        mask = mask + 8;
    }
    assert(mask as int == wall_mask(*map, x as int, y as int));
    match mask {
        0 => 9,
        1 => 186,
        2 => 186,
        3 => 186,
        4 => 205,
        5 => 188,
        6 => 187,
        7 => 185,
        8 => 205,
        9 => 200,
        10 => 201,
        11 => 204,
        12 => 205,
        13 => 202,
        14 => 203,
        15 => 206,
        _ => 35,
    }
}

} // verus!
