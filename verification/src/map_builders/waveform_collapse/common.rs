use vstd::prelude::*;

use crate::map::TileType;

verus! {

/// One pattern of the wave-function collapse: its tiles, row by row, which edge tiles
/// are open (north, south, west, east), whether any is, and which patterns may sit next to
/// it on each side.
#[derive(Clone, Debug)]
pub struct MapChunk {
    pub pattern: Vec<TileType>,
    pub exits: [Vec<bool>; 4],
    pub has_exits: bool,
    pub compatible_with: [Vec<usize>; 4],
}

/// The index of tile `(x, y)` in a chunk of side `chunk_size`, row by row.
pub open spec fn spec_tile_idx(chunk_size: int, x: int, y: int) -> int {
    y * chunk_size + x
}

/// The index of tile `(x, y)` in a chunk of side `chunk_size`, row by row: distinct tiles
/// get distinct indices, and the index gives the column back as its remainder and the row as
/// its quotient.
pub fn tile_idx_in_chunk(chunk_size: i32, x: i32, y: i32) -> (idx: usize)
    requires
        0 <= x < chunk_size,
        0 <= y < chunk_size,
        y * chunk_size + x <= i32::MAX,
    ensures
        idx == spec_tile_idx(chunk_size as int, x as int, y as int),
        idx < chunk_size * chunk_size,
        idx as int % chunk_size as int == x,
        idx as int / chunk_size as int == y,
{
    assert(0 <= y * chunk_size + x < chunk_size * chunk_size) by (nonlinear_arith)
        requires 0 <= x < chunk_size, 0 <= y < chunk_size;
    proof {
        vstd::arithmetic::div_mod::lemma_fundamental_div_mod_converse(y * chunk_size + x, chunk_size as int, y as int, x as int);
    }
    ((y * chunk_size) + x) as usize
}

} // verus!
