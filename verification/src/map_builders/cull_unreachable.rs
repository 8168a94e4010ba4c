use vstd::prelude::*;

use crate::map::{GameMap, TileType};
use crate::map_builders::BuilderMap;

verus! {

/// The distance that a search from the start records for a tile it cannot reach: the bit
/// pattern of the largest finite `f32`. Distances are handed over as the bit patterns of
/// non-negative `f32`s, which order as the numbers do.
pub const UNREACHABLE: u32 = 0x7F7F_FFFF;

/// The distance recorded for `(x, y)` in a row-major list for a map `w` wide.
pub open spec fn dist_at(d: Seq<u32>, w: int, x: int, y: int) -> u32 {
    d[y * w + x]
}

/// A list of distances covers a `w` by `h` map.
pub open spec fn distances_wf(d: Seq<u32>, w: int, h: int) -> bool {
    d.len() == w * h
}

/// The index `y * w + x` of a tile of a `w` by `h` map is within the map's tile count.
pub proof fn lemma_tile_index(w: int, h: int, x: int, y: int)
    requires
        0 <= x < w,
        0 <= y < h,
    ensures
        0 <= y * w + x < w * h,
{
    assert(0 <= y * w + x < w * h) by (nonlinear_arith)
        requires 0 <= x < w, 0 <= y < h;
}

/// Walls off the floor that cannot be reached from the start.
pub struct CullUnreachable {}

impl CullUnreachable {
    /// A culler.
    pub fn new() -> (b: Box<CullUnreachable>) {
        Box::new(CullUnreachable {})
    }

    /// Marks the walls as blocking and gives the index of the start tile, from which the
    /// distances to every tile are then searched.
    pub fn prepare(&mut self, build_data: &mut BuilderMap) -> (start_idx: usize)
        requires
            old(build_data).wf(),
            old(build_data).starting_position matches Some(p) && old(build_data).map.on_map(p.x as int, p.y as int),
        ensures
            final(build_data).wf(),
            final(build_data).map.tiles == old(build_data).map.tiles,
            final(build_data).map.width == old(build_data).map.width,
            final(build_data).map.height == old(build_data).map.height,
            final(build_data).map.depth == old(build_data).map.depth,
            final(build_data).map.revealed_tiles == old(build_data).map.revealed_tiles,
            final(build_data).map.visible_tiles == old(build_data).map.visible_tiles,
            final(build_data).map.bloodstains == old(build_data).map.bloodstains,
            forall|x: int, y: int| #![trigger final(build_data).map.blocked@[x]@[y]]
                final(build_data).map.on_map(x, y) ==> final(build_data).map.blocked@[x]@[y] == (final(build_data).map.tile(x, y) == TileType::Wall),
            final(build_data).spawn_list == old(build_data).spawn_list,
            final(build_data).starting_position == old(build_data).starting_position,
            final(build_data).rooms == old(build_data).rooms,
            final(build_data).corridors == old(build_data).corridors,
            final(build_data).history == old(build_data).history,
            final(build_data).width == old(build_data).width,
            final(build_data).height == old(build_data).height,
            start_idx == old(build_data).starting_position->0.y * old(build_data).map.width + old(build_data).starting_position->0.x,
    {
        build_data.map.populate_blocked();
        let p = match &build_data.starting_position {
            Some(p) => *p,
            None => crate::components::Position { x: 0, y: 0 },
        };
        build_data.map.xy_idx(p.x, p.y)
    }

    /// Walls every floor tile whose distance from the start is `UNREACHABLE`.
    pub fn cull(&mut self, build_data: &mut BuilderMap, distances: &Vec<u32>)
        requires
            old(build_data).wf(),
            old(build_data).starting_position is Some,
            distances_wf(distances@, old(build_data).map.width as int, old(build_data).map.height as int),
        ensures
            final(build_data).wf(),
            final(build_data).same_but_tiles(*old(build_data)),
            forall|x: int, y: int| #![trigger final(build_data).map.tile(x, y)] final(build_data).map.on_map(x, y) ==>
                final(build_data).map.tile(x, y) == if old(build_data).map.tile(x, y) == TileType::Floor
                    && dist_at(distances@, old(build_data).map.width as int, x, y) == UNREACHABLE {
                    TileType::Wall
                } else {
                    old(build_data).map.tile(x, y)
                },
    {
        let ghost b0 = *build_data;
        let ghost m0 = b0.map;
        let w = build_data.map.width;
        let h = build_data.map.height;
        let mut x: i32 = 0;
        while x < w
            invariant
                build_data.wf(),
                build_data.same_but_tiles(b0),
                m0 == b0.map,
                w == m0.width,
                h == m0.height,
                distances_wf(distances@, w as int, h as int),
                0 <= x <= w,
                forall|a: int, b: int| #![trigger build_data.map.tile(a, b)] build_data.map.on_map(a, b) ==>
                    build_data.map.tile(a, b) == if a < x && m0.tile(a, b) == TileType::Floor && dist_at(distances@, w as int, a, b) == UNREACHABLE {
                        TileType::Wall
                    } else {
                        m0.tile(a, b)
                    },
            decreases w - x,
        {
            let mut y: i32 = 0;
            while y < h
                invariant
                    build_data.wf(),
                    build_data.same_but_tiles(b0),
                    m0 == b0.map,
                    w == m0.width,
                    h == m0.height,
                    distances_wf(distances@, w as int, h as int),
                    0 <= x < w,
                    0 <= y <= h,
                    forall|a: int, b: int| #![trigger build_data.map.tile(a, b)] build_data.map.on_map(a, b) ==>
                        build_data.map.tile(a, b) == if (a < x || (a == x && b < y)) && m0.tile(a, b) == TileType::Floor
                            && dist_at(distances@, w as int, a, b) == UNREACHABLE {
                            TileType::Wall
                        } else {
                            m0.tile(a, b)
                        },
                decreases h - y,
            {
                proof {
                    lemma_tile_index(w as int, h as int, x as int, y as int);
                }
                if build_data.map.tiles[x as usize][y as usize] == TileType::Floor {
                    let idx = y as usize * w as usize + x as usize;
                    if distances[idx] == UNREACHABLE {
                        build_data.map.set_tile(x as usize, y as usize, TileType::Wall);
                    }
                }
                y = y + 1;
            }
            x = x + 1;
        }
    }
}

} // verus!
