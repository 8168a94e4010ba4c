use vstd::prelude::*;

use crate::map::{GameMap, TileType};
use crate::map_builders::area_starting_points::before_in_scan;
use crate::map_builders::common::replace_tiles;
use crate::map_builders::cull_unreachable::{dist_at, distances_wf, lemma_tile_index, UNREACHABLE};
use crate::map_builders::BuilderMap;

verus! {

/// Puts the down stairs as far from the start as can be walked.
pub struct DistantExit {}

/// `(x, y)` is a floor tile reachable from the start, further than nothing.
pub open spec fn far_candidate(m: GameMap, d: Seq<u32>, x: int, y: int) -> bool {
    &&& m.on_map(x, y)
    &&& m.tile(x, y) == TileType::Floor
    &&& dist_at(d, m.width as int, x, y) != UNREACHABLE
    &&& dist_at(d, m.width as int, x, y) > 0
}

/// Where the stairs go: the first, column by column, of the reachable floor tiles furthest
/// from the start; the corner `(0, 0)` when no floor tile is further than nothing.
pub open spec fn exit_spot(m: GameMap, d: Seq<u32>, x: int, y: int) -> bool {
    if exists|a: int, b: int| #[trigger] far_candidate(m, d, a, b) {
        &&& far_candidate(m, d, x, y)
        &&& forall|a: int, b: int| #[trigger] far_candidate(m, d, a, b) ==> {
            &&& dist_at(d, m.width as int, a, b) <= dist_at(d, m.width as int, x, y)
            &&& before_in_scan(a, b, x, y) ==> dist_at(d, m.width as int, a, b) < dist_at(d, m.width as int, x, y)
        }
    } else {
        x == 0 && y == 0
    }
}

impl DistantExit {
    /// A stairs placer.
    pub fn new() -> (b: Box<DistantExit>) {
        Box::new(DistantExit {})
    }

    /// Turns every down stairs back into floor and gives the index of the start tile, from
    /// which the distances to every tile are then searched.
    pub fn prepare(&mut self, build_data: &mut BuilderMap) -> (start_idx: usize)
        requires
            old(build_data).wf(),
            old(build_data).starting_position matches Some(p) && old(build_data).map.on_map(p.x as int, p.y as int),
        ensures
            final(build_data).wf(),
            final(build_data).same_but_tiles(*old(build_data)),
            forall|a: int, b: int| #![trigger final(build_data).map.tile(a, b)] final(build_data).map.on_map(a, b) ==>
                final(build_data).map.tile(a, b) == if old(build_data).map.tile(a, b) == TileType::DownStairs { TileType::Floor } else { old(build_data).map.tile(a, b) },
            start_idx == old(build_data).starting_position->0.y * old(build_data).map.width + old(build_data).starting_position->0.x,
    {
        let p = match &build_data.starting_position {
            Some(p) => *p,
            None => crate::components::Position { x: 0, y: 0 },
        };
        let start_idx = build_data.map.xy_idx(p.x, p.y);
        replace_tiles(&mut build_data.map, TileType::DownStairs, TileType::Floor);
        start_idx
    }

    /// Puts the down stairs at the reachable floor tile furthest from the start (the first,
    /// column by column, among equally far ones), or at `(0, 0)` when none is further than
    /// nothing; nothing else changes.
    pub fn place_exit(&mut self, build_data: &mut BuilderMap, distances: &Vec<u32>)
        requires
            old(build_data).wf(),
            distances_wf(distances@, old(build_data).map.width as int, old(build_data).map.height as int),
        ensures
            final(build_data).wf(),
            final(build_data).same_but_tiles(*old(build_data)),
            exists|ex: int, ey: int| #![trigger exit_spot(old(build_data).map, distances@, ex, ey)]
                exit_spot(old(build_data).map, distances@, ex, ey)
                && forall|a: int, b: int| #![trigger final(build_data).map.tile(a, b)] final(build_data).map.on_map(a, b) ==>
                    final(build_data).map.tile(a, b) == if a == ex && b == ey { TileType::DownStairs } else { old(build_data).map.tile(a, b) },
    {
        let ghost b0 = *build_data;
        let ghost m0 = b0.map;
        let w = build_data.map.width;
        let h = build_data.map.height;
        let mut ex: i32 = 0;
        let mut ey: i32 = 0;
        let mut best: u32 = 0;
        let mut x: i32 = 0;
        while x < w
            invariant
                build_data.wf(),
                build_data.map == m0,
                w == m0.width,
                h == m0.height,
                distances_wf(distances@, w as int, h as int),
                0 <= x <= w,
                best == 0 ==> ex == 0 && ey == 0,
                best == 0 ==> forall|a: int, b: int| #[trigger] far_candidate(m0, distances@, a, b) ==> a >= x,
                best > 0 ==> far_candidate(m0, distances@, ex as int, ey as int) && best == dist_at(distances@, w as int, ex as int, ey as int) && ex < x,
                best > 0 ==> forall|a: int, b: int| #[trigger] far_candidate(m0, distances@, a, b) && a < x ==> {
                    &&& dist_at(distances@, w as int, a, b) <= best
                    &&& before_in_scan(a, b, ex as int, ey as int) ==> dist_at(distances@, w as int, a, b) < best
                },
            decreases w - x,
        {
            let mut y: i32 = 0;
            while y < h
                invariant
                    build_data.wf(),
                    build_data.map == m0,
                    w == m0.width,
                    h == m0.height,
                    distances_wf(distances@, w as int, h as int),
                    0 <= x < w,
                    0 <= y <= h,
                    best == 0 ==> ex == 0 && ey == 0,
                    best == 0 ==> forall|a: int, b: int| #[trigger] far_candidate(m0, distances@, a, b) ==> !before_in_scan(a, b, x as int, y as int),
                    best > 0 ==> far_candidate(m0, distances@, ex as int, ey as int) && best == dist_at(distances@, w as int, ex as int, ey as int)
                        && before_in_scan(ex as int, ey as int, x as int, y as int),
                    best > 0 ==> forall|a: int, b: int| #[trigger] far_candidate(m0, distances@, a, b) && before_in_scan(a, b, x as int, y as int) ==> {
                        &&& dist_at(distances@, w as int, a, b) <= best
                        &&& before_in_scan(a, b, ex as int, ey as int) ==> dist_at(distances@, w as int, a, b) < best
                    },
                decreases h - y,
            {
                proof {
                    lemma_tile_index(w as int, h as int, x as int, y as int);
                }
                if build_data.map.tiles[x as usize][y as usize] == TileType::Floor {
                    let d = distances[y as usize * w as usize + x as usize];
                    if d != UNREACHABLE {
                        if d > best {
                            ex = x;
                            ey = y;
                            best = d;
                        }
                    }
                }
                y = y + 1;
            }
            x = x + 1;
        }
        build_data.map.set_tile(ex as usize, ey as usize, TileType::DownStairs);
        build_data.take_snapshot();
        proof {
            assert(exit_spot(m0, distances@, ex as int, ey as int));
        }
    }
}

} // verus!
