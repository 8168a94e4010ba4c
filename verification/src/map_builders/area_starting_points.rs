use vstd::prelude::*;

use crate::components::Position;
use crate::map::{GameMap, TileType};
use crate::map_builders::BuilderMap;

verus! {

/// Which column the start is sought near.
#[derive(PartialEq, Eq, Copy, Clone, Debug, Structural)]
pub enum XStart {
    LEFT,
    CENTER,
    RIGHT,
}

/// Which row the start is sought near.
#[derive(PartialEq, Eq, Copy, Clone, Debug, Structural)]
pub enum YStart {
    TOP,
    CENTER,
    BOTTOM,
}

/// Starts the player on the floor tile nearest to a chosen area of the map.
pub struct AreaStartingPoint {
    pub x: XStart,
    pub y: YStart,
}

/// The column sought: the second, the middle or the second to last.
pub open spec fn seed_x(x: XStart, w: int) -> int {
    match x {
        XStart::LEFT => 1,
        XStart::CENTER => w / 2,
        XStart::RIGHT => w - 2,
    }
}

/// The row sought: the second, the middle or the second to last.
pub open spec fn seed_y(y: YStart, h: int) -> int {
    match y {
        YStart::TOP => 1,
        YStart::CENTER => h / 2,
        YStart::BOTTOM => h - 2,
    }
}

/// The squared distance between two points.
pub open spec fn dist2(x1: int, y1: int, x2: int, y2: int) -> int {
    (x1 - x2) * (x1 - x2) + (y1 - y2) * (y1 - y2)
}

/// `(a, b)` comes before `(x, y)` going column by column, top to bottom.
pub open spec fn before_in_scan(a: int, b: int, x: int, y: int) -> bool {
    a < x || (a == x && b < y)
}

/// `(x, y)` is the first floor tile, going column by column, of those nearest to
/// `(sx, sy)`.
pub open spec fn nearest_floor(m: GameMap, sx: int, sy: int, x: int, y: int) -> bool {
    &&& m.on_map(x, y)
    &&& m.tile(x, y) == TileType::Floor
    &&& forall|a: int, b: int| #![trigger m.tile(a, b)] m.on_map(a, b) && m.tile(a, b) == TileType::Floor ==> {
        &&& dist2(x, y, sx, sy) <= dist2(a, b, sx, sy)
        &&& before_in_scan(a, b, x, y) ==> dist2(x, y, sx, sy) < dist2(a, b, sx, sy)
    }
}

/// The map has a floor tile.
pub open spec fn has_floor(m: GameMap) -> bool {
    exists|a: int, b: int| m.on_map(a, b) && #[trigger] m.tile(a, b) == TileType::Floor
}

/// The first floor tile, column by column, of those nearest to `(sx, sy)`.
pub fn find_nearest_floor(map: &GameMap, sx: i32, sy: i32) -> (p: (i32, i32))
    requires
        map.wf(),
        has_floor(*map),
        -1_000_000 <= sx <= 1_000_000,
        -1_000_000 <= sy <= 1_000_000,
        map.width <= 1_000_000,
        map.height <= 1_000_000,
    ensures
        nearest_floor(*map, sx as int, sy as int, p.0 as int, p.1 as int),
{
    let w = map.width;
    let h = map.height;
    let mut best: (i32, i32) = (0, 0);
    let mut best_d: i64 = 0;
    let mut found = false;
    let mut x: i32 = 0;
    while x < w
        invariant
            map.wf(),
            w == map.width,
            h == map.height,
            w <= 1_000_000,
            h <= 1_000_000,
            -1_000_000 <= sx <= 1_000_000,
            -1_000_000 <= sy <= 1_000_000,
            0 <= x <= w,
            found ==> map.on_map(best.0 as int, best.1 as int) && map.tile(best.0 as int, best.1 as int) == TileType::Floor,
            found ==> best_d == dist2(best.0 as int, best.1 as int, sx as int, sy as int),
            found ==> best.0 < x,
            !found ==> forall|a: int, b: int| #![trigger map.tile(a, b)] map.on_map(a, b) && a < x ==> map.tile(a, b) != TileType::Floor,
            found ==> forall|a: int, b: int| #![trigger map.tile(a, b)] map.on_map(a, b) && a < x && map.tile(a, b) == TileType::Floor ==> {
                &&& best_d <= dist2(a, b, sx as int, sy as int)
                &&& before_in_scan(a, b, best.0 as int, best.1 as int) ==> best_d < dist2(a, b, sx as int, sy as int)
            },
        decreases w - x,
    {
        let mut y: i32 = 0;
        while y < h
            invariant
                map.wf(),
                w == map.width,
                h == map.height,
                w <= 1_000_000,
                h <= 1_000_000,
                -1_000_000 <= sx <= 1_000_000,
                -1_000_000 <= sy <= 1_000_000,
                0 <= x < w,
                0 <= y <= h,
                found ==> map.on_map(best.0 as int, best.1 as int) && map.tile(best.0 as int, best.1 as int) == TileType::Floor,
                found ==> best_d == dist2(best.0 as int, best.1 as int, sx as int, sy as int),
                found ==> before_in_scan(best.0 as int, best.1 as int, x as int, y as int),
                !found ==> forall|a: int, b: int| #![trigger map.tile(a, b)] map.on_map(a, b) && before_in_scan(a, b, x as int, y as int) ==> map.tile(a, b) != TileType::Floor,
                found ==> forall|a: int, b: int| #![trigger map.tile(a, b)] map.on_map(a, b) && before_in_scan(a, b, x as int, y as int) && map.tile(a, b) == TileType::Floor ==> {
                    &&& best_d <= dist2(a, b, sx as int, sy as int)
                    &&& before_in_scan(a, b, best.0 as int, best.1 as int) ==> best_d < dist2(a, b, sx as int, sy as int)
                },
            decreases h - y,
        {
            if map.tiles[x as usize][y as usize] == TileType::Floor {
                let dx = x as i64 - sx as i64;
                let dy = y as i64 - sy as i64;
                assert(0 <= dx * dx <= 4_000_000_000_000 && 0 <= dy * dy <= 4_000_000_000_000) by (nonlinear_arith)
                    requires -2_000_000 <= dx <= 2_000_000, -2_000_000 <= dy <= 2_000_000;
                let d = dx * dx + dy * dy;
                if !found || d < best_d {
                    best = (x, y);
                    best_d = d;
                }
                found = true;
            }
            y = y + 1;
        }
        x = x + 1;
    }
    proof {
        let (a, b) = choose|a: int, b: int| map.on_map(a, b) && #[trigger] map.tile(a, b) == TileType::Floor;
        assert(map.tile(a, b) == TileType::Floor);
    }
    best
}

impl AreaStartingPoint {
    /// A start placer seeking near the given column and row.
    pub fn new(x: XStart, y: YStart) -> (b: Box<AreaStartingPoint>)
        ensures
            b.x == x,
            b.y == y,
    {
        Box::new(AreaStartingPoint { x, y })
    }

    /// Starts the player on the floor tile nearest to the chosen column and row (by
    /// straight-line distance; the first, column by column, among equally near ones).
    pub fn build(&mut self, build_data: &mut BuilderMap)
        requires
            old(build_data).wf(),
            has_floor(old(build_data).map),
        ensures
            final(build_data).wf(),
            final(build_data).map == old(build_data).map,
            final(build_data).spawn_list == old(build_data).spawn_list,
            final(build_data).rooms == old(build_data).rooms,
            final(build_data).corridors == old(build_data).corridors,
            final(build_data).history == old(build_data).history,
            final(build_data).width == old(build_data).width,
            final(build_data).height == old(build_data).height,
            final(build_data).starting_position matches Some(p) && nearest_floor(old(build_data).map,
                seed_x(old(self).x, old(build_data).map.width as int), seed_y(old(self).y, old(build_data).map.height as int), p.x as int, p.y as int),
    {
        let sx = match self.x {
            XStart::LEFT => 1,
            XStart::CENTER => build_data.map.width / 2,
            XStart::RIGHT => build_data.map.width - 2,
        };
        let sy = match self.y {
            YStart::TOP => 1,
            YStart::CENTER => build_data.map.height / 2,
            YStart::BOTTOM => build_data.map.height - 2,
        };
        let p = find_nearest_floor(&build_data.map, sx, sy);
        build_data.starting_position = Some(Position { x: p.0, y: p.1 });
    }
}

} // verus!
