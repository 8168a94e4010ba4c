use vstd::prelude::*;

use crate::map::{spec_tile_walkable, tile_walkable, GameMap, TileType};
use crate::map_builders::BuilderMap;
use crate::rng::roll_dice;

verus! {

/// Largest width or height of a map the road is laid on: up to it, the squared distances
/// that pick the road's ends are exact in single precision, as the game computes them.
pub const ROAD_MAX_SIDE: i32 = 2048;

/// The squared distance from the seed `(sx, sy)` that the game measures for the tile with
/// index `k`: the index is read back as column `k % width` and row `k / height`.
pub open spec fn exit_distance(m: GameMap, k: int, sx: int, sy: int) -> int {
    let px = k % (m.width as int);
    let py = k / (m.height as int);
    (px - sx) * (px - sx) + (py - sy) * (py - sy)
}

/// The tile with index `k` (row by row) can be walked on.
pub open spec fn index_walkable(m: GameMap, k: int) -> bool {
    spec_tile_walkable(m.tile(k % (m.width as int), k / (m.width as int)))
}

/// Among the first `n` tiles, row by row, the walkable one nearest the seed, the first of
/// equals.
pub open spec fn best_exit(m: GameMap, sx: int, sy: int, n: int) -> Option<int>
    decreases n,
{
    if n <= 0 {
        None
    } else {
        let prev = best_exit(m, sx, sy, n - 1);
        let k = n - 1;
        if index_walkable(m, k) && (prev is None || exit_distance(m, k, sx, sy) < exit_distance(m, prev->0, sx, sy)) {
            Some(k)
        } else {
            prev
        }
    }
}

/// The tile the search from `(sx, sy)` settles on, as column and row.
pub open spec fn exit_point(m: GameMap, sx: int, sy: int) -> (int, int) {
    match best_exit(m, sx, sy, m.width * m.height) {
        Some(k) => (k % (m.width as int), k / (m.width as int)),
        None => (0, 0),
    }
}

/// The map is small enough for the road, and has somewhere to walk.
pub open spec fn road_ready(m: GameMap) -> bool {
    &&& m.wf()
    &&& m.width <= ROAD_MAX_SIDE
    &&& m.height <= ROAD_MAX_SIDE
    &&& exists|x: int, y: int| m.on_map(x, y) && #[trigger] spec_tile_walkable(m.tile(x, y))
}

/// A walkable tile makes the search find something.
proof fn lemma_exit_found(m: GameMap, sx: int, sy: int, n: int, k: int)
    requires
        0 <= k < n,
        index_walkable(m, k),
    ensures
        best_exit(m, sx, sy, n) is Some,
    decreases n,
{
    if k < n - 1 {
        lemma_exit_found(m, sx, sy, n - 1, k);
    }
}

/// What the search finds lies among the tiles searched.
proof fn lemma_exit_in_range(m: GameMap, sx: int, sy: int, n: int)
    ensures
        best_exit(m, sx, sy, n) matches Some(k) ==> 0 <= k < n && index_walkable(m, k),
    decreases n,
{
    if n > 0 {
        lemma_exit_in_range(m, sx, sy, n - 1);
    }
}

/// Some step among the first `n` of a path (tile indices, row by row, `w` to a row) is
/// `(a, b)`.
pub open spec fn on_path(steps: Seq<usize>, w: int, n: int, a: int, b: int) -> bool {
    exists|j: int| 0 <= j < n && #[trigger] path_hit(steps[j] as int, w, a, b)
}

/// The tile with index `k` (row by row, `w` to a row) is `(a, b)`.
pub open spec fn path_hit(k: int, w: int, a: int, b: int) -> bool {
    k % w == a && k / w == b
}

/// `(a, b)` is the tile with index `k` or one of its four neighbours.
pub open spec fn cross_hit(k: int, w: int, a: int, b: int) -> bool {
    let (x, y) = (k % w, k / w);
    (a == x && b == y) || (a == x + 1 && b == y) || (a == x - 1 && b == y) || (a == x && b == y + 1) || (a == x && b == y - 1)
}

/// Some step among the first `n` of a path has `(a, b)` on or next to it.
pub open spec fn road_cross(steps: Seq<usize>, w: int, n: int, a: int, b: int) -> bool {
    exists|j: int| 0 <= j < n && #[trigger] cross_hit(steps[j] as int, w, a, b)
}

/// Where the road and the stream end, and where the stairs go.
#[derive(PartialEq, Eq, Copy, Clone, Debug)]
pub struct RoadPlan {
    pub road_end: (i32, i32),
    pub stairs: (i32, i32),
    pub stream_end: (i32, i32),
}

/// The road's builder: a road from the start to the far side, and a stream that ends in
/// the way down.
pub struct YellowBrickRoad {}

impl YellowBrickRoad {
    /// A new road builder.
    pub fn new() -> (b: Box<YellowBrickRoad>) {
        Box::new(YellowBrickRoad {})
    }

    /// The walkable tile nearest the seed `(seed_x, seed_y)` (see `best_exit`), as a
    /// position.
    pub fn find_exit(map: &GameMap, seed_x: i32, seed_y: i32) -> (r: (i32, i32))
        requires
            road_ready(*map),
            0 <= seed_x <= map.width,
            0 <= seed_y <= map.height,
        ensures
            best_exit(*map, seed_x as int, seed_y as int, map.width * map.height) is Some,
            (r.0 as int, r.1 as int) == exit_point(*map, seed_x as int, seed_y as int),
            map.on_map(r.0 as int, r.1 as int),
            spec_tile_walkable(map.tile(r.0 as int, r.1 as int)),
    {
        let w = map.width;
        let h = map.height;
        let mut best: Option<(i32, i32, i64)> = None;
        let mut y: i32 = 0;
        let ghost mut n: int = 0;
        while y < h
            invariant
                map.wf(),
                w == map.width && h == map.height,
                w <= ROAD_MAX_SIDE && h <= ROAD_MAX_SIDE,
                0 <= seed_x <= w && 0 <= seed_y <= h,
                0 <= y <= h,
                n == y * w,
                match best_exit(*map, seed_x as int, seed_y as int, n) {
                    None => best is None,
                    Some(k) => best matches Some((bx, by, bd)) && k == by * w + bx && 0 <= bx < w && 0 <= by < h
                        && bd == exit_distance(*map, k, seed_x as int, seed_y as int),
                },
            decreases h - y,
        {
            let mut x: i32 = 0;
            while x < w
                invariant
                    map.wf(),
                    w == map.width && h == map.height,
                    w <= ROAD_MAX_SIDE && h <= ROAD_MAX_SIDE,
                    0 <= seed_x <= w && 0 <= seed_y <= h,
                    0 <= y < h,
                    0 <= x <= w,
                    n == y * w + x,
                    match best_exit(*map, seed_x as int, seed_y as int, n) {
                        None => best is None,
                        Some(k) => best matches Some((bx, by, bd)) && k == by * w + bx && 0 <= bx < w && 0 <= by < h
                            && bd == exit_distance(*map, k, seed_x as int, seed_y as int),
                    },
                decreases w - x,
            {
                proof {
                    assert((y * w + x) % (w as int) == x && (y * w + x) / (w as int) == y) by (nonlinear_arith)
                        requires 0 <= x < w, 0 <= y;
                    assert(0 <= y * w + x < w * h) by (nonlinear_arith) requires 0 <= x < w, 0 <= y < h;
                }
                let t = map.tiles[x as usize][y as usize];
                if tile_walkable(t) {
                    let idx = map.xy_idx(x, y) as i64;
                    let px = idx % (w as i64);
                    let py = idx / (h as i64);
                    proof {
                        assert(py <= idx / (h as i64));
                        assert(idx < w * h);
                        assert(0 <= py < w) by (nonlinear_arith) requires 0 <= idx < w * h, py == idx / (h as i64), 0 < h;
                    }
                    let dx = px - seed_x as i64;
                    let dy = py - seed_y as i64;
                    proof {
                        assert(0 <= px < w);
                        assert(dx * dx <= 2048 * 2048 && dy * dy <= 2048 * 2048) by (nonlinear_arith)
                            requires -2048 <= dx <= 2048, -2048 <= dy <= 2048;
                        assert(dx * dx >= 0 && dy * dy >= 0) by (nonlinear_arith);
                    }
                    let d = dx * dx + dy * dy;
                    let better = match best {
                        None => true,
                        Some((_, _, bd)) => d < bd,
                    };
                    if better {
                        best = Some((x, y, d));
                    }
                }
                proof {
                    n = n + 1;
                }
                x = x + 1;
            }
            assert((y + 1) * w == y * w + w) by (nonlinear_arith);
            y = y + 1;
        }
        proof {
            assert(h * w == w * h) by (nonlinear_arith);
            let (x0, y0) = choose|x: int, y: int| map.on_map(x, y) && #[trigger] spec_tile_walkable(map.tile(x, y));
            assert((y0 * w + x0) % (w as int) == x0 && (y0 * w + x0) / (w as int) == y0) by (nonlinear_arith)
                requires 0 <= x0 < w, 0 <= y0;
            assert(0 <= y0 * w + x0 < w * h) by (nonlinear_arith) requires 0 <= x0 < w, 0 <= y0 < h;
            lemma_exit_found(*map, seed_x as int, seed_y as int, w * h, y0 * w + x0);
        }
        match best {
            Some((bx, by, _)) => {
                proof {
                    let k = by * w + bx;
                    assert((by * w + bx) % (w as int) == bx && (by * w + bx) / (w as int) == by) by (nonlinear_arith)
                        requires 0 <= bx < w, 0 <= by;
                    lemma_exit_in_range(*map, seed_x as int, seed_y as int, w * h);
                }
                (bx, by)
            },
            None => {
                (0, 0)
            },
        }
    }

    /// Lays road on `(x, y)` unless it is on or beyond the outer frame, or is the way down.
    pub fn paint_road(build_data: &mut BuilderMap, x: i32, y: i32)
        requires
            old(build_data).wf(),
        ensures
            final(build_data).wf(),
            final(build_data).same_but_tiles(*old(build_data)),
            forall|a: int, b: int| #![trigger final(build_data).map.tile(a, b)] final(build_data).map.on_map(a, b) ==>
                final(build_data).map.tile(a, b) == if a == x && b == y && 1 <= x <= old(build_data).width - 2
                    && 1 <= y <= old(build_data).height - 2 && old(build_data).map.tile(a, b) != TileType::DownStairs {
                    TileType::Road
                } else {
                    old(build_data).map.tile(a, b)
                },
    {
        if x < 1 || x > build_data.map.width - 2 || y < 1 || y > build_data.map.height - 2 {
            return;
        }
        if build_data.map.tiles[x as usize][y as usize] != TileType::DownStairs {
            build_data.map.set_tile(x as usize, y as usize, TileType::Road);
        }
    }

    /// Where the road and the stream go: the road ends at the walkable tile nearest the
    /// middle of the right-hand edge; a die picks whether the stairs are found near the top
    /// or the bottom right corner, and the stream then starts near the bottom left corner.
    pub fn plan(rng: &mut bracket_lib::random::RandomNumberGenerator, build_data: &BuilderMap) -> (p: RoadPlan)
        requires
            build_data.wf(),
            road_ready(build_data.map),
            build_data.width >= 2,
        ensures
            (p.road_end.0 as int, p.road_end.1 as int) == exit_point(build_data.map, build_data.width - 2, build_data.height / 2),
            ({
                let (w, h) = (build_data.width as int, build_data.height as int);
                ||| (p.stairs.0 as int, p.stairs.1 as int) == exit_point(build_data.map, w - 1, 1)
                    && (p.stream_end.0 as int, p.stream_end.1 as int) == exit_point(build_data.map, 0, h - 1)
                ||| (p.stairs.0 as int, p.stairs.1 as int) == exit_point(build_data.map, w - 1, h - 1)
                    && (p.stream_end.0 as int, p.stream_end.1 as int) == exit_point(build_data.map, 1, h - 1)
            }),
            build_data.map.on_map(p.stairs.0 as int, p.stairs.1 as int),
            build_data.map.on_map(p.road_end.0 as int, p.road_end.1 as int),
            build_data.map.on_map(p.stream_end.0 as int, p.stream_end.1 as int),
    {
        let w = build_data.map.width;
        let h = build_data.map.height;
        let road_end = Self::find_exit(&build_data.map, w - 2, h / 2);
        let exit_dir = roll_dice(rng, 1, 2);
        let (seed_x, seed_y, stream_x, stream_y) = if exit_dir == 1 {
            (w - 1, 1, 0, build_data.height - 1)
        } else {
            (w - 1, build_data.height - 1, 1, build_data.height - 1)
        };
        let stairs = Self::find_exit(&build_data.map, seed_x, seed_y);
        let stream_end = Self::find_exit(&build_data.map, stream_x, stream_y);
        RoadPlan { road_end, stairs, stream_end }
    }

    /// Lays the stream along `steps` (tile indices, row by row): floor it passes becomes
    /// shallow water; then the stairs go down at `stairs`.
    pub fn lay_stream(build_data: &mut BuilderMap, steps: &Vec<usize>, stairs: (i32, i32))
        requires
            old(build_data).wf(),
            forall|i: int| 0 <= i < steps@.len() ==> #[trigger] steps@[i] < old(build_data).width * old(build_data).height,
            old(build_data).map.on_map(stairs.0 as int, stairs.1 as int),
        ensures
            final(build_data).wf(),
            final(build_data).same_but_tiles(*old(build_data)),
            forall|a: int, b: int| #![trigger final(build_data).map.tile(a, b)] final(build_data).map.on_map(a, b) ==>
                final(build_data).map.tile(a, b) == if a == stairs.0 && b == stairs.1 {
                    TileType::DownStairs
                } else if on_path(steps@, old(build_data).width as int, steps@.len() as int, a, b)
                    && old(build_data).map.tile(a, b) == TileType::Floor {
                    TileType::ShallowWater
                } else {
                    old(build_data).map.tile(a, b)
                },
    {
        let ghost b0 = *build_data;
        let w = build_data.map.width as usize;
        let mut i: usize = 0;
        while i < steps.len()
            invariant
                build_data.wf(),
                build_data.same_but_tiles(b0),
                w == b0.width,
                forall|j: int| 0 <= j < steps@.len() ==> #[trigger] steps@[j] < b0.width * b0.height,
                i <= steps@.len(),
                forall|a: int, b: int| #![trigger build_data.map.tile(a, b)] build_data.map.on_map(a, b) ==>
                    build_data.map.tile(a, b) == if on_path(steps@, w as int, i as int, a, b) && b0.map.tile(a, b) == TileType::Floor {
                        TileType::ShallowWater
                    } else {
                        b0.map.tile(a, b)
                    },
            decreases steps@.len() - i,
        {
            let step = steps[i];
            let x = step % w;
            let y = step / w;
            proof {
                assert(y < b0.height) by (nonlinear_arith) requires step < w * b0.height, y == step / w, w > 0;
            }
            if build_data.map.tiles[x][y] == TileType::Floor {
                build_data.map.set_tile(x, y, TileType::ShallowWater);
            }
            proof {
                assert forall|a: int, b: int| #![trigger build_data.map.tile(a, b)] build_data.map.on_map(a, b) implies
                    build_data.map.tile(a, b) == if on_path(steps@, w as int, i + 1, a, b) && b0.map.tile(a, b) == TileType::Floor {
                        TileType::ShallowWater
                    } else {
                        b0.map.tile(a, b)
                    } by {
                    if on_path(steps@, w as int, i + 1, a, b) && !on_path(steps@, w as int, i as int, a, b) {
                        let j = choose|j: int| 0 <= j < i + 1 && #[trigger] path_hit(steps@[j] as int, w as int, a, b);
                        assert(j == i);
                    }
                    if on_path(steps@, w as int, i as int, a, b) {
                        let j = choose|j: int| 0 <= j < i && #[trigger] path_hit(steps@[j] as int, w as int, a, b);
                        assert(0 <= j < i + 1 && path_hit(steps@[j] as int, w as int, a, b));
                    }
                    if a == x && b == y {
                        assert(path_hit(steps@[i as int] as int, w as int, a, b));
                    }
                }
            }
            i = i + 1;
        }
        build_data.map.set_tile(stairs.0 as usize, stairs.1 as usize, TileType::DownStairs);
    }

    /// Lays road along `steps` (tile indices, row by row): on each step and its four
    /// neighbours, as `paint_road` does.
    pub fn lay_road(build_data: &mut BuilderMap, steps: &Vec<usize>)
        requires
            old(build_data).wf(),
            forall|i: int| 0 <= i < steps@.len() ==> #[trigger] steps@[i] < old(build_data).width * old(build_data).height,
        ensures
            final(build_data).wf(),
            final(build_data).same_but_tiles(*old(build_data)),
            forall|a: int, b: int| #![trigger final(build_data).map.tile(a, b)] final(build_data).map.on_map(a, b) ==>
                final(build_data).map.tile(a, b) == if road_cross(steps@, old(build_data).width as int, steps@.len() as int, a, b)
                    && 1 <= a <= old(build_data).width - 2 && 1 <= b <= old(build_data).height - 2
                    && old(build_data).map.tile(a, b) != TileType::DownStairs {
                    TileType::Road
                } else {
                    old(build_data).map.tile(a, b)
                },
    {
        let ghost b0 = *build_data;
        let w = build_data.map.width;
        let mut i: usize = 0;
        while i < steps.len()
            invariant
                build_data.wf(),
                build_data.same_but_tiles(b0),
                w == b0.width,
                forall|j: int| 0 <= j < steps@.len() ==> #[trigger] steps@[j] < b0.width * b0.height,
                i <= steps@.len(),
                forall|a: int, b: int| #![trigger build_data.map.tile(a, b)] build_data.map.on_map(a, b) ==>
                    build_data.map.tile(a, b) == if road_cross(steps@, w as int, i as int, a, b)
                        && 1 <= a <= w - 2 && 1 <= b <= b0.height - 2 && b0.map.tile(a, b) != TileType::DownStairs {
                        TileType::Road
                    } else {
                        b0.map.tile(a, b)
                    },
            decreases steps@.len() - i,
        {
            let step = steps[i];
            proof {
                assert(w * b0.height <= i32::MAX);
            }
            let idx = step as i32;
            let x = idx % w;
            let y = idx / w;
            let ghost before = *build_data;
            Self::paint_road(build_data, x, y);
            Self::paint_road(build_data, x + 1, y);
            Self::paint_road(build_data, x - 1, y);
            Self::paint_road(build_data, x, y + 1);
            Self::paint_road(build_data, x, y - 1);
            proof {
                assert forall|a: int, b: int| #![trigger build_data.map.tile(a, b)] build_data.map.on_map(a, b) implies
                    build_data.map.tile(a, b) == if road_cross(steps@, w as int, i + 1, a, b)
                        && 1 <= a <= w - 2 && 1 <= b <= b0.height - 2 && b0.map.tile(a, b) != TileType::DownStairs {
                        TileType::Road
                    } else {
                        b0.map.tile(a, b)
                    } by {
                    assert(steps@[i as int] == step);
                    if road_cross(steps@, w as int, i + 1, a, b) && !road_cross(steps@, w as int, i as int, a, b) {
                        let j = choose|j: int| 0 <= j < i + 1 && #[trigger] cross_hit(steps@[j] as int, w as int, a, b);
                        assert(j == i);
                    }
                    if road_cross(steps@, w as int, i as int, a, b) {
                        let j = choose|j: int| 0 <= j < i && #[trigger] cross_hit(steps@[j] as int, w as int, a, b);
                        assert(0 <= j < i + 1);
                    }
                    if cross_hit(step as int, w as int, a, b) {
                        assert(0 <= i < i + 1 && cross_hit(steps@[i as int] as int, w as int, a, b));
                    }
                }
            }
            i = i + 1;
        }
    }
}

} // verus!
