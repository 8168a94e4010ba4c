use vstd::prelude::*;

use crate::geometry::line_cells;
use crate::map::{GameMap, TileType};
use crate::map_builders::common::{lemma_centers_on_map, paint, Symmetry};
use crate::map_builders::drunkards::only_floored;
use crate::map_builders::BuilderMap;
use crate::rng::roll_dice;

verus! {

/// How the particles of diffusion-limited aggregation move: in from a random point until
/// they touch floor, out from the centre until they leave it, or straight at the centre.
#[derive(PartialEq, Eq, Copy, Clone, Debug, Structural)]
pub enum DLAAlgoritm {
    WalkInwards,
    WalkOutwards,
    CentralAttractor,
}

/// The most steps one particle takes before it is stopped where it stands.
pub const MAX_WALK_STEPS: u64 = 18_446_744_073_709_551_615;

/// Grows a cave from the centre by letting particles wander until they stick.
pub struct DLABuilder {
    pub algorithm: DLAAlgoritm,
    pub brush_size: i32,
    pub symmetry: Symmetry,
    pub floor_percent: u64,
}

/// One random step, by `dir` (1 west, 2 east, 3 north, else south), not closer than two
/// tiles to the edge of a `w` by `h` map.
pub open spec fn stagger_spec(x: int, y: int, dir: int, w: int, h: int) -> (int, int) {
    if dir == 1 {
        if x > 2 { (x - 1, y) } else { (x, y) }
    } else if dir == 2 {
        if x < w - 2 { (x + 1, y) } else { (x, y) }
    } else if dir == 3 {
        if y > 2 { (x, y - 1) } else { (x, y) }
    } else {
        if y < h - 2 { (x, y + 1) } else { (x, y) }
    }
}

fn stagger(x: i32, y: i32, dir: i32, w: i32, h: i32) -> (p: (i32, i32))
    requires
        2 <= x <= w - 2,
        2 <= y <= h - 2,
    ensures
        (p.0 as int, p.1 as int) == stagger_spec(x as int, y as int, dir as int, w as int, h as int),
        2 <= p.0 <= w - 2,
        2 <= p.1 <= h - 2,
{
    match dir {
        1 => if x > 2 { (x - 1, y) } else { (x, y) },
        2 => if x < w - 2 { (x + 1, y) } else { (x, y) },
        3 => if y > 2 { (x, y - 1) } else { (x, y) },
        _ => if y < h - 2 { (x, y + 1) } else { (x, y) },
    }
}

/// The five tiles of the plus sign around `(x, y)` are floor.
pub open spec fn cross_floored(m: GameMap, x: int, y: int) -> bool {
    &&& m.tile(x, y) == TileType::Floor
    &&& m.tile(x - 1, y) == TileType::Floor
    &&& m.tile(x + 1, y) == TileType::Floor
    &&& m.tile(x, y - 1) == TileType::Floor
    &&& m.tile(x, y + 1) == TileType::Floor
}

/// The index of the first cell of `path`, from `i` on, that is not wall on the map; the
/// path's length if there is none.
pub open spec fn first_open_cell(m: GameMap, path: Seq<(i32, i32)>, i: int) -> int
    decreases path.len() - i,
{
    if i >= path.len() {
        path.len() as int
    } else if m.tile(path[i].0 as int, path[i].1 as int) != TileType::Wall {
        i
    } else {
        first_open_cell(m, path, i + 1)
    }
}

/// Where a particle drawn along `path` stops: on the cell before the first one that is not
/// wall (the first cell itself when that one is open); on the cell before the last when the
/// whole path is wall.
pub open spec fn stop_index(m: GameMap, path: Seq<(i32, i32)>) -> int {
    let j = first_open_cell(m, path, 0);
    if j < path.len() {
        if j >= 1 { j - 1 } else { 0 }
    } else {
        if path.len() >= 2 { path.len() - 2 } else { 0 }
    }
}

/// When the cells `i` to `k - 1` of the path are all wall, the first open cell from `i` on
/// is the first from `k` on.
proof fn lemma_first_open_skip(m: GameMap, path: Seq<(i32, i32)>, i: int, k: int)
    requires
        0 <= i <= k <= path.len(),
        forall|t: int| i <= t < k ==> m.tile(#[trigger] path[t].0 as int, path[t].1 as int) == TileType::Wall,
    ensures
        first_open_cell(m, path, i) == first_open_cell(m, path, k),
    decreases k - i,
{
    if i < k {
        assert(m.tile(path[i].0 as int, path[i].1 as int) == TileType::Wall);
        lemma_first_open_skip(m, path, i + 1, k);
    }
}

/// Draws a particle along `path` (which starts where it is) toward the cave: it steps on
/// while it stands on wall, and stops on the cell before the first that is not.
pub fn particle_stop(map: &GameMap, path: &Vec<(i32, i32)>) -> (p: (i32, i32))
    requires
        map.wf(),
        path@.len() >= 1,
        forall|i: int| 0 <= i < path@.len() ==> map.on_map((#[trigger] path@[i]).0 as int, path@[i].1 as int),
    ensures
        p == path@[stop_index(*map, path@)],
        0 <= stop_index(*map, path@) < path@.len(),
{
    let ghost ps = path@;
    let mut prev = path[0];
    let mut cur = path[0];
    let mut k: usize = 0;
    assert(map.on_map(ps[0].0 as int, ps[0].1 as int));
    while map.tiles[cur.0 as usize][cur.1 as usize] == TileType::Wall && k < path.len()
        invariant
            map.wf(),
            ps == path@,
            ps.len() >= 1,
            forall|i: int| 0 <= i < ps.len() ==> map.on_map((#[trigger] ps[i]).0 as int, ps[i].1 as int),
            k <= ps.len(),
            k == 0 ==> prev == ps[0] && cur == ps[0],
            k > 0 ==> cur == ps[k - 1] && prev == ps[if k >= 2 { k - 2 } else { 0 }],
            forall|t: int| 0 <= t < k - 1 ==> map.tile(#[trigger] ps[t].0 as int, ps[t].1 as int) == TileType::Wall,
        decreases ps.len() - k,
    {
        proof {
            assert(map.tile(cur.0 as int, cur.1 as int) == map.tiles@[cur.0 as int]@[cur.1 as int]);
        }
        prev = cur;
        cur = path[k];
        k = k + 1;
        assert(map.on_map(ps[k - 1].0 as int, ps[k - 1].1 as int));
    }
    proof {
        assert(map.tile(cur.0 as int, cur.1 as int) == map.tiles@[cur.0 as int]@[cur.1 as int]);
        if k == 0 {
            assert(map.tile(ps[0].0 as int, ps[0].1 as int) != TileType::Wall);
            assert(first_open_cell(*map, ps, 0) == 0);
        } else if map.tile(cur.0 as int, cur.1 as int) != TileType::Wall {
            lemma_first_open_skip(*map, ps, 0, k - 1);
            assert(first_open_cell(*map, ps, k - 1) == k - 1);
        } else {
            assert(k == ps.len());
            lemma_first_open_skip(*map, ps, 0, k as int);
        }
    }
    prev
}

impl DLABuilder {
    /// The number of floor tiles the builder aims for on a `w` by `h` map.
    pub open spec fn desired_floor(&self, w: int, h: int) -> int {
        (w * h * self.floor_percent) / 100
    }

    /// Settings the builder can work with.
    pub open spec fn wf(&self) -> bool {
        &&& 1 <= self.brush_size <= 1000
        &&& self.floor_percent <= 100
    }

    /// Particles walking out from the centre, a wide brush, a quarter of the map as floor.
    pub fn new() -> (b: DLABuilder)
        ensures
            b.algorithm == DLAAlgoritm::WalkOutwards,
            b.brush_size == 2,
            b.symmetry == Symmetry::NoSymmetry,
            b.floor_percent == 25,
    {
        DLABuilder { algorithm: DLAAlgoritm::WalkOutwards, brush_size: 2, symmetry: Symmetry::NoSymmetry, floor_percent: 25 }
    }

    /// Particles walking in, a thin brush, a quarter of the map as floor.
    pub fn walk_inward() -> (b: Box<DLABuilder>)
        ensures
            *b == (DLABuilder { algorithm: DLAAlgoritm::WalkInwards, brush_size: 1, symmetry: Symmetry::NoSymmetry, floor_percent: 25 }),
    {
        Box::new(DLABuilder { algorithm: DLAAlgoritm::WalkInwards, brush_size: 1, symmetry: Symmetry::NoSymmetry, floor_percent: 25 })
    }

    /// Particles walking in, a wide brush, 35% of the map as floor.
    pub fn heavy_erosion() -> (b: Box<DLABuilder>)
        ensures
            *b == (DLABuilder { algorithm: DLAAlgoritm::WalkInwards, brush_size: 2, symmetry: Symmetry::NoSymmetry, floor_percent: 35 }),
    {
        Box::new(DLABuilder { algorithm: DLAAlgoritm::WalkInwards, brush_size: 2, symmetry: Symmetry::NoSymmetry, floor_percent: 35 })
    }

    /// Particles walking out, a wide brush, a quarter of the map as floor.
    pub fn walk_outward() -> (b: Box<DLABuilder>)
        ensures
            *b == (DLABuilder { algorithm: DLAAlgoritm::WalkOutwards, brush_size: 2, symmetry: Symmetry::NoSymmetry, floor_percent: 25 }),
    {
        Box::new(DLABuilder { algorithm: DLAAlgoritm::WalkOutwards, brush_size: 2, symmetry: Symmetry::NoSymmetry, floor_percent: 25 })
    }

    /// Particles flying at the centre, a wide brush, a quarter of the map as floor.
    pub fn central_attractor() -> (b: Box<DLABuilder>)
        ensures
            *b == (DLABuilder { algorithm: DLAAlgoritm::CentralAttractor, brush_size: 2, symmetry: Symmetry::NoSymmetry, floor_percent: 25 }),
    {
        Box::new(DLABuilder { algorithm: DLAAlgoritm::CentralAttractor, brush_size: 2, symmetry: Symmetry::NoSymmetry, floor_percent: 25 })
    }

    /// Particles flying at the centre, mirrored left to right.
    pub fn insectoid() -> (b: Box<DLABuilder>)
        ensures
            *b == (DLABuilder { algorithm: DLAAlgoritm::CentralAttractor, brush_size: 2, symmetry: Symmetry::Horizontal, floor_percent: 25 }),
    {
        Box::new(DLABuilder { algorithm: DLAAlgoritm::CentralAttractor, brush_size: 2, symmetry: Symmetry::Horizontal, floor_percent: 25 })
    }

    /// Particles walking in, mirrored both ways.
    pub fn walk_inwards_symmetry() -> (b: Box<DLABuilder>)
        ensures
            *b == (DLABuilder { algorithm: DLAAlgoritm::WalkInwards, brush_size: 2, symmetry: Symmetry::Both, floor_percent: 25 }),
    {
        Box::new(DLABuilder { algorithm: DLAAlgoritm::WalkInwards, brush_size: 2, symmetry: Symmetry::Both, floor_percent: 25 })
    }

    /// Particles walking out, mirrored top to bottom.
    pub fn walk_outward_symmetry() -> (b: Box<DLABuilder>)
        ensures
            *b == (DLABuilder { algorithm: DLAAlgoritm::WalkOutwards, brush_size: 2, symmetry: Symmetry::Vertical, floor_percent: 25 }),
    {
        Box::new(DLABuilder { algorithm: DLAAlgoritm::WalkOutwards, brush_size: 2, symmetry: Symmetry::Vertical, floor_percent: 25 })
    }

    /// Floors a plus sign at the centre, then lets particles stick to the cave one after
    /// another until the share of floor is reached: each particle paints where it stops.
    /// Tiles only ever become floor and the plus sign stays floor. The number of particles
    /// sent comes back; the share is reached unless it is `i32::MAX`.
    pub fn build(&mut self, rng: &mut bracket_lib::random::RandomNumberGenerator, build_data: &mut BuilderMap) -> (attempts: i32)
        requires
            old(self).wf(),
            old(build_data).wf(),
            old(build_data).map.width >= 4,
            old(build_data).map.height >= 4,
        ensures
            final(build_data).map.floor_count() >= old(self).desired_floor(old(build_data).map.width as int, old(build_data).map.height as int)
                || attempts == i32::MAX,
            final(build_data).wf(),
            final(build_data).same_but_tiles(*old(build_data)),
            only_floored(old(build_data).map, final(build_data).map),
            cross_floored(final(build_data).map, old(build_data).map.width / 2, old(build_data).map.height / 2),
    {
        let ghost b0 = *build_data;
        let ghost m0 = b0.map;
        let w = build_data.map.width;
        let h = build_data.map.height;
        let sx = w / 2;
        let sy = h / 2;
        build_data.take_snapshot();
        build_data.map.set_tile(sx as usize, sy as usize, TileType::Floor);
        build_data.map.set_tile((sx - 1) as usize, sy as usize, TileType::Floor);
        build_data.map.set_tile((sx + 1) as usize, sy as usize, TileType::Floor);
        build_data.map.set_tile(sx as usize, (sy - 1) as usize, TileType::Floor);
        build_data.map.set_tile(sx as usize, (sy + 1) as usize, TileType::Floor);
        let total_tiles = w as u64 * h as u64;
        proof {
            assert(total_tiles * self.floor_percent <= 100 * total_tiles) by (nonlinear_arith)
                requires self.floor_percent <= 100;
        }
        let desired_floor_tiles = total_tiles * self.floor_percent / 100;
        assert(desired_floor_tiles == self.desired_floor(w as int, h as int));
        let mut floor_tile_count = build_data.map.get_total_floor_tiles() as u64;
        let mut attempts: i32 = 0;
        while floor_tile_count < desired_floor_tiles && attempts < i32::MAX
            invariant
                self.wf(),
                build_data.wf(),
                build_data.same_but_tiles(b0),
                w == build_data.map.width,
                h == build_data.map.height,
                w >= 4,
                h >= 4,
                sx == w / 2,
                sy == h / 2,
                0 <= attempts,
                desired_floor_tiles == self.desired_floor(w as int, h as int),
                floor_tile_count == build_data.map.floor_count(),
                only_floored(m0, build_data.map),
                cross_floored(build_data.map, sx as int, sy as int),
            decreases i32::MAX - attempts,
        {
            let ghost before = build_data.map;
            let mut px: i32;
            let mut py: i32;
            match self.algorithm {
                DLAAlgoritm::WalkInwards => {
                    let mut digger_x = roll_dice(rng, 1, w - 3) + 1;
                    let mut digger_y = roll_dice(rng, 1, h - 3) + 1;
                    px = digger_x;
                    py = digger_y;
                    let mut steps: u64 = 0;
                    while build_data.map.tiles[digger_x as usize][digger_y as usize] == TileType::Wall && steps < MAX_WALK_STEPS
                        invariant
                            build_data.wf(),
                            w == build_data.map.width,
                            h == build_data.map.height,
                            2 <= digger_x <= w - 2,
                            2 <= digger_y <= h - 2,
                            2 <= px <= w - 2,
                            2 <= py <= h - 2,
                        decreases MAX_WALK_STEPS - steps,
                    {
                        px = digger_x;
                        py = digger_y;
                        let dir = roll_dice(rng, 1, 4);
                        let next = stagger(digger_x, digger_y, dir, w, h);
                        digger_x = next.0;
                        digger_y = next.1;
                        steps = steps + 1;
                    }
                },
                DLAAlgoritm::WalkOutwards => {
                    let mut digger_x = sx;
                    let mut digger_y = sy;
                    let mut steps: u64 = 0;
                    while build_data.map.tiles[digger_x as usize][digger_y as usize] == TileType::Floor && steps < MAX_WALK_STEPS
                        invariant
                            build_data.wf(),
                            w == build_data.map.width,
                            h == build_data.map.height,
                            2 <= digger_x <= w - 2,
                            2 <= digger_y <= h - 2,
                        decreases MAX_WALK_STEPS - steps,
                    {
                        let dir = roll_dice(rng, 1, 4);
                        let next = stagger(digger_x, digger_y, dir, w, h);
                        digger_x = next.0;
                        digger_y = next.1;
                        steps = steps + 1;
                    }
                    px = digger_x;
                    py = digger_y;
                },
                DLAAlgoritm::CentralAttractor => {
                    let mut digger_x = roll_dice(rng, 1, w - 3) + 1;
                    let mut digger_y = roll_dice(rng, 1, h - 3) + 1;
                    px = digger_x;
                    py = digger_y;
                    let path = line_cells(digger_x, digger_y, sx, sy);
                    proof {
                        assert forall|i: int| 0 <= i < path@.len() implies 2 <= (#[trigger] path@[i]).0 <= w - 2 && 2 <= path@[i].1 <= h - 2 by {
                            assert(crate::geometry::min2(digger_x as int, sx as int) <= path@[i].0 <= crate::geometry::max2(digger_x as int, sx as int));
                            assert(crate::geometry::min2(digger_y as int, sy as int) <= path@[i].1 <= crate::geometry::max2(digger_y as int, sy as int));
                        }
                    }
                    let stop = particle_stop(&build_data.map, &path);
                    px = stop.0;
                    py = stop.1;
                    proof {
                        assert(2 <= path@[stop_index(build_data.map, path@)].0);
                    }
                },
            }
            proof {
                lemma_centers_on_map(self.symmetry, build_data.map, px as int, py as int);
            }
            paint(&mut build_data.map, self.symmetry, self.brush_size, px, py);
            proof {
                assert forall|a: int, b: int| #![trigger build_data.map.tile(a, b)] build_data.map.on_map(a, b) implies
                    build_data.map.tile(a, b) == m0.tile(a, b) || build_data.map.tile(a, b) == TileType::Floor by {
                    assert(before.tile(a, b) == before.tile(a, b));
                }
                assert(before.tile(sx as int, sy as int) == TileType::Floor);
                assert(before.tile(sx - 1, sy as int) == TileType::Floor);
                assert(before.tile(sx + 1, sy as int) == TileType::Floor);
                assert(before.tile(sx as int, sy - 1) == TileType::Floor);
                assert(before.tile(sx as int, sy + 1) == TileType::Floor);
            }
            floor_tile_count = build_data.map.get_total_floor_tiles() as u64;
            build_data.take_snapshot();
            attempts = attempts + 1;
        }
        attempts
    }
}

} // verus!
