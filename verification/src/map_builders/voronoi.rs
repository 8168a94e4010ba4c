use vstd::prelude::*;

use crate::map::{new_grid, GameMap, TileType};
use crate::map_builders::BuilderMap;
use crate::rng::roll_dice;
use crate::DEBUGGING;

verus! {

/// How far a tile is from a seed: squared straight-line distance, steps along the axes, or
/// the larger of the two axis distances.
#[derive(PartialEq, Eq, Copy, Clone, Debug, Structural)]
pub enum DistanceAlgorithm {
    Pythagoras,
    Manhattan,
    Chebyshev,
}

/// The distance between `(x1, y1)` and `(x2, y2)` under `alg` (squared for Pythagoras, which
/// orders points the same way).
pub open spec fn spec_distance(alg: DistanceAlgorithm, x1: int, y1: int, x2: int, y2: int) -> int {
    let dx = if x1 < x2 { x2 - x1 } else { x1 - x2 };
    let dy = if y1 < y2 { y2 - y1 } else { y1 - y2 };
    match alg {
        DistanceAlgorithm::Pythagoras => dx * dx + dy * dy,
        DistanceAlgorithm::Manhattan => dx + dy,
        DistanceAlgorithm::Chebyshev => if dx > dy { dx } else { dy },
    }
}

/// The distance between two points, exactly as [`spec_distance`].
pub fn distance(alg: DistanceAlgorithm, x1: i32, y1: i32, x2: i32, y2: i32) -> (d: i64)
    requires
        -1_000_000 <= x1 <= 1_000_000,
        -1_000_000 <= y1 <= 1_000_000,
        -1_000_000 <= x2 <= 1_000_000,
        -1_000_000 <= y2 <= 1_000_000,
    ensures
        d == spec_distance(alg, x1 as int, y1 as int, x2 as int, y2 as int),
{
    let dx: i64 = if x1 < x2 { x2 as i64 - x1 as i64 } else { x1 as i64 - x2 as i64 };
    let dy: i64 = if y1 < y2 { y2 as i64 - y1 as i64 } else { y1 as i64 - y2 as i64 };
    match alg {
        DistanceAlgorithm::Pythagoras => {
            assert(dx * dx <= 4_000_000_000_000 && dy * dy <= 4_000_000_000_000) by (nonlinear_arith)
                requires 0 <= dx <= 2_000_000, 0 <= dy <= 2_000_000;
            dx * dx + dy * dy
        },
        DistanceAlgorithm::Manhattan => dx + dy,
        DistanceAlgorithm::Chebyshev => if dx > dy { dx } else { dy },
    }
}

/// The first of the first `k` seeds nearest to `(x, y)`: ties go to the lower index.
pub open spec fn nearest_upto(seeds: Seq<(i32, i32)>, alg: DistanceAlgorithm, x: int, y: int, k: nat) -> int
    decreases k,
{
    if k <= 1 {
        0
    } else {
        let m = nearest_upto(seeds, alg, x, y, (k - 1) as nat);
        if spec_distance(alg, x, y, seeds[k - 1].0 as int, seeds[k - 1].1 as int)
            < spec_distance(alg, x, y, seeds[m].0 as int, seeds[m].1 as int) {
            k - 1
        } else {
            m
        }
    }
}

/// The seed nearest to `(x, y)`, the lowest index among equals.
pub open spec fn nearest_seed(seeds: Seq<(i32, i32)>, alg: DistanceAlgorithm, x: int, y: int) -> int {
    nearest_upto(seeds, alg, x, y, seeds.len())
}

/// What `nearest_upto` picks is among the first `k` seeds and no farther than any of them.
pub proof fn lemma_nearest_is_nearest(seeds: Seq<(i32, i32)>, alg: DistanceAlgorithm, x: int, y: int, k: nat)
    requires
        1 <= k <= seeds.len(),
    ensures
        0 <= nearest_upto(seeds, alg, x, y, k) < k,
        forall|j: int| 0 <= j < k ==> spec_distance(alg, x, y, seeds[nearest_upto(seeds, alg, x, y, k)].0 as int,
            seeds[nearest_upto(seeds, alg, x, y, k)].1 as int) <= spec_distance(alg, x, y, #[trigger] seeds[j].0 as int, seeds[j].1 as int),
        forall|j: int| 0 <= j < nearest_upto(seeds, alg, x, y, k) ==> spec_distance(alg, x, y, seeds[nearest_upto(seeds, alg, x, y, k)].0 as int,
            seeds[nearest_upto(seeds, alg, x, y, k)].1 as int) < spec_distance(alg, x, y, #[trigger] seeds[j].0 as int, seeds[j].1 as int),
    decreases k,
{
    if k > 1 {
        lemma_nearest_is_nearest(seeds, alg, x, y, (k - 1) as nat);
    }
}

/// The number of the four neighbours of `(x, y)` that belong to another cell.
pub open spec fn foreign_neighbours(m: Seq<Seq<i32>>, x: int, y: int) -> int {
    let me = m[x][y];
    (if m[x - 1][y] != me { 1int } else { 0int }) + (if m[x + 1][y] != me { 1int } else { 0int })
        + (if m[x][y - 1] != me { 1int } else { 0int }) + (if m[x][y + 1] != me { 1int } else { 0int })
}

/// Builds a cave of Voronoi cells: random seeds, each tile belonging to its nearest seed,
/// walls along the borders between cells.
pub struct VoronoiCellBuilder {
    pub n_seeds: usize,
    pub distance_algorithm: DistanceAlgorithm,
}

/// For each tile of a `w` by `h` grid, column by column, the index of the seed nearest to
/// it (the lowest index among equally near seeds).
pub fn voronoi_membership(seeds: &Vec<(i32, i32)>, alg: DistanceAlgorithm, w: i32, h: i32) -> (m: Vec<Vec<i32>>)
    requires
        1 <= seeds@.len() <= i32::MAX,
        0 < w <= 1_000_000,
        0 < h <= 1_000_000,
        forall|i: int| 0 <= i < seeds@.len() ==> -1_000_000 <= (#[trigger] seeds@[i]).0 <= 1_000_000 && -1_000_000 <= seeds@[i].1 <= 1_000_000,
    ensures
        m@.len() == w,
        forall|x: int| #![trigger m@[x]] 0 <= x < w ==> m@[x]@.len() == h,
        forall|x: int, y: int| 0 <= x < w && 0 <= y < h ==> #[trigger] m@[x]@[y] == nearest_seed(seeds@, alg, x, y),
{
    let mut m: Vec<Vec<i32>> = Vec::new();
    let mut x: i32 = 0;
    while x < w
        invariant
            1 <= seeds@.len() <= i32::MAX,
            0 < w <= 1_000_000,
            0 < h <= 1_000_000,
            forall|i: int| 0 <= i < seeds@.len() ==> -1_000_000 <= (#[trigger] seeds@[i]).0 <= 1_000_000 && -1_000_000 <= seeds@[i].1 <= 1_000_000,
            0 <= x <= w,
            m@.len() == x,
            forall|a: int| #![trigger m@[a]] 0 <= a < x ==> m@[a]@.len() == h,
            forall|a: int, b: int| 0 <= a < x && 0 <= b < h ==> #[trigger] m@[a]@[b] == nearest_seed(seeds@, alg, a, b),
        decreases w - x,
    {
        let mut col: Vec<i32> = Vec::new();
        let mut y: i32 = 0;
        while y < h
            invariant
                1 <= seeds@.len() <= i32::MAX,
                0 < w <= 1_000_000,
                0 < h <= 1_000_000,
                forall|i: int| 0 <= i < seeds@.len() ==> -1_000_000 <= (#[trigger] seeds@[i]).0 <= 1_000_000 && -1_000_000 <= seeds@[i].1 <= 1_000_000,
                0 <= x < w,
                0 <= y <= h,
                col@.len() == y,
                forall|b: int| 0 <= b < y ==> #[trigger] col@[b] == nearest_seed(seeds@, alg, x as int, b),
            decreases h - y,
        {
            let mut best: usize = 0;
            let mut best_d = distance(alg, x, y, seeds[0].0, seeds[0].1);
            let mut s: usize = 1;
            while s < seeds.len()
                invariant
                    1 <= seeds@.len() <= i32::MAX,
                    forall|i: int| 0 <= i < seeds@.len() ==> -1_000_000 <= (#[trigger] seeds@[i]).0 <= 1_000_000 && -1_000_000 <= seeds@[i].1 <= 1_000_000,
                    0 <= x < w <= 1_000_000,
                    0 <= y < h <= 1_000_000,
                    1 <= s <= seeds@.len(),
                    best == nearest_upto(seeds@, alg, x as int, y as int, s as nat),
                    best < s,
                    best_d == spec_distance(alg, x as int, y as int, seeds@[best as int].0 as int, seeds@[best as int].1 as int),
                decreases seeds@.len() - s,
            {
                let d = distance(alg, x, y, seeds[s].0, seeds[s].1);
                if d < best_d {
                    best = s;
                    best_d = d;
                }
                s = s + 1;
            }
            col.push(best as i32);
            y = y + 1;
        }
        m.push(col);
        x = x + 1;
    }
    m
}

/// Floors each inner tile of the map that has fewer than two neighbours in another cell.
pub fn carve_cells(map: &mut GameMap, m: &Vec<Vec<i32>>)
    requires
        old(map).wf(),
        m@.len() == old(map).width,
        forall|x: int| #![trigger m@[x]] 0 <= x < m@.len() ==> m@[x]@.len() == old(map).height,
    ensures
        final(map).wf(),
        final(map).same_frame(*old(map)),
        forall|x: int, y: int| #![trigger final(map).tile(x, y)] final(map).on_map(x, y) ==> final(map).tile(x, y) ==
            if 1 <= x < old(map).width - 1 && 1 <= y < old(map).height - 1
                && foreign_neighbours(m@.map_values(|c: Vec<i32>| c@), x, y) < 2 {
                TileType::Floor
            } else {
                old(map).tile(x, y)
            },
{
    let ghost m0 = *map;
    let ghost g = m@.map_values(|c: Vec<i32>| c@);
    let w = map.width;
    let h = map.height;
    let mut y: i32 = 1;
    while y < h - 1
        invariant
            map.wf(),
            map.same_frame(m0),
            w == map.width,
            h == map.height,
            g == m@.map_values(|c: Vec<i32>| c@),
            m@.len() == w,
            forall|x: int| #![trigger m@[x]] 0 <= x < m@.len() ==> m@[x]@.len() == h,
            1 <= y,
            y <= h - 1 || h == 1,
            forall|a: int, b: int| #![trigger map.tile(a, b)] map.on_map(a, b) ==> map.tile(a, b) ==
                if 1 <= a < w - 1 && 1 <= b < y && foreign_neighbours(g, a, b) < 2 { TileType::Floor } else { m0.tile(a, b) },
        decreases h - y,
    {
        let mut x: i32 = 1;
        while x < w - 1
            invariant
                map.wf(),
                map.same_frame(m0),
                w == map.width,
                h == map.height,
                g == m@.map_values(|c: Vec<i32>| c@),
                m@.len() == w,
                forall|x: int| #![trigger m@[x]] 0 <= x < m@.len() ==> m@[x]@.len() == h,
                1 <= y < h - 1,
                1 <= x,
                x <= w - 1 || w == 1,
                forall|a: int, b: int| #![trigger map.tile(a, b)] map.on_map(a, b) ==> map.tile(a, b) ==
                    if 1 <= a < w - 1 && 1 <= b <= y && (b < y || a < x) && foreign_neighbours(g, a, b) < 2 { TileType::Floor } else { m0.tile(a, b) },
            decreases w - x,
        {
            let xu = x as usize;
            let yu = y as usize;
            let my_seed = m[xu][yu];
            let mut neighbors: i32 = 0;
            if m[xu - 1][yu] != my_seed {
                neighbors = neighbors + 1;
            }
            if m[xu + 1][yu] != my_seed {
                neighbors = neighbors + 1;
            }
            if m[xu][yu - 1] != my_seed {
                neighbors = neighbors + 1;
            }
            if m[xu][yu + 1] != my_seed {
                neighbors = neighbors + 1;
            }
            assert(neighbors == foreign_neighbours(g, x as int, y as int));
            if neighbors < 2 {
                map.set_tile(xu, yu, TileType::Floor);
            }
            x = x + 1;
        }
        y = y + 1;
    }
}

/// `p` is among the points of `v`.
pub fn contains_point(v: &Vec<(i32, i32)>, p: (i32, i32)) -> (r: bool)
    ensures
        r == v@.contains(p),
{
    let mut i: usize = 0;
    while i < v.len()
        invariant
            i <= v@.len(),
            forall|j: int| 0 <= j < i ==> v@[j] != p,
        decreases v@.len() - i,
    {
        if v[i].0 == p.0 && v[i].1 == p.1 {
            assert(v@[i as int] == p);
            return true;
        }
        i = i + 1;
    }
    false
}

/// The most seeds drawn before the builder settles for the ones it has.
pub const MAX_SEED_DRAWS: u64 = 18_446_744_073_709_551_615;

impl VoronoiCellBuilder {
    /// 128 seeds, straight-line distance.
    pub fn pythagoras() -> (b: Box<VoronoiCellBuilder>)
        ensures
            b.n_seeds == 128,
            b.distance_algorithm == DistanceAlgorithm::Pythagoras,
    {
        Box::new(VoronoiCellBuilder { n_seeds: 128, distance_algorithm: DistanceAlgorithm::Pythagoras })
    }

    /// 128 seeds, distance along the axes.
    pub fn manhattan() -> (b: Box<VoronoiCellBuilder>)
        ensures
            b.n_seeds == 128,
            b.distance_algorithm == DistanceAlgorithm::Manhattan,
    {
        Box::new(VoronoiCellBuilder { n_seeds: 128, distance_algorithm: DistanceAlgorithm::Manhattan })
    }

    /// 64 seeds, the larger axis distance.
    pub fn chebyshev() -> (b: Box<VoronoiCellBuilder>)
        ensures
            b.n_seeds == 64,
            b.distance_algorithm == DistanceAlgorithm::Chebyshev,
    {
        Box::new(VoronoiCellBuilder { n_seeds: 64, distance_algorithm: DistanceAlgorithm::Chebyshev })
    }

    /// Draws distinct seeds inside the map until it has `n_seeds` of them, floors every inner
    /// tile with fewer than two neighbours in another seed's cell, and, while debugging,
    /// marks the seeds as stairs. The number of draws comes back: there are `n_seeds` seeds
    /// unless `MAX_SEED_DRAWS` draws were spent.
    pub fn build(&mut self, rng: &mut bracket_lib::random::RandomNumberGenerator, build_data: &mut BuilderMap) -> (draws: u64)
        requires
            old(build_data).wf(),
            1 <= old(self).n_seeds <= i32::MAX,
            old(build_data).map.width >= 3,
            old(build_data).map.height >= 3,
        ensures
            final(build_data).wf(),
            final(build_data).same_but_tiles(*old(build_data)),
            exists|seeds: Seq<(i32, i32)>, m: Seq<Seq<i32>>| {
                &&& 1 <= seeds.len() <= old(self).n_seeds
                &&& seeds.len() == old(self).n_seeds || draws == MAX_SEED_DRAWS
                &&& seeds.no_duplicates()
                &&& forall|i: int| 0 <= i < seeds.len() ==> 1 <= (#[trigger] seeds[i]).0 < old(build_data).map.width && 1 <= seeds[i].1 < old(build_data).map.height
                &&& m.len() == old(build_data).map.width
                &&& forall|x: int, y: int| #![trigger m[x][y]] 0 <= x < old(build_data).map.width && 0 <= y < old(build_data).map.height
                    ==> m[x].len() == old(build_data).map.height && m[x][y] == nearest_seed(seeds, old(self).distance_algorithm, x, y)
                &&& forall|x: int, y: int| #![trigger final(build_data).map.tile(x, y)] final(build_data).map.on_map(x, y) ==> final(build_data).map.tile(x, y) ==
                    if DEBUGGING && seeds.contains((x as i32, y as i32)) {
                        TileType::DownStairs
                    } else if 1 <= x < old(build_data).map.width - 1 && 1 <= y < old(build_data).map.height - 1 && foreign_neighbours(m, x, y) < 2 {
                        TileType::Floor
                    } else {
                        old(build_data).map.tile(x, y)
                    }
            },
    {
        let ghost b0 = *build_data;
        let w = build_data.map.width;
        let h = build_data.map.height;
        let mut voronoi_seeds: Vec<(i32, i32)> = Vec::new();
        let mut draws: u64 = 0;
        while (voronoi_seeds.len() < self.n_seeds && draws < MAX_SEED_DRAWS) || voronoi_seeds.len() == 0
            invariant
                build_data.wf(),
                build_data.same_but_tiles(b0),
                w == build_data.map.width,
                h == build_data.map.height,
                w >= 3,
                h >= 3,
                1 <= self.n_seeds <= i32::MAX,
                voronoi_seeds@.len() <= self.n_seeds,
                draws <= MAX_SEED_DRAWS,
                voronoi_seeds@.no_duplicates(),
                forall|i: int| 0 <= i < voronoi_seeds@.len() ==> 1 <= (#[trigger] voronoi_seeds@[i]).0 < w && 1 <= voronoi_seeds@[i].1 < h,
            decreases (if voronoi_seeds@.len() == 0 { 1int } else { 0int }), MAX_SEED_DRAWS - draws,
        {
            let vx = roll_dice(rng, 1, w - 1);
            let vy = roll_dice(rng, 1, h - 1);
            let candidate = (vx, vy);
            if !contains_point(&voronoi_seeds, candidate) {
                voronoi_seeds.push(candidate);
            }
            if draws < MAX_SEED_DRAWS {
                draws = draws + 1;
            }
        }
        let membership = voronoi_membership(&voronoi_seeds, self.distance_algorithm, w, h);
        let ghost g = membership@.map_values(|c: Vec<i32>| c@);
        carve_cells(&mut build_data.map, &membership);
        build_data.take_snapshot();
        let ghost carved = build_data.map;
        if DEBUGGING {
            let mut i: usize = 0;
            while i < voronoi_seeds.len()
                invariant
                    build_data.wf(),
                    build_data.same_but_tiles(b0),
                    w == build_data.map.width,
                    h == build_data.map.height,
                    i <= voronoi_seeds@.len(),
                    forall|k: int| 0 <= k < voronoi_seeds@.len() ==> 1 <= (#[trigger] voronoi_seeds@[k]).0 < w && 1 <= voronoi_seeds@[k].1 < h,
                    forall|a: int, b: int| #![trigger build_data.map.tile(a, b)] build_data.map.on_map(a, b) ==> build_data.map.tile(a, b) ==
                        if voronoi_seeds@.subrange(0, i as int).contains((a as i32, b as i32)) { TileType::DownStairs } else { carved.tile(a, b) },
                decreases voronoi_seeds@.len() - i,
            {
                let p = voronoi_seeds[i];
                build_data.map.set_tile(p.0 as usize, p.1 as usize, TileType::DownStairs);
                build_data.take_snapshot();
                proof {
                    let pre = voronoi_seeds@.subrange(0, i as int);
                    let post = voronoi_seeds@.subrange(0, i + 1);
                    assert(post =~= pre.push(p));
                    assert forall|a: int, b: int| #![trigger build_data.map.tile(a, b)] build_data.map.on_map(a, b) implies
                        (post.contains((a as i32, b as i32)) <==> (pre.contains((a as i32, b as i32)) || (a == p.0 && b == p.1))) by {
                        if a == p.0 && b == p.1 {
                            assert(post[i as int] == (a as i32, b as i32));
                        }
                        if post.contains((a as i32, b as i32)) {
                            let j = choose|j: int| 0 <= j < post.len() && post[j] == (a as i32, b as i32);
                            if j < i {
                                assert(pre[j] == post[j]);
                            }
                        }
                        if pre.contains((a as i32, b as i32)) {
                            let j = choose|j: int| 0 <= j < pre.len() && pre[j] == (a as i32, b as i32);
                            assert(post[j] == pre[j]);
                        }
                    }
                }
                i = i + 1;
            }
            assert(voronoi_seeds@.subrange(0, voronoi_seeds@.len() as int) =~= voronoi_seeds@);
        }
        proof {
            let seeds = voronoi_seeds@;
            assert forall|x: int, y: int| #![trigger g[x][y]] 0 <= x < w && 0 <= y < h implies
                g[x].len() == h && g[x][y] == nearest_seed(seeds, self.distance_algorithm, x, y) by {
                assert(g[x] == membership@[x]@);
            }
            assert forall|x: int, y: int| #![trigger build_data.map.tile(x, y)] build_data.map.on_map(x, y) implies build_data.map.tile(x, y) ==
                if DEBUGGING && seeds.contains((x as i32, y as i32)) {
                    TileType::DownStairs
                } else if 1 <= x < b0.map.width - 1 && 1 <= y < b0.map.height - 1 && foreign_neighbours(g, x, y) < 2 {
                    TileType::Floor
                } else {
                    b0.map.tile(x, y)
                } by {
                assert(carved.tile(x, y) == carved.tile(x, y));
            }
            assert(1 <= seeds.len() <= self.n_seeds);
            assert(seeds.no_duplicates());
            assert(g.len() == b0.map.width);
            assert(forall|x: int, y: int| #![trigger g[x][y]] 0 <= x < b0.map.width && 0 <= y < b0.map.height
                    ==> g[x].len() == b0.map.height && g[x][y] == nearest_seed(seeds, self.distance_algorithm, x, y));
            assert(seeds.len() == self.n_seeds || draws == MAX_SEED_DRAWS);
        }
        draws
    }
}

} // verus!
