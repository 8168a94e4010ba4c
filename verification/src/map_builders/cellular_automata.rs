use vstd::prelude::*;

use crate::map::{GameMap, TileType, grid_wf};
use crate::map_builders::BuilderMap;
use crate::rng::roll_dice;

verus! {

/// How many of the eight tiles around `(x, y)` are walls.
pub open spec fn wall_neighbours(g: Seq<Seq<TileType>>, x: int, y: int) -> int {
    (if g[x][y - 1] == TileType::Wall { 1int } else { 0int })
    + (if g[x][y + 1] == TileType::Wall { 1int } else { 0int })
    + (if g[x - 1][y] == TileType::Wall { 1int } else { 0int })
    + (if g[x + 1][y] == TileType::Wall { 1int } else { 0int })
    + (if g[x + 1][y - 1] == TileType::Wall { 1int } else { 0int })
    + (if g[x + 1][y + 1] == TileType::Wall { 1int } else { 0int })
    + (if g[x - 1][y - 1] == TileType::Wall { 1int } else { 0int })
    + (if g[x - 1][y + 1] == TileType::Wall { 1int } else { 0int })
}

/// `(x, y)` is neither on the outermost rows nor the outermost columns.
pub open spec fn interior(w: int, h: int, x: int, y: int) -> bool {
    1 <= x < w - 1 && 1 <= y < h - 1
}

/// One generation of the cave automaton: an inner tile becomes wall when more than four,
/// or none, of its neighbours are walls, and floor otherwise; the outer frame is kept.
pub open spec fn ca_step(g: Seq<Seq<TileType>>, w: int, h: int) -> Seq<Seq<TileType>> {
    Seq::new(w as nat, |x: int| Seq::new(h as nat, |y: int|
        if interior(w, h, x, y) {
            let n = wall_neighbours(g, x, y);
            if n > 4 || n == 0 { TileType::Wall } else { TileType::Floor }
        } else {
            g[x][y]
        }))
}

/// The eight neighbours of a tile as offsets, in reading order: the row above (left to
/// right), the tiles left and right, and the row below.
pub open spec fn neighbour_offset(k: int) -> (int, int) {
    if k == 0 { (-1, -1) }
    else if k == 1 { (0, -1) }
    else if k == 2 { (1, -1) }
    else if k == 3 { (-1, 0) }
    else if k == 4 { (1, 0) }
    else if k == 5 { (-1, 1) }
    else if k == 6 { (0, 1) }
    else { (1, 1) }
}

/// The tile at the `k`-th neighbour of `(x, y)`.
pub open spec fn neighbour(g: Seq<Seq<TileType>>, x: int, y: int, k: int) -> TileType {
    g[x + neighbour_offset(k).0][y + neighbour_offset(k).1]
}

/// How many of the first `k` neighbours of `(x, y)` are walls.
pub open spec fn walls_among(g: Seq<Seq<TileType>>, x: int, y: int, k: nat) -> int
    decreases k,
{
    if k == 0 {
        0
    } else {
        walls_among(g, x, y, (k - 1) as nat) + if neighbour(g, x, y, k - 1) == TileType::Wall { 1int } else { 0int }
    }
}

/// What one generation makes of an inner tile, counted over its eight neighbours: more than
/// four walls around it, or none, make it a wall, and one to four make it floor; in
/// particular a tile shut in by walls on all sides stays a wall, and so does a tile with
/// floor all round. The outer frame is never touched.
pub proof fn lemma_cave_rule(g: Seq<Seq<TileType>>, w: int, h: int, x: int, y: int)
    requires
        0 <= x < w,
        0 <= y < h,
    ensures
        interior(w, h, x, y) && (walls_among(g, x, y, 8) > 4 || walls_among(g, x, y, 8) == 0)
            ==> ca_step(g, w, h)[x][y] == TileType::Wall,
        interior(w, h, x, y) && 1 <= walls_among(g, x, y, 8) <= 4 ==> ca_step(g, w, h)[x][y] == TileType::Floor,
        interior(w, h, x, y) && (forall|k: int| 0 <= k < 8 ==> #[trigger] neighbour(g, x, y, k) == TileType::Wall)
            ==> ca_step(g, w, h)[x][y] == TileType::Wall,
        interior(w, h, x, y) && (forall|k: int| 0 <= k < 8 ==> #[trigger] neighbour(g, x, y, k) == TileType::Floor)
            ==> ca_step(g, w, h)[x][y] == TileType::Wall,
        !interior(w, h, x, y) ==> ca_step(g, w, h)[x][y] == g[x][y],
{
    reveal_with_fuel(walls_among, 9);
    assert(walls_among(g, x, y, 8) == wall_neighbours(g, x, y));
    if forall|k: int| 0 <= k < 8 ==> #[trigger] neighbour(g, x, y, k) == TileType::Wall {
        assert(neighbour(g, x, y, 0) == TileType::Wall);
        assert(neighbour(g, x, y, 1) == TileType::Wall);
        assert(neighbour(g, x, y, 2) == TileType::Wall);
        assert(neighbour(g, x, y, 3) == TileType::Wall);
        assert(neighbour(g, x, y, 4) == TileType::Wall);
        assert(neighbour(g, x, y, 5) == TileType::Wall);
        assert(neighbour(g, x, y, 6) == TileType::Wall);
        assert(neighbour(g, x, y, 7) == TileType::Wall);
    }
    if forall|k: int| 0 <= k < 8 ==> #[trigger] neighbour(g, x, y, k) == TileType::Floor {
        assert(neighbour(g, x, y, 0) == TileType::Floor);
        assert(neighbour(g, x, y, 1) == TileType::Floor);
        assert(neighbour(g, x, y, 2) == TileType::Floor);
        assert(neighbour(g, x, y, 3) == TileType::Floor);
        assert(neighbour(g, x, y, 4) == TileType::Floor);
        assert(neighbour(g, x, y, 5) == TileType::Floor);
        assert(neighbour(g, x, y, 6) == TileType::Floor);
        assert(neighbour(g, x, y, 7) == TileType::Floor);
    }
}

/// `n` generations of the cave automaton.
pub open spec fn ca_iterate(g: Seq<Seq<TileType>>, w: int, h: int, n: nat) -> Seq<Seq<TileType>>
    decreases n,
{
    if n == 0 { g } else { ca_step(ca_iterate(g, w, h, (n - 1) as nat), w, h) }
}

/// A starting state for the automaton drawn from `old`: inner tiles wall or floor, the
/// outer frame as in `old`.
pub open spec fn ca_seed_of(old: Seq<Seq<TileType>>, seed: Seq<Seq<TileType>>, w: int, h: int) -> bool {
    &&& seed.len() == w
    &&& forall|x: int| 0 <= x < w ==> (#[trigger] seed[x]).len() == h
    &&& forall|x: int, y: int| #![trigger seed[x][y]] 0 <= x < w && 0 <= y < h ==> if interior(w, h, x, y) {
        seed[x][y] == TileType::Wall || seed[x][y] == TileType::Floor
    } else {
        seed[x][y] == old[x][y]
    }
}

/// Builds cave-like maps: random noise smoothed by a cellular automaton.
pub struct CellularAutomataBuilder {}

/// Runs one generation of the cave automaton on the map's tiles.
pub fn cellular_automata_step(map: &mut GameMap)
    requires
        old(map).wf(),
    ensures
        final(map).wf(),
        final(map).same_frame(*old(map)),
        final(map).grid() == ca_step(old(map).grid(), old(map).width as int, old(map).height as int),
{
    let ghost g = map.grid();
    let w = map.width as usize;
    let h = map.height as usize;
    let mut new_tiles = map.copy_tiles();
    let mut y: usize = 1;
    while y + 1 < h
        invariant
            map.wf(),
            w == map.width,
            h == map.height,
            g == map.grid(),
            1 <= y <= h,
            grid_wf(new_tiles@, w as int, h as int),
            forall|a: int, b: int| #![trigger new_tiles@[a]@[b]] 0 <= a < w && 0 <= b < h ==>
                new_tiles@[a]@[b] == if interior(w as int, h as int, a, b) && b < y { ca_step(g, w as int, h as int)[a][b] } else { g[a][b] },
        decreases h - y,
    {
        let mut x: usize = 1;
        while x + 1 < w
            invariant
                map.wf(),
                w == map.width,
                h == map.height,
                g == map.grid(),
                1 <= y < h - 1,
                1 <= x <= w,
                grid_wf(new_tiles@, w as int, h as int),
                forall|a: int, b: int| #![trigger new_tiles@[a]@[b]] 0 <= a < w && 0 <= b < h ==>
                    new_tiles@[a]@[b] == if interior(w as int, h as int, a, b) && (b < y || (b == y && a < x)) {
                        ca_step(g, w as int, h as int)[a][b]
                    } else {
                        g[a][b]
                    },
            decreases w - x,
        {
            let t = &map.tiles;
            assert(g[x as int] == t@[x as int]@);
            assert(g[x - 1] == t@[x - 1]@);
            assert(g[x + 1] == t@[x + 1]@);
            let mut neighbors: i32 = 0;
            if t[x][y - 1] == TileType::Wall { neighbors += 1; }
            if t[x][y + 1] == TileType::Wall { neighbors += 1; }
            if t[x - 1][y] == TileType::Wall { neighbors += 1; }
            if t[x + 1][y] == TileType::Wall { neighbors += 1; }
            if t[x + 1][y - 1] == TileType::Wall { neighbors += 1; }
            if t[x + 1][y + 1] == TileType::Wall { neighbors += 1; }
            if t[x - 1][y - 1] == TileType::Wall { neighbors += 1; }
            if t[x - 1][y + 1] == TileType::Wall { neighbors += 1; }
            assert(neighbors == wall_neighbours(g, x as int, y as int));
            let nt = if neighbors > 4 || neighbors == 0 { TileType::Wall } else { TileType::Floor };
            crate::map::grid_set(&mut new_tiles, x, y, nt);
            x = x + 1;
        }
        y = y + 1;
    }
    map.tiles = new_tiles;
    assert(map.grid() =~= ca_step(g, w as int, h as int)) by {
        assert forall|a: int| 0 <= a < w implies #[trigger] map.grid()[a] =~= ca_step(g, w as int, h as int)[a] by {
            assert forall|b: int| 0 <= b < h implies map.grid()[a][b] == ca_step(g, w as int, h as int)[a][b] by {
                assert(map.grid()[a][b] == map.tiles@[a]@[b]);
            }
        }
    }
}

impl CellularAutomataBuilder {
    /// A cave builder.
    pub fn new() -> (b: Box<CellularAutomataBuilder>) {
        Box::new(CellularAutomataBuilder {})
    }

    /// Fills the inside of the map with random noise, each tile floor with chance 45 in
    /// 100, then smooths it with fifteen generations of the cave automaton.
    pub fn build(&mut self, rng: &mut bracket_lib::random::RandomNumberGenerator, build_data: &mut BuilderMap)
        requires
            old(build_data).wf(),
        ensures
            final(build_data).wf(),
            final(build_data).same_but_tiles(*old(build_data)),
            exists|seed: Seq<Seq<TileType>>| ca_seed_of(old(build_data).map.grid(), seed, old(build_data).width as int, old(build_data).height as int)
                && final(build_data).map.grid() == ca_iterate(seed, old(build_data).width as int, old(build_data).height as int, 15),
    {
        let ghost b0 = *build_data;
        let ghost w = b0.width as int;
        let ghost h = b0.height as int;
        let mut y: i32 = 1;
        while y < build_data.map.height - 1
            invariant
                build_data.wf(),
                build_data.same_but_tiles(b0),
                w == build_data.map.width,
                h == build_data.map.height,
                1 <= y <= h,
                forall|a: int, b: int| #![trigger build_data.map.tile(a, b)] 0 <= a < w && 0 <= b < h ==> {
                    if interior(w, h, a, b) && b < y {
                        build_data.map.tile(a, b) == TileType::Wall || build_data.map.tile(a, b) == TileType::Floor
                    } else {
                        build_data.map.tile(a, b) == b0.map.tile(a, b)
                    }
                },
            decreases h - y,
        {
            let mut x: i32 = 1;
            while x < build_data.map.width - 1
                invariant
                    build_data.wf(),
                    build_data.same_but_tiles(b0),
                w == build_data.map.width,
                h == build_data.map.height,
                    1 <= y < h - 1,
                    1 <= x <= w,
                    forall|a: int, b: int| #![trigger build_data.map.tile(a, b)] 0 <= a < w && 0 <= b < h ==> {
                        if interior(w, h, a, b) && (b < y || (b == y && a < x)) {
                            build_data.map.tile(a, b) == TileType::Wall || build_data.map.tile(a, b) == TileType::Floor
                        } else {
                            build_data.map.tile(a, b) == b0.map.tile(a, b)
                        }
                    },
                decreases w - x,
            {
                let roll = roll_dice(rng, 1, 100);
                let t = if roll > 55 { TileType::Floor } else { TileType::Wall };
                build_data.map.set_tile(x as usize, y as usize, t);
                x = x + 1;
            }
            y = y + 1;
        }
        build_data.take_snapshot();
        let ghost seed = build_data.map.grid();
        proof {
            assert(ca_seed_of(b0.map.grid(), seed, w, h)) by {
                assert forall|a: int, b: int| #![trigger seed[a][b]] 0 <= a < w && 0 <= b < h implies if interior(w, h, a, b) {
                    seed[a][b] == TileType::Wall || seed[a][b] == TileType::Floor
                } else {
                    seed[a][b] == b0.map.grid()[a][b]
                } by {
                    assert(seed[a][b] == build_data.map.tile(a, b));
                    assert(b0.map.grid()[a][b] == b0.map.tile(a, b));
                }
            }
        }
        let mut i: usize = 0;
        while i < 15
            invariant
                build_data.wf(),
                build_data.same_but_tiles(b0),
                w == build_data.map.width,
                h == build_data.map.height,
                i <= 15,
                build_data.map.grid() == ca_iterate(seed, w, h, i as nat),
            decreases 15 - i,
        {
            cellular_automata_step(&mut build_data.map);
            build_data.take_snapshot();
            i = i + 1;
        }
    }
}

} // verus!
