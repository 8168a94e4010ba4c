use vstd::prelude::*;

use crate::map::{GameMap, TileType};
use crate::map_builders::{record_snapshot, BuilderMap};

pub mod common;
pub mod constraints;
pub mod solver;

use crate::map_builders::waveform_collapse::common::MapChunk;
use crate::map_builders::waveform_collapse::constraints::{
    build_patterns, chunk_of, chunk_pattern, chunk_variant, compatible_upto, is_map_pattern, lemma_compatibility_symmetric,
    lemma_compatible_upto_contains, opposite_side, pattern_has_exits, pattern_seqs, patterns_compatible, patterns_to_constraints,
    render_pattern_to_map,
};
use crate::map_builders::waveform_collapse::solver::{fits_all, fitting_count, neighbor_options, open_cells, shows_pattern, Solver};

verus! {

/// Where the patterns come from: a test map, or the map built so far.
#[derive(PartialEq, Eq, Copy, Clone, Debug, Structural)]
pub enum WaveformMode {
    TestMap,
    Derived,
}

/// Rebuilds the map from chunks cut out of it by wave-function collapse.
pub struct WaveformCollapseBuilder {}

/// The side of the chunks.
pub const CHUNK_SIZE: i32 = 8;

/// The most attempts at solving before the builder keeps what it has.
pub const MAX_ATTEMPTS: u32 = 4_294_967_295;

/// The square of grid cell `(qx, qy)` shows pattern `p`.
pub open spec fn window_shows(m: GameMap, cs: int, qx: int, qy: int, p: Seq<TileType>) -> bool {
    forall|tx: int, ty: int| 0 <= tx < cs && 0 <= ty < cs ==> #[trigger] m.tile(qx * cs + tx, qy * cs + ty) == p[ty * cs + tx]
}

/// The square of grid cell `(qx, qy)` is all wall.
pub open spec fn window_walled(m: GameMap, cs: int, qx: int, qy: int) -> bool {
    forall|tx: int, ty: int| 0 <= tx < cs && 0 <= ty < cs ==> #[trigger] m.tile(qx * cs + tx, qy * cs + ty) == TileType::Wall
}

/// A tile of the square of grid cell `c` lies in no other cell's square.
proof fn lemma_cell_of_tile(nx: int, cs: int, c: int, tx: int, ty: int, d: int)
    requires
        0 < nx,
        0 < cs,
        0 <= c,
        0 <= d,
        0 <= tx < cs,
        0 <= ty < cs,
        (d % nx) * cs <= (c % nx) * cs + tx < (d % nx) * cs + cs,
        (d / nx) * cs <= (c / nx) * cs + ty < (d / nx) * cs + cs,
    ensures
        c == d,
{
    let a = (c % nx) * cs + tx;
    let b = (c / nx) * cs + ty;
    assert(c % nx == d % nx) by (nonlinear_arith)
        requires
            0 <= tx < cs,
            (d % nx) * cs <= (c % nx) * cs + tx < (d % nx) * cs + cs,
            0 < cs;
    assert(c / nx == d / nx) by (nonlinear_arith)
        requires
            0 <= ty < cs,
            (d / nx) * cs <= (c / nx) * cs + ty < (d / nx) * cs + cs,
            0 < cs;
    assert(c == (c / nx) * nx + c % nx) by (nonlinear_arith) requires 0 < nx;
    assert(d == (d / nx) * nx + d % nx) by (nonlinear_arith) requires 0 < nx;
}

fn copy_chunk(c: &MapChunk) -> (d: MapChunk)
    ensures
        d.pattern@ == c.pattern@,
        forall|k: int| 0 <= k < 4 ==> (#[trigger] d.exits@[k])@ == c.exits@[k]@,
        d.has_exits == c.has_exits,
        forall|k: int| 0 <= k < 4 ==> (#[trigger] d.compatible_with@[k])@ == c.compatible_with@[k]@,
{
    let d = MapChunk {
        pattern: copy_vec(&c.pattern),
        exits: [copy_vec(&c.exits[0]), copy_vec(&c.exits[1]), copy_vec(&c.exits[2]), copy_vec(&c.exits[3])],
        has_exits: c.has_exits,
        compatible_with: [copy_vec(&c.compatible_with[0]), copy_vec(&c.compatible_with[1]), copy_vec(&c.compatible_with[2]), copy_vec(&c.compatible_with[3])],
    };
    assert forall|k: int| 0 <= k < 4 implies (#[trigger] d.exits@[k])@ == c.exits@[k]@ by {}
    assert forall|k: int| 0 <= k < 4 implies (#[trigger] d.compatible_with@[k])@ == c.compatible_with@[k]@ by {}
    d
}

fn copy_vec<T: Copy>(v: &Vec<T>) -> (w: Vec<T>)
    ensures
        w@ == v@,
{
    let mut w: Vec<T> = Vec::new();
    let mut i: usize = 0;
    while i < v.len()
        invariant
            i <= v@.len(),
            w@ == v@.subrange(0, i as int),
        decreases v@.len() - i,
    {
        w.push(v[i]);
        i = i + 1;
    }
    assert(w@ =~= v@);
    w
}

/// A copy of the chunks.
fn copy_chunks(v: &Vec<MapChunk>) -> (w: Vec<MapChunk>)
    ensures
        w@.len() == v@.len(),
        forall|i: int| 0 <= i < v@.len() ==> {
            &&& (#[trigger] w@[i]).pattern@ == v@[i].pattern@
            &&& forall|k: int| 0 <= k < 4 ==> (#[trigger] w@[i].exits@[k])@ == v@[i].exits@[k]@
            &&& w@[i].has_exits == v@[i].has_exits
            &&& forall|k: int| 0 <= k < 4 ==> (#[trigger] w@[i].compatible_with@[k])@ == v@[i].compatible_with@[k]@
        },
{
    let mut w: Vec<MapChunk> = Vec::new();
    let mut i: usize = 0;
    while i < v.len()
        invariant
            i <= v@.len(),
            w@.len() == i,
            forall|j: int| 0 <= j < i ==> {
                &&& (#[trigger] w@[j]).pattern@ == v@[j].pattern@
                &&& forall|k: int| 0 <= k < 4 ==> (#[trigger] w@[j].exits@[k])@ == v@[j].exits@[k]@
                &&& w@[j].has_exits == v@[j].has_exits
                &&& forall|k: int| 0 <= k < 4 ==> (#[trigger] w@[j].compatible_with@[k])@ == v@[j].compatible_with@[k]@
            },
        decreases v@.len() - i,
    {
        w.push(copy_chunk(&v[i]));
        i = i + 1;
    }
    w
}

impl WaveformCollapseBuilder {
    /// A wave-function collapse builder.
    pub fn new() -> (b: Box<WaveformCollapseBuilder>) {
        Box::new(WaveformCollapseBuilder {})
    }

    /// Draws every chunk side by side on a scratch map, for the generation history.
    pub fn render_tile_gallery(&mut self, constraints: &Vec<MapChunk>, chunk_size: i32, build_data: &mut BuilderMap)
        requires
            old(build_data).wf(),
            1 <= chunk_size <= 8,
            forall|k: int| 0 <= k < constraints@.len() ==> (#[trigger] constraints@[k]).pattern@.len() >= chunk_size * chunk_size,
            forall|k: int, d: int| 0 <= k < constraints@.len() && 0 <= d < 4 ==> (#[trigger] constraints@[k].exits@[d])@.len() <= chunk_size,
            constraints@.len() > 0 ==> old(build_data).width >= chunk_size + 1 && old(build_data).height >= chunk_size + 1,
        ensures
            final(build_data).map == old(build_data).map,
            final(build_data).spawn_list == old(build_data).spawn_list,
            final(build_data).starting_position == old(build_data).starting_position,
            final(build_data).rooms == old(build_data).rooms,
            final(build_data).corridors == old(build_data).corridors,
            final(build_data).width == old(build_data).width,
            final(build_data).height == old(build_data).height,
            !crate::map_builders::SHOW_MAPGEN_VISUALIZATION ==> final(build_data).history == old(build_data).history,
    {
        let mut gallery = GameMap::with_size(0, build_data.width, build_data.height);
        let mut counter: usize = 0;
        let mut x: i32 = 1;
        let mut y: i32 = 1;
        while counter < constraints.len()
            invariant
                gallery.wf(),
                gallery.width <= 10_000,
                gallery.height <= 10_000,
                1 <= chunk_size <= 8,
                forall|k: int| 0 <= k < constraints@.len() ==> (#[trigger] constraints@[k]).pattern@.len() >= chunk_size * chunk_size,
                forall|k: int, d: int| 0 <= k < constraints@.len() && 0 <= d < 4 ==> (#[trigger] constraints@[k].exits@[d])@.len() <= chunk_size,
                counter <= constraints@.len(),
                counter < constraints@.len() ==> 1 <= x && x + chunk_size <= gallery.width && 1 <= y && y + chunk_size <= gallery.height,
                *build_data == *old(build_data) || (build_data.map == old(build_data).map
                    && build_data.spawn_list == old(build_data).spawn_list
                    && build_data.starting_position == old(build_data).starting_position
                    && build_data.rooms == old(build_data).rooms
                    && build_data.corridors == old(build_data).corridors
                    && build_data.width == old(build_data).width
                    && build_data.height == old(build_data).height
                    && (!crate::map_builders::SHOW_MAPGEN_VISUALIZATION ==> build_data.history == old(build_data).history)),
            decreases constraints@.len() - counter,
        {
            render_pattern_to_map(&mut gallery, &constraints[counter], chunk_size, x, y);
            record_snapshot(&mut build_data.history, &gallery);
            x = x + chunk_size + 1;
            if x + chunk_size > gallery.width {
                x = 1;
                y = y + chunk_size + 1;
                if y + chunk_size > gallery.height {
                    gallery = GameMap::with_size(0, 64, 64);
                    x = 1;
                    y = 1;
                }
            }
            counter = counter + 1;
        }
        record_snapshot(&mut build_data.history, &gallery);
    }

    /// Cuts the map into 8 by 8 chunks (with mirror images, each kept once), works out
    /// which may sit next to which, then fills a fresh map of the same size and depth by
    /// solving, starting again while a solution turns out impossible. Whether it was solved
    /// comes back: then every cell of the chunk grid shows one of the patterns cut from the
    /// map, and neighbouring cells' patterns fit on their shared side; it is always solved
    /// when no pattern has an open edge slot. Whatever the outcome every cell shows such a
    /// pattern or is all wall, and the tiles outside the grid are wall.
    #[verifier::spinoff_prover]
    #[verifier::rlimit(100)]
    pub fn build(&mut self, rng: &mut bracket_lib::random::RandomNumberGenerator, build_data: &mut BuilderMap) -> (solved: bool)
        requires
            old(build_data).wf(),
            old(build_data).width >= CHUNK_SIZE ==> old(build_data).width >= CHUNK_SIZE + 1,
            old(build_data).height >= CHUNK_SIZE ==> old(build_data).height >= CHUNK_SIZE + 1,
        ensures
            final(build_data).wf(),
            final(build_data).width == old(build_data).width,
            final(build_data).height == old(build_data).height,
            final(build_data).map.depth == old(build_data).map.depth,
            final(build_data).spawn_list == old(build_data).spawn_list,
            final(build_data).starting_position == old(build_data).starting_position,
            final(build_data).rooms == old(build_data).rooms,
            final(build_data).corridors == old(build_data).corridors,
            forall|c: int| 0 <= c < (old(build_data).width / CHUNK_SIZE) * (old(build_data).height / CHUNK_SIZE) ==>
                pattern_or_wall(old(build_data).map, final(build_data).map, #[trigger] cell_x(c, old(build_data).width as int), cell_y(c, old(build_data).width as int)),
            forall|a: int, b: int| #![trigger final(build_data).map.tile(a, b)] final(build_data).map.on_map(a, b)
                && (a >= (old(build_data).width / CHUNK_SIZE) * CHUNK_SIZE || b >= (old(build_data).height / CHUNK_SIZE) * CHUNK_SIZE)
                ==> final(build_data).map.tile(a, b) == TileType::Wall,
        solved ==> exists|pats: Seq<Seq<TileType>>| #[trigger] solved_grid(old(build_data).map, final(build_data).map, pats,
            (old(build_data).width / CHUNK_SIZE) as int, (old(build_data).height / CHUNK_SIZE) as int),
        no_exits(old(build_data).map) ==> solved,
    {
        let ghost b0 = *build_data;
        build_data.take_snapshot();
        let current_depth = build_data.map.depth;
        let patterns = build_patterns(&build_data.map, CHUNK_SIZE, true, true);
        let ghost ps = pattern_seqs(patterns@);
        let constraints = patterns_to_constraints(patterns, CHUNK_SIZE);
        let w = build_data.width;
        let h = build_data.height;
        let ghost nx = (w / CHUNK_SIZE) as int;
        let ghost ny = (h / CHUNK_SIZE) as int;
        proof {
            assert forall|k: int| 0 <= k < constraints@.len() implies (#[trigger] constraints@[k]).pattern@.len() == CHUNK_SIZE * CHUNK_SIZE
                && is_map_pattern(b0.map, CHUNK_SIZE as int, true, constraints@[k].pattern@) by {
                assert(chunk_of(constraints@[k], ps, k, CHUNK_SIZE as int));
                assert(ps[k] == patterns@[k]@);
            }
            assert forall|k: int, d: int| 0 <= k < constraints@.len() && 0 <= d < 4 implies (#[trigger] constraints@[k].exits@[d])@.len() <= CHUNK_SIZE by {
                assert(chunk_of(constraints@[k], ps, k, CHUNK_SIZE as int));
            }
            assert forall|k: int, d: int, j: int| 0 <= k < constraints@.len() && 0 <= d < 4 && 0 <= j < constraints@[k].compatible_with@[d]@.len()
                implies #[trigger] constraints@[k].compatible_with@[d]@[j] < constraints@.len() by {
                assert(chunk_of(constraints@[k], ps, k, CHUNK_SIZE as int));
                lemma_compatible_bound(ps, k, CHUNK_SIZE as int, d, ps.len());
            }
            assert forall|k: int, d: int| 0 <= k < constraints@.len() && 0 <= d < 4 implies (#[trigger] constraints@[k].compatible_with@[d])@
                == compatible_upto(ps, k, CHUNK_SIZE as int, d, ps.len()) by {
                assert(chunk_of(constraints@[k], ps, k, CHUNK_SIZE as int));
            }
            assert forall|k: int| 0 <= k < constraints@.len() implies (#[trigger] constraints@[k]).pattern@ == ps[k] by {
                assert(chunk_of(constraints@[k], ps, k, CHUNK_SIZE as int));
            }
            assert(nx * ny <= w * h / 64) by (nonlinear_arith)
                requires nx == w / 8, ny == h / 8, 0 < w, 0 < h;
            assert(w * h <= 100_000_000) by (nonlinear_arith)
                requires 0 < w <= 10_000, 0 < h <= 10_000;
            assert(nx * CHUNK_SIZE <= w && ny * CHUNK_SIZE <= h) by (nonlinear_arith)
                requires nx == w / 8, ny == h / 8, 0 < w, 0 < h;
            assert(nx * ny <= 100_000_000) by (nonlinear_arith)
                requires nx * ny <= w * h / 64, w * h <= 100_000_000;
            if nx * ny > 0 {
                assert(nx > 0 && ny > 0) by (nonlinear_arith) requires nx * ny > 0, nx >= 0, ny >= 0;
                assert(chunk_variant(b0.map, CHUNK_SIZE as int, 0, 0, true, chunk_pattern(b0.map, CHUNK_SIZE as int, 0, 0, false, false)));
                assert(ps.contains(chunk_pattern(b0.map, CHUNK_SIZE as int, 0, 0, false, false)));
            }
        }
        self.render_tile_gallery(&constraints, CHUNK_SIZE, build_data);
        build_data.map = GameMap::with_size(current_depth, w, h);
        proof {
            lemma_fresh_walled(build_data.map, nx, ny);
            assert forall|c: int| 0 <= c < nx * ny implies pattern_or_wall(b0.map, build_data.map, #[trigger] cell_x(c, w as int), cell_y(c, w as int)) by {
                lemma_cell_in_grid(c, nx, ny);
            }
        }
        let mut attempts: u32 = 0;
        let mut solved = false;
        let ghost mut sol_pats: Seq<Seq<TileType>> = Seq::empty();
        loop
            invariant_except_break
                !solved,
            invariant
                ps.len() == constraints@.len(),
                ps.len() <= usize::MAX,
                forall|k: int| 0 <= k < constraints@.len() ==> (#[trigger] constraints@[k]).pattern@ == ps[k],
                forall|k: int, d: int| 0 <= k < constraints@.len() && 0 <= d < 4 ==> (#[trigger] constraints@[k].compatible_with@[d])@
                    == compatible_upto(ps, k, CHUNK_SIZE as int, d, ps.len()),
                build_data.wf(),
                build_data.width == b0.width,
                build_data.height == b0.height,
                build_data.map.depth == b0.map.depth,
                build_data.spawn_list == b0.spawn_list,
                build_data.starting_position == b0.starting_position,
                build_data.rooms == b0.rooms,
                build_data.corridors == b0.corridors,
                w == b0.width,
                h == b0.height,
                nx == w / CHUNK_SIZE,
                ny == h / CHUNK_SIZE,
                nx * CHUNK_SIZE <= w,
                ny * CHUNK_SIZE <= h,
                w * h <= 100_000_000,
                nx * ny <= 100_000_000,
                nx * ny > 0 ==> constraints@.len() > 0,
                constraints@.len() <= 4 * (nx * ny),
                forall|k: int| 0 <= k < constraints@.len() ==> (#[trigger] constraints@[k]).pattern@.len() == CHUNK_SIZE * CHUNK_SIZE
                    && is_map_pattern(b0.map, CHUNK_SIZE as int, true, constraints@[k].pattern@),
                forall|k: int, d: int, j: int| 0 <= k < constraints@.len() && 0 <= d < 4 && 0 <= j < constraints@[k].compatible_with@[d]@.len()
                    ==> #[trigger] constraints@[k].compatible_with@[d]@[j] < constraints@.len(),
                forall|c: int| 0 <= c < nx * ny ==> pattern_or_wall(b0.map, build_data.map, #[trigger] cell_x(c, w as int), cell_y(c, w as int)),
                forall|a: int, b: int| #![trigger build_data.map.tile(a, b)] build_data.map.on_map(a, b)
                    && (a >= nx * CHUNK_SIZE || b >= ny * CHUNK_SIZE) ==> build_data.map.tile(a, b) == TileType::Wall,
            ensures
                solved ==> solved_grid(b0.map, build_data.map, sol_pats, nx, ny),
                no_exits(b0.map) ==> solved,
            decreases MAX_ATTEMPTS - attempts,
        {
            let copied = copy_chunks(&constraints);
            proof {
                assert forall|k: int| 0 <= k < copied@.len() implies (#[trigger] copied@[k]).pattern@.len() == CHUNK_SIZE * CHUNK_SIZE by {
                    assert(constraints@[k].pattern@.len() == CHUNK_SIZE * CHUNK_SIZE);
                }
                assert forall|k: int, d: int, j: int| 0 <= k < copied@.len() && 0 <= d < 4 && 0 <= j < copied@[k].compatible_with@[d]@.len()
                    implies #[trigger] copied@[k].compatible_with@[d]@[j] < copied@.len() by {
                    assert(copied@[k].compatible_with@[d]@ == constraints@[k].compatible_with@[d]@);
                    assert(constraints@[k].compatible_with@[d]@[j] < constraints@.len());
                }
                assert(constraints@.len() < i32::MAX);
                assert forall|k: int, d: int| 0 <= k < copied@.len() && 0 <= d < 4 implies (#[trigger] copied@[k].compatible_with@[d])@
                    == compatible_upto(ps, k, CHUNK_SIZE as int, d, ps.len()) by {
                    assert(constraints@[k].compatible_with@[d]@ == compatible_upto(ps, k, CHUNK_SIZE as int, d, ps.len()));
                }
            }
            let mut solver = Solver::new(copied, CHUNK_SIZE, &build_data.map);
            proof {
                assert forall|c: int| 0 <= c < nx * ny implies (#[trigger] solver.chunks@[c] matches Some(k) ==>
                    window_shows(build_data.map, CHUNK_SIZE as int, cell_x(c, w as int), cell_y(c, w as int), constraints@[k as int].pattern@)) by {
                    assert(solver.chunks@[c] is None);
                }
                lemma_none_fit(solver.chunks@, ps, nx);
                assert forall|k: int, d: int| 0 <= k < constraints@.len() && 0 <= d < 4 implies (#[trigger] solver.constraints@[k].compatible_with@[d])@
                    == compatible_upto(ps, k, CHUNK_SIZE as int, d, ps.len()) by {
                    assert(copied@[k].compatible_with@[d]@ == compatible_upto(ps, k, CHUNK_SIZE as int, d, ps.len()));
                }
            }
            solve_attempt(&mut solver, build_data, rng, &constraints, w, h, Ghost(b0), Ghost(ps), Ghost(nx), Ghost(ny));
            build_data.take_snapshot();
            if solver.possible {
                proof {
                    assert forall|c: int| 0 <= c < nx * ny implies (#[trigger] solver.chunks@[c]) is Some by {
                        if solver.chunks@[c] is None {
                            assert(open_cells(solver.remaining@).contains(c as usize));
                        }
                    }
                    sol_pats = lemma_solved_pats(b0.map, build_data.map, solver.chunks@, constraints@, ps, nx, ny, w as int);
                }
                solved = true;
                break;
            }
            if attempts == MAX_ATTEMPTS {
                break;
            }
            attempts = attempts + 1;
        }
        solved
    }
}

/// A solved map: every cell of the `nx` by `ny` chunk grid shows its pattern `pats[c]`, cut
/// from `src`, and the patterns of side-by-side cells fit on the left one's east side, and
/// those of stacked cells on the upper one's south side.
#[verifier::opaque]
pub open spec fn solved_grid(src: GameMap, m: GameMap, pats: Seq<Seq<TileType>>, nx: int, ny: int) -> bool {
    &&& pats.len() == nx * ny
    &&& forall|c: int| 0 <= c < nx * ny ==> is_map_pattern(src, CHUNK_SIZE as int, true, #[trigger] pats[c])
        && window_shows(m, CHUNK_SIZE as int, c % nx, c / nx, pats[c])
    &&& forall|c: int| 0 <= c && c + 1 < nx * ny && c % nx < nx - 1 ==> patterns_compatible(#[trigger] pats[c], pats[c + 1], CHUNK_SIZE as int, 3)
    &&& forall|c: int| 0 <= c && c + nx < nx * ny ==> patterns_compatible(#[trigger] pats[c], pats[c + nx], CHUNK_SIZE as int, 1)
}

/// No pattern cut from `src` has an open edge slot.
pub open spec fn no_exits(src: GameMap) -> bool {
    forall|p: Seq<TileType>| #[trigger] is_map_pattern(src, CHUNK_SIZE as int, true, p) ==> !pattern_has_exits(p, CHUNK_SIZE as int)
}

/// The chunks chosen so far fit their chosen neighbours (patterns numbered as in `ps`).
/// Pattern `q` may sit on side `dir` of pattern `p`, for chunks of the builder's size.
#[verifier::opaque]
spec fn fit_pair(p: Seq<TileType>, q: Seq<TileType>, dir: int) -> bool {
    patterns_compatible(p, q, CHUNK_SIZE as int, dir)
}

#[verifier::opaque]
spec fn placed_fit(chunks: Seq<Option<usize>>, ps: Seq<Seq<TileType>>, nx: int) -> bool {
    &&& forall|c: int| 0 <= c && c + 1 < chunks.len() && c % nx < nx - 1 && (#[trigger] chunks[c]) is Some && chunks[c + 1] is Some
        ==> fit_pair(ps[chunks[c]->0 as int], ps[chunks[c + 1]->0 as int], 3)
    &&& forall|c: int| 0 <= c && c + nx < chunks.len() && (#[trigger] chunks[c]) is Some && chunks[c + nx] is Some
        ==> fit_pair(ps[chunks[c]->0 as int], ps[chunks[c + nx]->0 as int], 1)
}

/// With no chunk chosen, every chosen pair fits.
proof fn lemma_none_fit(chunks: Seq<Option<usize>>, ps: Seq<Seq<TileType>>, nx: int)
    requires
        0 <= nx,
        forall|c: int| 0 <= c < chunks.len() ==> (#[trigger] chunks[c]) == None::<usize>,
    ensures
        placed_fit(chunks, ps, nx),
{
    reveal(placed_fit);
    assert forall|c: int| 0 <= c && c + 1 < chunks.len() && c % nx < nx - 1 && (#[trigger] chunks[c]) is Some && chunks[c + 1] is Some
        implies fit_pair(ps[chunks[c]->0 as int], ps[chunks[c + 1]->0 as int], 3) by {
        let t = chunks[c];
        assert(t == None::<usize>);
    }
    assert forall|c: int| 0 <= c && c + nx < chunks.len() && (#[trigger] chunks[c]) is Some && chunks[c + nx] is Some
        implies fit_pair(ps[chunks[c]->0 as int], ps[chunks[c + nx]->0 as int], 1) by {
        let t = chunks[c];
        assert(t == None::<usize>);
    }
}

/// With every cell of the grid chosen, the chosen patterns make a solved map.
proof fn lemma_solved_pats(src: GameMap, m: GameMap, chunks: Seq<Option<usize>>, cons: Seq<MapChunk>, ps: Seq<Seq<TileType>>,
    nx: int, ny: int, w: int) -> (pats: Seq<Seq<TileType>>)
    requires
        nx == w / CHUNK_SIZE as int,
        nx >= 0,
        ny >= 0,
        chunks.len() == nx * ny,
        ps.len() == cons.len(),
        forall|c: int| 0 <= c < nx * ny ==> (#[trigger] chunks[c]) is Some,
        forall|c: int| 0 <= c < chunks.len() ==> (#[trigger] chunks[c] matches Some(k) ==> k < cons.len()),
        forall|k: int| 0 <= k < cons.len() ==> (#[trigger] cons[k]).pattern@ == ps[k],
        forall|k: int| 0 <= k < cons.len() ==> is_map_pattern(src, CHUNK_SIZE as int, true, (#[trigger] cons[k]).pattern@),
        forall|c: int| 0 <= c < nx * ny ==> (#[trigger] chunks[c] matches Some(k) ==>
            window_shows(m, CHUNK_SIZE as int, cell_x(c, w), cell_y(c, w), cons[k as int].pattern@)),
        placed_fit(chunks, ps, nx),
    ensures
        solved_grid(src, m, pats, nx, ny),
{
    reveal(fit_pair);
    reveal(placed_fit);
    reveal(solved_grid);
    let pats = Seq::new((nx * ny) as nat, |c: int| ps[chunks[c]->0 as int]);
    assert forall|c: int| 0 <= c < nx * ny implies is_map_pattern(src, CHUNK_SIZE as int, true, #[trigger] pats[c])
        && window_shows(m, CHUNK_SIZE as int, c % nx, c / nx, pats[c]) by {
        assert(chunks[c] is Some);
        let k = chunks[c]->0 as int;
        assert(cons[k].pattern@ == ps[k]);
    }
    assert forall|c: int| 0 <= c && c + 1 < nx * ny && c % nx < nx - 1 implies
        patterns_compatible(#[trigger] pats[c], pats[c + 1], CHUNK_SIZE as int, 3) by {
        assert(chunks[c] is Some && chunks[c + 1] is Some);
    }
    assert forall|c: int| 0 <= c && c + nx < nx * ny implies
        patterns_compatible(#[trigger] pats[c], pats[c + nx], CHUNK_SIZE as int, 1) by {
        assert(chunks[c] is Some && chunks[c + nx] is Some);
    }
    pats
}

/// A chunk that every neighbour's list allows is in each of those lists.
proof fn lemma_fits_each(chunks: Seq<Option<usize>>, cons: Seq<MapChunk>, nx: int, ny: int, x: int, y: int, k: usize)
    requires
        fits_all(neighbor_options(chunks, cons, nx, ny, x, y), k),
    ensures
        x > 0 && chunks[y * nx + x - 1] is Some ==> cons[chunks[y * nx + x - 1]->0 as int].compatible_with@[3]@.contains(k),
        x < nx - 1 && chunks[y * nx + x + 1] is Some ==> cons[chunks[y * nx + x + 1]->0 as int].compatible_with@[2]@.contains(k),
        y > 0 && chunks[(y - 1) * nx + x] is Some ==> cons[chunks[(y - 1) * nx + x]->0 as int].compatible_with@[1]@.contains(k),
        y < ny - 1 && chunks[(y + 1) * nx + x] is Some ==> cons[chunks[(y + 1) * nx + x]->0 as int].compatible_with@[0]@.contains(k),
{
    let opts = neighbor_options(chunks, cons, nx, ny, x, y);
    let l = if x > 0 && chunks[y * nx + x - 1] is Some { seq![cons[chunks[y * nx + x - 1]->0 as int].compatible_with@[3]@] } else { Seq::empty() };
    let r = if x < nx - 1 && chunks[y * nx + x + 1] is Some { seq![cons[chunks[y * nx + x + 1]->0 as int].compatible_with@[2]@] } else { Seq::empty() };
    let u = if y > 0 && chunks[(y - 1) * nx + x] is Some { seq![cons[chunks[(y - 1) * nx + x]->0 as int].compatible_with@[1]@] } else { Seq::empty() };
    let d = if y < ny - 1 && chunks[(y + 1) * nx + x] is Some { seq![cons[chunks[(y + 1) * nx + x]->0 as int].compatible_with@[0]@] } else { Seq::empty() };
    assert(opts == l + r + u + d);
    if l.len() > 0 { assert(opts[0] == l[0]); assert(opts[0].contains(k)); }
    if r.len() > 0 { assert(opts[l.len() as int] == r[0]); assert(opts[l.len() as int].contains(k)); }
    if u.len() > 0 { assert(opts[(l.len() + r.len()) as int] == u[0]); assert(opts[(l.len() + r.len()) as int].contains(k)); }
    if d.len() > 0 { assert(opts[(l.len() + r.len() + u.len()) as int] == d[0]); assert(opts[(l.len() + r.len() + u.len()) as int].contains(k)); }
}

/// When every list of every chunk holds `j`, `j` fits whatever neighbours are chosen.
proof fn lemma_all_lists_hold(chunks: Seq<Option<usize>>, cons: Seq<MapChunk>, nx: int, ny: int, x: int, y: int, j: usize)
    requires
        forall|i: int, d: int| 0 <= i < cons.len() && 0 <= d < 4 ==> (#[trigger] cons[i].compatible_with@[d])@.contains(j),
        forall|q: int| 0 <= q < chunks.len() ==> (#[trigger] chunks[q] matches Some(t) ==> t < cons.len()),
        0 <= x < nx,
        0 <= y < ny,
        chunks.len() == nx * ny,
    ensures
        fits_all(neighbor_options(chunks, cons, nx, ny, x, y), j),
{
    let opts = neighbor_options(chunks, cons, nx, ny, x, y);
    assert(0 <= y * nx + x - 1 && y * nx + x + 1 < nx * ny ==> true);
    assert((x > 0 ==> 0 <= y * nx + x - 1 < nx * ny) && (x < nx - 1 ==> 0 <= y * nx + x + 1 < nx * ny)
        && (y > 0 ==> 0 <= (y - 1) * nx + x < nx * ny) && (y < ny - 1 ==> 0 <= (y + 1) * nx + x < nx * ny)) by (nonlinear_arith)
        requires 0 <= x < nx, 0 <= y < ny;
    assert forall|o: int| 0 <= o < opts.len() implies #[trigger] opts[o].contains(j) by {
        let l = if x > 0 && chunks[y * nx + x - 1] is Some { seq![cons[chunks[y * nx + x - 1]->0 as int].compatible_with@[3]@] } else { Seq::empty() };
        let r = if x < nx - 1 && chunks[y * nx + x + 1] is Some { seq![cons[chunks[y * nx + x + 1]->0 as int].compatible_with@[2]@] } else { Seq::empty() };
        let u = if y > 0 && chunks[(y - 1) * nx + x] is Some { seq![cons[chunks[(y - 1) * nx + x]->0 as int].compatible_with@[1]@] } else { Seq::empty() };
        let d = if y < ny - 1 && chunks[(y + 1) * nx + x] is Some { seq![cons[chunks[(y + 1) * nx + x]->0 as int].compatible_with@[0]@] } else { Seq::empty() };
        assert(opts == l + r + u + d);
        if x > 0 && chunks[y * nx + x - 1] is Some { assert(chunks[y * nx + x - 1]->0 < cons.len()); }
        if x < nx - 1 && chunks[y * nx + x + 1] is Some { assert(chunks[y * nx + x + 1]->0 < cons.len()); }
        if y > 0 && chunks[(y - 1) * nx + x] is Some { assert(chunks[(y - 1) * nx + x]->0 < cons.len()); }
        if y < ny - 1 && chunks[(y + 1) * nx + x] is Some { assert(chunks[(y + 1) * nx + x]->0 < cons.len()); }
    }
}

/// When chunk `j` below `n` fits, some chunk below `n` fits.
proof fn lemma_fitting_positive(opts: Seq<Seq<usize>>, j: usize, n: nat)
    requires
        j < n,
        fits_all(opts, j),
    ensures
        fitting_count(opts, n) >= 1,
    decreases n,
{
    if n > j + 1 {
        lemma_fitting_positive(opts, j, (n - 1) as nat);
    } else {
        assert((n - 1) as usize == j);
    }
}

/// Choosing chunk `k` for open cell `c`, where every chosen neighbour's list allows it,
/// keeps every chosen pair of neighbours fitting.
proof fn lemma_fit_kept(chunks0: Seq<Option<usize>>, chunks1: Seq<Option<usize>>, ps: Seq<Seq<TileType>>, cons: Seq<MapChunk>,
    nx: int, ny: int, c: int, k: usize)
    requires
        0 < nx,
        chunks0.len() == nx * ny,
        0 <= c < nx * ny,
        chunks1 == chunks0.update(c, Some(k)),
        ps.len() <= usize::MAX,
        cons.len() == ps.len(),
        forall|i: int, d: int| 0 <= i < cons.len() && 0 <= d < 4 ==> (#[trigger] cons[i].compatible_with@[d])@
            == compatible_upto(ps, i, CHUNK_SIZE as int, d, ps.len()),
        forall|q: int| 0 <= q < chunks0.len() ==> (#[trigger] chunks0[q] matches Some(t) ==> t < cons.len()),
        (k as int) < ps.len(),
        fits_all(neighbor_options(chunks0, cons, nx, ny, c % nx, c / nx), k),
        placed_fit(chunks0, ps, nx),
    ensures
        placed_fit(chunks1, ps, nx),
{
    reveal(placed_fit);
    lemma_fit_kept_across(chunks0, chunks1, ps, cons, nx, ny, c, k);
    lemma_fit_kept_down(chunks0, chunks1, ps, cons, nx, ny, c, k);
}

/// The side-by-side half of `lemma_fit_kept`.
#[verifier::rlimit(60)]
proof fn lemma_fit_kept_across(chunks0: Seq<Option<usize>>, chunks1: Seq<Option<usize>>, ps: Seq<Seq<TileType>>, cons: Seq<MapChunk>,
    nx: int, ny: int, c: int, k: usize)
    requires
        0 < nx,
        chunks0.len() == nx * ny,
        0 <= c < nx * ny,
        chunks1 == chunks0.update(c, Some(k)),
        ps.len() <= usize::MAX,
        cons.len() == ps.len(),
        forall|i: int, d: int| 0 <= i < cons.len() && 0 <= d < 4 ==> (#[trigger] cons[i].compatible_with@[d])@
            == compatible_upto(ps, i, CHUNK_SIZE as int, d, ps.len()),
        forall|q: int| 0 <= q < chunks0.len() ==> (#[trigger] chunks0[q] matches Some(t) ==> t < cons.len()),
        (k as int) < ps.len(),
        fits_all(neighbor_options(chunks0, cons, nx, ny, c % nx, c / nx), k),
        placed_fit(chunks0, ps, nx),
    ensures
        forall|a: int| 0 <= a && a + 1 < chunks1.len() && a % nx < nx - 1 && (#[trigger] chunks1[a]) is Some && chunks1[a + 1] is Some
            ==> fit_pair(ps[chunks1[a]->0 as int], ps[chunks1[a + 1]->0 as int], 3),
{
    reveal(placed_fit);
    reveal(fit_pair);
    let x = c % nx;
    let y = c / nx;
    let cs = CHUNK_SIZE as int;
    assert(c == y * nx + x && 0 <= x < nx && 0 <= y < ny) by (nonlinear_arith) requires 0 < nx, 0 <= c < nx * ny, x == c % nx, y == c / nx;
    lemma_fits_each(chunks0, cons, nx, ny, x, y, k);
    assert forall|a: int| 0 <= a && a + 1 < chunks1.len() && a % nx < nx - 1 && (#[trigger] chunks1[a]) is Some && chunks1[a + 1] is Some
        implies fit_pair(ps[chunks1[a]->0 as int], ps[chunks1[a + 1]->0 as int], 3) by {
        if a + 1 == c {
            lemma_left_in_row(c, nx, a);
            assert(x > 0 && a == y * nx + x - 1);
            let kl = chunks0[a]->0;
            assert(chunks0[a] is Some);
            lemma_compatible_upto_contains(ps, kl as int, cs, 3, ps.len(), k);
        } else if a == c {
            assert(x < nx - 1);
            assert(a + 1 == y * nx + x + 1);
            let kr = chunks0[a + 1]->0;
            lemma_compatible_upto_contains(ps, kr as int, cs, 2, ps.len(), k);
            lemma_compatibility_symmetric(ps[kr as int], ps[k as int], cs, 2);
        } else {
            assert(chunks1[a] == chunks0[a] && chunks1[a + 1] == chunks0[a + 1]);
        }
    }
}

/// The cell left of `c` is in the same row when its column is not the last.
proof fn lemma_left_in_row(c: int, nx: int, a: int)
    requires
        0 < nx,
        0 <= a,
        a + 1 == c,
        a % nx < nx - 1,
    ensures
        c % nx > 0,
        a == (c / nx) * nx + c % nx - 1,
{
    let q = a / nx;
    let r = a % nx;
    assert(a == q * nx + r && 0 <= r < nx) by (nonlinear_arith) requires 0 < nx, q == a / nx, r == a % nx;
    assert(c == q * nx + (r + 1));
    vstd::arithmetic::div_mod::lemma_fundamental_div_mod_converse(c, nx, q, r + 1);
}

/// The stacked half of `lemma_fit_kept`.
#[verifier::rlimit(60)]
proof fn lemma_fit_kept_down(chunks0: Seq<Option<usize>>, chunks1: Seq<Option<usize>>, ps: Seq<Seq<TileType>>, cons: Seq<MapChunk>,
    nx: int, ny: int, c: int, k: usize)
    requires
        0 < nx,
        chunks0.len() == nx * ny,
        0 <= c < nx * ny,
        chunks1 == chunks0.update(c, Some(k)),
        ps.len() <= usize::MAX,
        cons.len() == ps.len(),
        forall|i: int, d: int| 0 <= i < cons.len() && 0 <= d < 4 ==> (#[trigger] cons[i].compatible_with@[d])@
            == compatible_upto(ps, i, CHUNK_SIZE as int, d, ps.len()),
        forall|q: int| 0 <= q < chunks0.len() ==> (#[trigger] chunks0[q] matches Some(t) ==> t < cons.len()),
        (k as int) < ps.len(),
        fits_all(neighbor_options(chunks0, cons, nx, ny, c % nx, c / nx), k),
        placed_fit(chunks0, ps, nx),
    ensures
        forall|a: int| 0 <= a && a + nx < chunks1.len() && (#[trigger] chunks1[a]) is Some && chunks1[a + nx] is Some
            ==> fit_pair(ps[chunks1[a]->0 as int], ps[chunks1[a + nx]->0 as int], 1),
{
    reveal(placed_fit);
    reveal(fit_pair);
    let x = c % nx;
    let y = c / nx;
    let cs = CHUNK_SIZE as int;
    assert(c == y * nx + x && 0 <= x < nx && 0 <= y < ny) by (nonlinear_arith) requires 0 < nx, 0 <= c < nx * ny, x == c % nx, y == c / nx;
    lemma_fits_each(chunks0, cons, nx, ny, x, y, k);
    assert forall|a: int| 0 <= a && a + nx < chunks1.len() && (#[trigger] chunks1[a]) is Some && chunks1[a + nx] is Some
        implies fit_pair(ps[chunks1[a]->0 as int], ps[chunks1[a + nx]->0 as int], 1) by {
        if a + nx == c {
            assert(y > 0 && a == (y - 1) * nx + x) by (nonlinear_arith) requires a + nx == c, c == y * nx + x, 0 <= a, 0 <= x < nx;
            let ku = chunks0[a]->0;
            assert(chunks0[a] is Some);
            lemma_compatible_upto_contains(ps, ku as int, cs, 1, ps.len(), k);
        } else if a == c {
            assert(y < ny - 1 && a + nx == (y + 1) * nx + x) by (nonlinear_arith) requires a == c, c == y * nx + x, a + nx < nx * ny, 0 <= x < nx, 0 < nx;
            let kd = chunks0[a + nx]->0;
            lemma_compatible_upto_contains(ps, kd as int, cs, 0, ps.len(), k);
            lemma_compatibility_symmetric(ps[kd as int], ps[k as int], cs, 0);
        } else {
            assert(chunks1[a] == chunks0[a] && chunks1[a + nx] == chunks0[a + nx]);
        }
    }
}

/// One attempt at solving: steps the solver until it reports being done, keeping every
/// grid cell showing its chosen pattern (or what it showed), the chosen neighbours fitting,
/// and, when no pattern has an open edge slot, the solution possible.
#[verifier::rlimit(100)]
fn solve_attempt(solver: &mut Solver, build_data: &mut BuilderMap, rng: &mut bracket_lib::random::RandomNumberGenerator,
    constraints: &Vec<MapChunk>, w: i32, h: i32, Ghost(b0): Ghost<BuilderMap>, Ghost(ps): Ghost<Seq<Seq<TileType>>>,
    Ghost(nx): Ghost<int>, Ghost(ny): Ghost<int>)
    requires
        old(solver).possible,
        old(solver).wf(),
        old(solver).constraints@.len() == constraints@.len(),
        forall|k: int| 0 <= k < constraints@.len() ==> (#[trigger] old(solver).constraints@[k]).pattern@ == constraints@[k].pattern@,
        forall|k: int, d: int| 0 <= k < constraints@.len() && 0 <= d < 4 ==> (#[trigger] old(solver).constraints@[k].compatible_with@[d])@
        == compatible_upto(ps, k, CHUNK_SIZE as int, d, ps.len()),
        ps.len() == constraints@.len(),
        ps.len() <= usize::MAX,
        forall|k: int| 0 <= k < constraints@.len() ==> (#[trigger] constraints@[k]).pattern@ == ps[k],
        placed_fit(old(solver).chunks@, ps, nx),
        old(solver).chunk_size == CHUNK_SIZE,
        old(solver).chunks_x == nx,
        old(solver).chunks_y == ny,
        old(solver).remaining@.len() > 0 ==> old(solver).constraints@.len() > 0,
        old(build_data).wf(),
        old(build_data).width == b0.width,
        old(build_data).height == b0.height,
        old(build_data).map.depth == b0.map.depth,
        old(build_data).spawn_list == b0.spawn_list,
        old(build_data).starting_position == b0.starting_position,
        old(build_data).rooms == b0.rooms,
        old(build_data).corridors == b0.corridors,
        w == b0.width,
        h == b0.height,
        nx == w / CHUNK_SIZE,
        ny == h / CHUNK_SIZE,
        nx * CHUNK_SIZE <= w,
        ny * CHUNK_SIZE <= h,
        forall|k: int| 0 <= k < constraints@.len() ==> is_map_pattern(b0.map, CHUNK_SIZE as int, true, (#[trigger] constraints@[k]).pattern@),
        forall|c: int| 0 <= c < nx * ny ==> pattern_or_wall(b0.map, old(build_data).map, #[trigger] cell_x(c, w as int), cell_y(c, w as int)),
        forall|c: int| 0 <= c < nx * ny ==> (#[trigger] old(solver).chunks@[c] matches Some(k) ==>
        window_shows(old(build_data).map, CHUNK_SIZE as int, cell_x(c, w as int), cell_y(c, w as int), constraints@[k as int].pattern@)),
        forall|a: int, b: int| #![trigger old(build_data).map.tile(a, b)] old(build_data).map.on_map(a, b)
        && (a >= nx * CHUNK_SIZE || b >= ny * CHUNK_SIZE) ==> old(build_data).map.tile(a, b) == TileType::Wall,
    ensures
        final(solver).wf(),
        final(solver).constraints@.len() == constraints@.len(),
        forall|k: int| 0 <= k < constraints@.len() ==> (#[trigger] final(solver).constraints@[k]).pattern@ == constraints@[k].pattern@,
        forall|k: int, d: int| 0 <= k < constraints@.len() && 0 <= d < 4 ==> (#[trigger] final(solver).constraints@[k].compatible_with@[d])@
        == compatible_upto(ps, k, CHUNK_SIZE as int, d, ps.len()),
        placed_fit(final(solver).chunks@, ps, nx),
        final(solver).chunk_size == CHUNK_SIZE,
        final(solver).chunks_x == nx,
        final(solver).chunks_y == ny,
        final(solver).remaining@.len() > 0 ==> final(solver).constraints@.len() > 0,
        final(build_data).wf(),
        final(build_data).width == b0.width,
        final(build_data).height == b0.height,
        final(build_data).map.depth == b0.map.depth,
        final(build_data).spawn_list == b0.spawn_list,
        final(build_data).starting_position == b0.starting_position,
        final(build_data).rooms == b0.rooms,
        final(build_data).corridors == b0.corridors,
        forall|c: int| 0 <= c < nx * ny ==> pattern_or_wall(b0.map, final(build_data).map, #[trigger] cell_x(c, w as int), cell_y(c, w as int)),
        forall|c: int| 0 <= c < nx * ny ==> (#[trigger] final(solver).chunks@[c] matches Some(k) ==>
        window_shows(final(build_data).map, CHUNK_SIZE as int, cell_x(c, w as int), cell_y(c, w as int), constraints@[k as int].pattern@)),
        forall|a: int, b: int| #![trigger final(build_data).map.tile(a, b)] final(build_data).map.on_map(a, b)
        && (a >= nx * CHUNK_SIZE || b >= ny * CHUNK_SIZE) ==> final(build_data).map.tile(a, b) == TileType::Wall,
        final(solver).possible ==> final(solver).remaining@.len() == 0,
        no_exits(b0.map) ==> final(solver).possible,
{
    loop
        invariant_except_break
            solver.possible,
        invariant
            solver.wf(),
            solver.constraints@.len() == constraints@.len(),
            forall|k: int| 0 <= k < constraints@.len() ==> (#[trigger] solver.constraints@[k]).pattern@ == constraints@[k].pattern@,
            forall|k: int, d: int| 0 <= k < constraints@.len() && 0 <= d < 4 ==> (#[trigger] solver.constraints@[k].compatible_with@[d])@
                == compatible_upto(ps, k, CHUNK_SIZE as int, d, ps.len()),
            ps.len() == constraints@.len(),
            ps.len() <= usize::MAX,
            forall|k: int| 0 <= k < constraints@.len() ==> (#[trigger] constraints@[k]).pattern@ == ps[k],
            placed_fit(solver.chunks@, ps, nx),
            solver.chunk_size == CHUNK_SIZE,
            solver.chunks_x == nx,
            solver.chunks_y == ny,
            solver.remaining@.len() > 0 ==> solver.constraints@.len() > 0,
            build_data.wf(),
            build_data.width == b0.width,
            build_data.height == b0.height,
            build_data.map.depth == b0.map.depth,
            build_data.spawn_list == b0.spawn_list,
            build_data.starting_position == b0.starting_position,
            build_data.rooms == b0.rooms,
            build_data.corridors == b0.corridors,
            w == b0.width,
            h == b0.height,
            nx == w / CHUNK_SIZE,
            ny == h / CHUNK_SIZE,
            nx * CHUNK_SIZE <= w,
            ny * CHUNK_SIZE <= h,
            forall|k: int| 0 <= k < constraints@.len() ==> is_map_pattern(b0.map, CHUNK_SIZE as int, true, (#[trigger] constraints@[k]).pattern@),
            forall|c: int| 0 <= c < nx * ny ==> pattern_or_wall(b0.map, build_data.map, #[trigger] cell_x(c, w as int), cell_y(c, w as int)),
            forall|c: int| 0 <= c < nx * ny ==> (#[trigger] solver.chunks@[c] matches Some(k) ==>
                window_shows(build_data.map, CHUNK_SIZE as int, cell_x(c, w as int), cell_y(c, w as int), constraints@[k as int].pattern@)),
            forall|a: int, b: int| #![trigger build_data.map.tile(a, b)] build_data.map.on_map(a, b)
                && (a >= nx * CHUNK_SIZE || b >= ny * CHUNK_SIZE) ==> build_data.map.tile(a, b) == TileType::Wall,
        ensures
            solver.possible ==> solver.remaining@.len() == 0,
            no_exits(b0.map) ==> solver.possible,
        decreases solver.remaining@.len(),
    {
        let ghost s_before = *solver;
        let ghost m_before = build_data.map;
        let done = solver.iteration(&mut build_data.map, rng);
        proof {
            let mut cc: usize = 0;
            let mut kk: usize = 0;
            if s_before.remaining@.len() > 0 {
                let c = choose|c: usize| #![trigger open_cells(s_before.remaining@).contains(c)] {
                    let nx = s_before.chunks_x as int;
                    let cx = c as int % nx;
                    let cy = c as int / nx;
                    let opts = neighbor_options(s_before.chunks@, s_before.constraints@, nx, s_before.chunks_y as int, cx, cy);
                    &&& open_cells(s_before.remaining@).contains(c)
                    &&& open_cells(solver.remaining@).to_set() == open_cells(s_before.remaining@).to_set().remove(c)
                    &&& (exists|i: int| 0 <= i < s_before.remaining@.len() && s_before.cell_count(#[trigger] s_before.remaining@[i].0 as int) > 0)
                        ==> forall|i: int| 0 <= i < s_before.remaining@.len() ==> s_before.cell_count(#[trigger] s_before.remaining@[i].0 as int) <= s_before.cell_count(c as int)
                    &&& done == (opts.len() > 0 && fitting_count(opts, s_before.constraints@.len()) == 0)
                    &&& done ==> !solver.possible && solver.chunks == s_before.chunks && build_data.map == m_before
                    &&& !done ==> solver.possible && exists|k: usize| #![trigger s_before.constraints@[k as int]] {
                        &&& solver.chunks@ == s_before.chunks@.update(c as int, Some(k))
                        &&& k < s_before.constraints@.len()
                        &&& opts.len() > 0 ==> fits_all(opts, k)
                        &&& shows_pattern(m_before, build_data.map, s_before.constraints@[k as int].pattern@, s_before.chunk_size as int,
                            cx * s_before.chunk_size, cy * s_before.chunk_size)
                    }
                };
                if !done {
                let k = choose|k: usize| #![trigger s_before.constraints@[k as int]] {
                    &&& solver.chunks@ == s_before.chunks@.update(c as int, Some(k))
                    &&& k < s_before.constraints@.len()
                    &&& neighbor_options(s_before.chunks@, s_before.constraints@, s_before.chunks_x as int, s_before.chunks_y as int,
                            c as int % (s_before.chunks_x as int), c as int / (s_before.chunks_x as int)).len() > 0
                        ==> fits_all(neighbor_options(s_before.chunks@, s_before.constraints@, s_before.chunks_x as int, s_before.chunks_y as int,
                            c as int % (s_before.chunks_x as int), c as int / (s_before.chunks_x as int)), k)
                    &&& shows_pattern(m_before, build_data.map, s_before.constraints@[k as int].pattern@, s_before.chunk_size as int,
                        (c as int % (s_before.chunks_x as int)) * s_before.chunk_size, (c as int / (s_before.chunks_x as int)) * s_before.chunk_size)
                };
                let j = choose|j: int| 0 <= j < open_cells(s_before.remaining@).len() && open_cells(s_before.remaining@)[j] == c;
                assert(s_before.remaining@[j].0 == c);
                assert(solver.chunks@[c as int] == Some(k));
                assert(constraints@[k as int] == constraints@[k as int]);
                cc = c;
                kk = k;
                let opts = neighbor_options(s_before.chunks@, s_before.constraints@, nx, ny, c as int % nx, c as int / nx);
                if opts.len() == 0 {
                    assert(fits_all(opts, k));
                }
                lemma_fit_kept(s_before.chunks@, solver.chunks@, ps, s_before.constraints@, nx, ny, c as int, k);
                }
                if no_exits(b0.map) {
                    let j = choose|j: int| 0 <= j < open_cells(s_before.remaining@).len() && open_cells(s_before.remaining@)[j] == c;
                    assert(s_before.remaining@[j].0 == c);
                    let cons = s_before.constraints@;
                    assert forall|i: int, d: int| 0 <= i < cons.len() && 0 <= d < 4 implies (#[trigger] cons[i].compatible_with@[d])@.contains(0usize) by {
                        assert(is_map_pattern(b0.map, CHUNK_SIZE as int, true, constraints@[i].pattern@));
                        assert(!pattern_has_exits(ps[i], CHUNK_SIZE as int));
                        lemma_compatible_upto_contains(ps, i, CHUNK_SIZE as int, d, ps.len(), 0usize);
                    }
                    lemma_cell_in_grid(c as int, nx, ny);
                    lemma_all_lists_hold(s_before.chunks@, cons, nx, ny, c as int % nx, c as int / nx, 0usize);
                    lemma_fitting_positive(neighbor_options(s_before.chunks@, cons, nx, ny, c as int % nx, c as int / nx), 0usize, cons.len());
                    assert(!done);
                }
            }
            assert(s_before.chunks_x > 0 || s_before.chunks@.len() == 0) by {
                if s_before.chunks_x == 0 {
                    assert(s_before.chunks@.len() == 0) by (nonlinear_arith)
                        requires s_before.chunks@.len() == s_before.chunks_x * s_before.chunks_y, s_before.chunks_x == 0;
                }
            }
            lemma_iteration_keeps_cells(b0.map, s_before, *solver, m_before, build_data.map, done, constraints@, w as int, cc, kk);
        }
        if done {
            break;
        }
        build_data.take_snapshot();
    }
}

/// The column of grid cell `c` on a map `w` wide.
pub open spec fn cell_x(c: int, w: int) -> int {
    c % (w / CHUNK_SIZE as int)
}

/// The row of grid cell `c` on a map `w` wide.
pub open spec fn cell_y(c: int, w: int) -> int {
    c / (w / CHUNK_SIZE as int)
}

/// The square of grid cell `(qx, qy)` of `m` is all wall or shows a pattern cut from `src`.
pub open spec fn pattern_or_wall(src: GameMap, m: GameMap, qx: int, qy: int) -> bool {
    ||| window_walled(m, CHUNK_SIZE as int, qx, qy)
    ||| exists|p: Seq<TileType>| #[trigger] is_map_pattern(src, CHUNK_SIZE as int, true, p) && window_shows(m, CHUNK_SIZE as int, qx, qy, p)
}

/// The chunk indices allowed on a side lie below the number of patterns.
proof fn lemma_compatible_bound(ps: Seq<Seq<TileType>>, i: int, cs: int, dir: int, k: nat)
    ensures
        forall|j: int| 0 <= j < compatible_upto(ps, i, cs, dir, k).len() ==> #[trigger] compatible_upto(ps, i, cs, dir, k)[j] < k,
    decreases k,
{
    if k > 0 {
        lemma_compatible_bound(ps, i, cs, dir, (k - 1) as nat);
        let prev = compatible_upto(ps, i, cs, dir, (k - 1) as nat);
        let cur = compatible_upto(ps, i, cs, dir, k);
        assert forall|j: int| 0 <= j < cur.len() implies #[trigger] cur[j] < k by {
            if j < prev.len() {
                assert(cur[j] == prev[j]);
            }
        }
    }
}

/// A tile of the square of grid cell `d` is untouched by drawing the square of another
/// cell `c`.
proof fn lemma_other_window(nx: int, c: int, d: int, tx: int, ty: int)
    requires
        0 < nx,
        0 <= c,
        0 <= d,
        c != d,
        0 <= tx < CHUNK_SIZE,
        0 <= ty < CHUNK_SIZE,
    ensures
        !((c % nx) * CHUNK_SIZE <= (d % nx) * CHUNK_SIZE + tx < (c % nx) * CHUNK_SIZE + CHUNK_SIZE
            && (c / nx) * CHUNK_SIZE <= (d / nx) * CHUNK_SIZE + ty < (c / nx) * CHUNK_SIZE + CHUNK_SIZE),
{
    if (c % nx) * CHUNK_SIZE <= (d % nx) * CHUNK_SIZE + tx < (c % nx) * CHUNK_SIZE + CHUNK_SIZE
        && (c / nx) * CHUNK_SIZE <= (d / nx) * CHUNK_SIZE + ty < (c / nx) * CHUNK_SIZE + CHUNK_SIZE {
        lemma_cell_of_tile(nx, CHUNK_SIZE as int, d, tx, ty, c);
    }
}

/// One solver step keeps every square of the chunk grid showing its chosen pattern, or
/// all wall or some pattern cut from the source, and keeps the tiles outside the grid.
proof fn lemma_iteration_keeps_cells(src: GameMap, s0: Solver, s1: Solver, m0: GameMap, m1: GameMap, done: bool,
    cons: Seq<MapChunk>, w: int, c: usize, k: usize)
    requires
        s0.wf(),
        s0.chunk_size == CHUNK_SIZE,
        s0.chunks_x == w / CHUNK_SIZE as int,
        s0.chunks_x > 0 || s0.chunks@.len() == 0,
        s1.constraints == s0.constraints,
        s1.chunks_x == s0.chunks_x,
        s1.chunks_y == s0.chunks_y,
        s1.chunk_size == s0.chunk_size,
        m0.wf(),
        m1.wf(),
        m1.same_frame(m0),
        (s0.chunks_x as int) * CHUNK_SIZE <= m0.width,
        (s0.chunks_y as int) * CHUNK_SIZE <= m0.height,
        s0.constraints@.len() == cons.len(),
        forall|k: int| 0 <= k < cons.len() ==> (#[trigger] s0.constraints@[k]).pattern@ == cons[k].pattern@,
        forall|k: int| 0 <= k < cons.len() ==> is_map_pattern(src, CHUNK_SIZE as int, true, (#[trigger] cons[k]).pattern@),
        forall|c: int| 0 <= c < s0.chunks@.len() ==> pattern_or_wall(src, m0, #[trigger] cell_x(c, w), cell_y(c, w)),
        forall|c: int| 0 <= c < s0.chunks@.len() ==> (#[trigger] s0.chunks@[c] matches Some(k) ==>
            window_shows(m0, CHUNK_SIZE as int, cell_x(c, w), cell_y(c, w), cons[k as int].pattern@)),
        done ==> s1.chunks == s0.chunks && m1 == m0,
        !done ==> {
            &&& (c as int) < s0.chunks@.len()
            &&& (k as int) < cons.len()
            &&& s1.chunks@ == s0.chunks@.update(c as int, Some(k))
            &&& shows_pattern(m0, m1, cons[k as int].pattern@, CHUNK_SIZE as int,
                (c as int % (s0.chunks_x as int)) * CHUNK_SIZE, (c as int / (s0.chunks_x as int)) * CHUNK_SIZE)
        },
    ensures
        forall|c: int| 0 <= c < s1.chunks@.len() ==> pattern_or_wall(src, m1, #[trigger] cell_x(c, w), cell_y(c, w)),
        forall|c: int| 0 <= c < s1.chunks@.len() ==> (#[trigger] s1.chunks@[c] matches Some(k) ==>
            window_shows(m1, CHUNK_SIZE as int, cell_x(c, w), cell_y(c, w), cons[k as int].pattern@)),
        forall|a: int, b: int| #![trigger m1.tile(a, b)] m1.on_map(a, b)
            && (a >= (s0.chunks_x as int) * CHUNK_SIZE || b >= (s0.chunks_y as int) * CHUNK_SIZE) ==> m1.tile(a, b) == m0.tile(a, b),
{
    if !done {
        let nx = s0.chunks_x as int;
        let ny = s0.chunks_y as int;
        let cs = CHUNK_SIZE as int;
        assert(nx > 0) by {
            if nx == 0 {
                assert(s0.chunks@.len() == 0) by (nonlinear_arith) requires s0.chunks@.len() == nx * ny, nx == 0;
            }
        }
        let p = cons[k as int].pattern@;
        assert((c as int) < s0.chunks@.len());
        assert(s0.chunks@.len() == nx * ny);
        assert((c as int) < nx * ny);
        assert(c as int % nx < nx && c as int / nx < ny) by (nonlinear_arith)
            requires 0 <= c < nx * ny, 0 < nx;
        assert((c as int % nx) * cs + cs <= nx * cs && (c as int / nx) * cs + cs <= ny * cs) by (nonlinear_arith)
            requires c as int % nx < nx, c as int / nx < ny, 0 < cs, 0 <= c as int % nx, 0 <= c as int / nx;
        assert(window_shows(m1, cs, cell_x(c as int, w), cell_y(c as int, w), p)) by {
            assert forall|tx: int, ty: int| 0 <= tx < cs && 0 <= ty < cs implies
                #[trigger] m1.tile(cell_x(c as int, w) * cs + tx, cell_y(c as int, w) * cs + ty) == p[ty * cs + tx] by {
                let a = cell_x(c as int, w) * cs + tx;
                let b = cell_y(c as int, w) * cs + ty;
                assert(0 <= a < nx * cs && 0 <= b < ny * cs) by (nonlinear_arith)
                    requires a == (c as int % nx) * cs + tx, b == (c as int / nx) * cs + ty, 0 <= tx < cs, 0 <= ty < cs,
                        (c as int % nx) * cs + cs <= nx * cs, (c as int / nx) * cs + cs <= ny * cs, 0 <= c as int % nx, 0 <= c as int / nx;
            }
        }
        assert forall|d: int, tx: int, ty: int| 0 <= d < s1.chunks@.len() && d != c && 0 <= tx < cs && 0 <= ty < cs implies
            #[trigger] m1.tile(cell_x(d, w) * cs + tx, cell_y(d, w) * cs + ty) == m0.tile(cell_x(d, w) * cs + tx, cell_y(d, w) * cs + ty) by {
            lemma_other_window(nx, c as int, d, tx, ty);
            lemma_cell_in_grid(d, nx, ny);
            let a = cell_x(d, w) * cs + tx;
            let b = cell_y(d, w) * cs + ty;
            assert(0 <= a < nx * cs && 0 <= b < ny * cs) by (nonlinear_arith)
                requires a == (d % nx) * cs + tx, b == (d / nx) * cs + ty, 0 <= tx < cs, 0 <= ty < cs,
                    0 <= d % nx < nx, 0 <= d / nx < ny, 0 < cs;
            assert(m1.on_map(a, b));
            assert(m1.tile(a, b) == m0.tile(a, b));
        }
        assert forall|d: int| 0 <= d < s1.chunks@.len() implies pattern_or_wall(src, m1, #[trigger] cell_x(d, w), cell_y(d, w)) by {
            if d == c {
                assert(is_map_pattern(src, cs, true, p));
            } else {
                assert(pattern_or_wall(src, m0, cell_x(d, w), cell_y(d, w)));
                if window_walled(m0, cs, cell_x(d, w), cell_y(d, w)) {
                    assert forall|tx: int, ty: int| 0 <= tx < cs && 0 <= ty < cs implies
                        #[trigger] m1.tile(cell_x(d, w) * cs + tx, cell_y(d, w) * cs + ty) == TileType::Wall by {
                        assert(m1.tile(cell_x(d, w) * cs + tx, cell_y(d, w) * cs + ty) == m0.tile(cell_x(d, w) * cs + tx, cell_y(d, w) * cs + ty));
                    }
                } else {
                    let q = choose|q: Seq<TileType>| #[trigger] is_map_pattern(src, cs, true, q) && window_shows(m0, cs, cell_x(d, w), cell_y(d, w), q);
                    assert forall|tx: int, ty: int| 0 <= tx < cs && 0 <= ty < cs implies
                        #[trigger] m1.tile(cell_x(d, w) * cs + tx, cell_y(d, w) * cs + ty) == q[ty * cs + tx] by {
                        assert(m1.tile(cell_x(d, w) * cs + tx, cell_y(d, w) * cs + ty) == m0.tile(cell_x(d, w) * cs + tx, cell_y(d, w) * cs + ty));
                    }
                    assert(window_shows(m1, cs, cell_x(d, w), cell_y(d, w), q));
                }
            }
        }
        assert forall|d: int| 0 <= d < s1.chunks@.len() implies (#[trigger] s1.chunks@[d] matches Some(kk) ==>
            window_shows(m1, cs, cell_x(d, w), cell_y(d, w), cons[kk as int].pattern@)) by {
            if d == c as int {
                assert(s1.chunks@[d] == Some(k));
            }
            if d != c {
                if let Some(kk) = s1.chunks@[d] {
                    assert(s0.chunks@[d] == Some(kk));
                    assert forall|tx: int, ty: int| 0 <= tx < cs && 0 <= ty < cs implies
                        #[trigger] m1.tile(cell_x(d, w) * cs + tx, cell_y(d, w) * cs + ty) == cons[kk as int].pattern@[ty * cs + tx] by {
                        assert(m1.tile(cell_x(d, w) * cs + tx, cell_y(d, w) * cs + ty) == m0.tile(cell_x(d, w) * cs + tx, cell_y(d, w) * cs + ty));
                    }
                }
            }
        }
        assert forall|a: int, b: int| #![trigger m1.tile(a, b)] m1.on_map(a, b)
            && (a >= nx * cs || b >= ny * cs) implies m1.tile(a, b) == m0.tile(a, b) by {
            assert(!((c as int % nx) * cs <= a < (c as int % nx) * cs + cs && (c as int / nx) * cs <= b < (c as int / nx) * cs + cs));
        }
    }
}

/// Grid cell `c` of an `nx` by `ny` grid lies on the grid.
proof fn lemma_cell_in_grid(c: int, nx: int, ny: int)
    requires
        0 <= c < nx * ny,
        0 <= nx,
        0 <= ny,
    ensures
        0 < nx,
        0 <= c % nx < nx,
        0 <= c / nx < ny,
{
    assert(0 < nx) by (nonlinear_arith) requires 0 <= c < nx * ny, nx >= 0, ny >= 0;
    assert(0 <= c % nx < nx && 0 <= c / nx < ny) by (nonlinear_arith) requires 0 <= c < nx * ny, 0 < nx;
}

/// On an all-wall map, every square of the chunk grid is all wall.
proof fn lemma_fresh_walled(m: GameMap, nx: int, ny: int)
    requires
        m.wf(),
        nx * CHUNK_SIZE <= m.width,
        ny * CHUNK_SIZE <= m.height,
        forall|x: int, y: int| m.on_map(x, y) ==> #[trigger] m.tile(x, y) == TileType::Wall,
    ensures
        forall|qx: int, qy: int| 0 <= qx < nx && 0 <= qy < ny ==> #[trigger] window_walled(m, CHUNK_SIZE as int, qx, qy),
{
    assert forall|qx: int, qy: int| 0 <= qx < nx && 0 <= qy < ny implies #[trigger] window_walled(m, CHUNK_SIZE as int, qx, qy) by {
        assert forall|tx: int, ty: int| 0 <= tx < CHUNK_SIZE && 0 <= ty < CHUNK_SIZE implies
            #[trigger] m.tile(qx * CHUNK_SIZE + tx, qy * CHUNK_SIZE + ty) == TileType::Wall by {
            assert(0 <= qx * CHUNK_SIZE + tx < m.width && 0 <= qy * CHUNK_SIZE + ty < m.height) by (nonlinear_arith)
                requires 0 <= qx < nx, 0 <= qy < ny, 0 <= tx < 8, 0 <= ty < 8, nx * 8 <= m.width, ny * 8 <= m.height;
        }
    }
}

} // verus!
