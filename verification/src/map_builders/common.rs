use vstd::prelude::*;

use crate::map::{GameMap, TileType};
use crate::rect::Rect;

verus! {

/// `(x, y)` lies inside `room`, not on its top or left edge.
pub open spec fn in_room_interior(room: Rect, x: int, y: int) -> bool {
    room.x1 + 1 <= x <= room.x2 && room.y1 + 1 <= y <= room.y2
}

/// Every tile of `new` is floor where `carved` holds and as in `old` elsewhere.
pub open spec fn carved_floor(old: GameMap, new: GameMap, carved: spec_fn(int, int) -> bool) -> bool {
    forall|x: int, y: int| #![trigger new.tile(x, y)]
        new.on_map(x, y) ==> new.tile(x, y) == if carved(x, y) { TileType::Floor } else { old.tile(x, y) }
}

/// Floors the inside of `room`, leaving its top and left edge as they were.
pub fn apply_room_to_map(map: &mut GameMap, room: &Rect)
    requires
        old(map).wf(),
        room.wf(),
        room.x2 < old(map).width,
        room.y2 < old(map).height,
    ensures
        final(map).wf(),
        final(map).same_frame(*old(map)),
        carved_floor(*old(map), *final(map), |x: int, y: int| in_room_interior(*room, x, y)),
{
    let ghost m0 = *map;
    let mut x = room.x1 + 1;
    while x <= room.x2
        invariant
            map.wf(),
            map.same_frame(m0),
            room.wf(),
            room.x2 < map.width,
            room.y2 < map.height,
            room.x1 + 1 <= x <= room.x2 + 1,
            forall|a: int, b: int| #![trigger map.tile(a, b)]
                map.on_map(a, b) ==> map.tile(a, b) == if room.x1 + 1 <= a < x && room.y1 + 1 <= b <= room.y2 {
                    TileType::Floor
                } else {
                    m0.tile(a, b)
                },
        decreases room.x2 + 1 - x,
    {
        let mut y = room.y1 + 1;
        while y <= room.y2
            invariant
                map.wf(),
                map.same_frame(m0),
                room.wf(),
                room.x2 < map.width,
                room.y2 < map.height,
                room.x1 + 1 <= x <= room.x2,
                room.y1 + 1 <= y <= room.y2 + 1,
                forall|a: int, b: int| #![trigger map.tile(a, b)]
                    map.on_map(a, b) ==> map.tile(a, b) == if (room.x1 + 1 <= a < x && room.y1 + 1 <= b <= room.y2)
                        || (a == x && room.y1 + 1 <= b < y) {
                        TileType::Floor
                    } else {
                        m0.tile(a, b)
                    },
            decreases room.y2 + 1 - y,
        {
            map.set_tile(x as usize, y as usize, TileType::Floor);
            y = y + 1;
        }
        x = x + 1;
    }
}

/// `(x, y)` is strictly inside the first row and column and on a `w` by `h` map.
pub open spec fn in_bounds_wh(w: int, h: int, x: int, y: int) -> bool {
    x > 0 && x < w && y > 0 && y < h
}

/// The tiles a horizontal tunnel floors along row `y`, over the `n` columns from `lo`.
pub open spec fn h_tunnel(lo: int, n: nat, y: int, w: int, h: int) -> Seq<(usize, usize)>
    decreases n,
{
    if n == 0 {
        Seq::empty()
    } else {
        let prev = h_tunnel(lo, (n - 1) as nat, y, w, h);
        let x = lo + n - 1;
        if in_bounds_wh(w, h, x, y) { prev.push((x as usize, y as usize)) } else { prev }
    }
}

/// The tiles a vertical tunnel floors along column `x`, over the `n` rows from `lo`.
pub open spec fn v_tunnel(lo: int, n: nat, x: int, w: int, h: int) -> Seq<(usize, usize)>
    decreases n,
{
    if n == 0 {
        Seq::empty()
    } else {
        let prev = v_tunnel(lo, (n - 1) as nat, x, w, h);
        let y = lo + n - 1;
        if in_bounds_wh(w, h, x, y) { prev.push((x as usize, y as usize)) } else { prev }
    }
}

/// The smaller of two integers.
pub open spec fn min_i(a: int, b: int) -> int {
    if a <= b { a } else { b }
}

/// The larger of two integers.
pub open spec fn max_i(a: int, b: int) -> int {
    if a >= b { a } else { b }
}

/// A tile list holds `(a, b)`.
pub open spec fn has_cell(cells: Seq<(usize, usize)>, a: int, b: int) -> bool {
    cells.contains((a as usize, b as usize))
}

/// Cells pushed onto a tile list are all on a `w` by `h` map.
pub open spec fn cells_on_map(cells: Seq<(usize, usize)>, w: int, h: int) -> bool {
    forall|i: int| 0 <= i < cells.len() ==> (#[trigger] cells[i]).0 < w && cells[i].1 < h
}

/// A horizontal tunnel over the `n` columns from `lo` floors exactly the tiles of row `y`
/// in those columns that lie on the map but off its first row and column, and nothing else.
pub proof fn lemma_h_tunnel_facts(lo: int, n: nat, y: int, w: int, h: int)
    requires
        0 < w <= i32::MAX,
        0 < h <= i32::MAX,
    ensures
        cells_on_map(h_tunnel(lo, n, y, w, h), w, h),
        forall|a: int, b: int| #![trigger has_cell(h_tunnel(lo, n, y, w, h), a, b)] 0 <= a < w && 0 <= b < h ==> (has_cell(h_tunnel(lo, n, y, w, h), a, b)
            <==> (b == y && lo <= a < lo + n && in_bounds_wh(w, h, a, b))),
    decreases n,
{
    if n > 0 {
        lemma_h_tunnel_facts(lo, (n - 1) as nat, y, w, h);
        let prev = h_tunnel(lo, (n - 1) as nat, y, w, h);
        let x = lo + n - 1;
        if in_bounds_wh(w, h, x, y) {
            let cur = prev.push((x as usize, y as usize));
            assert forall|a: int, b: int| 0 <= a < w && 0 <= b < h implies (has_cell(cur, a, b)
                <==> (b == y && lo <= a < lo + n && in_bounds_wh(w, h, a, b))) by {
                if has_cell(cur, a, b) && !has_cell(prev, a, b) {
                    let k = choose|k: int| 0 <= k < cur.len() && cur[k] == (a as usize, b as usize);
                    if k < prev.len() {
                        assert(prev[k] == cur[k]);
                        assert(false);
                    }
                    assert(k == prev.len());
                    assert((a as usize, b as usize) == (x as usize, y as usize));
                    assert(a as usize == x as usize);
                    assert(a == x);
                    assert(b == y);
                }
                if b == y && a == x {
                    assert(cur[prev.len() as int] == (a as usize, b as usize));
                }
                if has_cell(prev, a, b) {
                    assert(b == y && lo <= a < lo + n - 1 && in_bounds_wh(w, h, a, b));
                    let k = choose|k: int| 0 <= k < prev.len() && prev[k] == (a as usize, b as usize);
                    assert(cur[k] == prev[k]);
                }
                if b == y && lo <= a < lo + n - 1 && in_bounds_wh(w, h, a, b) {
                    assert(has_cell(prev, a, b));
                }
            }
            assert forall|i: int| 0 <= i < cur.len() implies (#[trigger] cur[i]).0 < w && cur[i].1 < h by {
                if i < prev.len() {
                    assert(cur[i] == prev[i]);
                }
            }
        } else {
            assert forall|a: int, b: int| 0 <= a < w && 0 <= b < h implies (has_cell(prev, a, b)
                <==> (b == y && lo <= a < lo + n && in_bounds_wh(w, h, a, b))) by {
                if has_cell(prev, a, b) {
                    assert(b == y && lo <= a < lo + n - 1 && in_bounds_wh(w, h, a, b));
                }
                if b == y && lo <= a < lo + n - 1 && in_bounds_wh(w, h, a, b) {
                    assert(has_cell(prev, a, b));
                }
            }
        }
    }
}

/// A vertical tunnel over the `n` rows from `lo` floors exactly the tiles of column `x`
/// in those rows that lie on the map but off its first row and column, and nothing else.
pub proof fn lemma_v_tunnel_facts(lo: int, n: nat, x: int, w: int, h: int)
    requires
        0 < w <= i32::MAX,
        0 < h <= i32::MAX,
    ensures
        cells_on_map(v_tunnel(lo, n, x, w, h), w, h),
        forall|a: int, b: int| #![trigger has_cell(v_tunnel(lo, n, x, w, h), a, b)] 0 <= a < w && 0 <= b < h ==> (has_cell(v_tunnel(lo, n, x, w, h), a, b)
            <==> (a == x && lo <= b < lo + n && in_bounds_wh(w, h, a, b))),
    decreases n,
{
    if n > 0 {
        lemma_v_tunnel_facts(lo, (n - 1) as nat, x, w, h);
        let prev = v_tunnel(lo, (n - 1) as nat, x, w, h);
        let y = lo + n - 1;
        if in_bounds_wh(w, h, x, y) {
            let cur = prev.push((x as usize, y as usize));
            assert forall|a: int, b: int| 0 <= a < w && 0 <= b < h implies (has_cell(cur, a, b)
                <==> (a == x && lo <= b < lo + n && in_bounds_wh(w, h, a, b))) by {
                if has_cell(cur, a, b) && !has_cell(prev, a, b) {
                    let k = choose|k: int| 0 <= k < cur.len() && cur[k] == (a as usize, b as usize);
                    assert(k == prev.len());
                }
                if a == x && b == y {
                    assert(cur[prev.len() as int] == (a as usize, b as usize));
                }
                if has_cell(prev, a, b) {
                    assert(a == x && lo <= b < lo + n - 1 && in_bounds_wh(w, h, a, b));
                    let k = choose|k: int| 0 <= k < prev.len() && prev[k] == (a as usize, b as usize);
                    assert(cur[k] == prev[k]);
                }
                if a == x && lo <= b < lo + n - 1 && in_bounds_wh(w, h, a, b) {
                    assert(has_cell(prev, a, b));
                }
            }
            assert forall|i: int| 0 <= i < cur.len() implies (#[trigger] cur[i]).0 < w && cur[i].1 < h by {
                if i < prev.len() {
                    assert(cur[i] == prev[i]);
                }
            }
        } else {
            assert forall|a: int, b: int| 0 <= a < w && 0 <= b < h implies (has_cell(prev, a, b)
                <==> (a == x && lo <= b < lo + n && in_bounds_wh(w, h, a, b))) by {
                if has_cell(prev, a, b) {
                    assert(a == x && lo <= b < lo + n - 1 && in_bounds_wh(w, h, a, b));
                }
                if a == x && lo <= b < lo + n - 1 && in_bounds_wh(w, h, a, b) {
                    assert(has_cell(prev, a, b));
                }
            }
        }
    }
}

/// Floors row `y` from `x1` to `x2` (either way round), skipping tiles out of bounds,
/// and returns the tiles it floored, left to right.
pub fn apply_horizontal_tunnel(map: &mut GameMap, x1: i32, x2: i32, y: i32) -> (corridor: Vec<(usize, usize)>)
    requires
        old(map).wf(),
        -1_000_000 <= x1 <= 1_000_000,
        -1_000_000 <= x2 <= 1_000_000,
    ensures
        final(map).wf(),
        final(map).same_frame(*old(map)),
        corridor@ == h_tunnel(min_i(x1 as int, x2 as int), (max_i(x1 as int, x2 as int) - min_i(x1 as int, x2 as int) + 1) as nat, y as int, old(map).width as int, old(map).height as int),
        cells_on_map(corridor@, old(map).width as int, old(map).height as int),
        carved_floor(*old(map), *final(map), |a: int, b: int| has_cell(corridor@, a, b)),
{
    let ghost m0 = *map;
    let lo = if x1 <= x2 { x1 } else { x2 };
    let hi = if x1 <= x2 { x2 } else { x1 };
    let mut corridor: Vec<(usize, usize)> = Vec::new();
    let mut x = lo;
    while x <= hi
        invariant
            map.wf(),
            map.same_frame(m0),
            lo <= x <= hi + 1,
            -1_000_000 <= lo <= hi <= 1_000_000,
            corridor@ == h_tunnel(lo as int, (x - lo) as nat, y as int, m0.width as int, m0.height as int),
            forall|a: int, b: int| #![trigger map.tile(a, b)]
                map.on_map(a, b) ==> map.tile(a, b) == if has_cell(corridor@, a, b) { TileType::Floor } else { m0.tile(a, b) },
        decreases hi + 1 - x,
    {
        proof {
            lemma_h_tunnel_facts(lo as int, (x - lo) as nat, y as int, m0.width as int, m0.height as int);
            lemma_h_tunnel_facts(lo as int, (x + 1 - lo) as nat, y as int, m0.width as int, m0.height as int);
        }
        if map.is_tile_in_bounds(x, y) {
            map.set_tile(x as usize, y as usize, TileType::Floor);
            corridor.push((x as usize, y as usize));
        }
        x = x + 1;
    }
    proof {
        lemma_h_tunnel_facts(lo as int, (x - lo) as nat, y as int, m0.width as int, m0.height as int);
    }
    corridor
}

/// Floors column `x` from `y1` to `y2` (either way round), skipping tiles out of bounds,
/// and returns the tiles it floored, top to bottom.
pub fn apply_vertical_tunnel(map: &mut GameMap, y1: i32, y2: i32, x: i32) -> (corridor: Vec<(usize, usize)>)
    requires
        old(map).wf(),
        -1_000_000 <= y1 <= 1_000_000,
        -1_000_000 <= y2 <= 1_000_000,
    ensures
        final(map).wf(),
        final(map).same_frame(*old(map)),
        corridor@ == v_tunnel(min_i(y1 as int, y2 as int), (max_i(y1 as int, y2 as int) - min_i(y1 as int, y2 as int) + 1) as nat, x as int, old(map).width as int, old(map).height as int),
        cells_on_map(corridor@, old(map).width as int, old(map).height as int),
        carved_floor(*old(map), *final(map), |a: int, b: int| has_cell(corridor@, a, b)),
{
    let ghost m0 = *map;
    let lo = if y1 <= y2 { y1 } else { y2 };
    let hi = if y1 <= y2 { y2 } else { y1 };
    let mut corridor: Vec<(usize, usize)> = Vec::new();
    let mut y = lo;
    while y <= hi
        invariant
            map.wf(),
            map.same_frame(m0),
            lo <= y <= hi + 1,
            -1_000_000 <= lo <= hi <= 1_000_000,
            corridor@ == v_tunnel(lo as int, (y - lo) as nat, x as int, m0.width as int, m0.height as int),
            forall|a: int, b: int| #![trigger map.tile(a, b)]
                map.on_map(a, b) ==> map.tile(a, b) == if has_cell(corridor@, a, b) { TileType::Floor } else { m0.tile(a, b) },
        decreases hi + 1 - y,
    {
        proof {
            lemma_v_tunnel_facts(lo as int, (y - lo) as nat, x as int, m0.width as int, m0.height as int);
            lemma_v_tunnel_facts(lo as int, (y + 1 - lo) as nat, x as int, m0.width as int, m0.height as int);
        }
        if map.is_tile_in_bounds(x, y) {
            map.set_tile(x as usize, y as usize, TileType::Floor);
            corridor.push((x as usize, y as usize));
        }
        y = y + 1;
    }
    proof {
        lemma_v_tunnel_facts(lo as int, (y - lo) as nat, x as int, m0.width as int, m0.height as int);
    }
    corridor
}

/// One step of a corridor walk towards `(x2, y2)`: along x first, then along y.
pub open spec fn corridor_step(x: int, y: int, x2: int, y2: int) -> (int, int) {
    if x < x2 { (x + 1, y) }
    else if x > x2 { (x - 1, y) }
    else if y < y2 { (x, y + 1) }
    else if y > y2 { (x, y - 1) }
    else { (x, y) }
}

/// The distance still to walk.
pub open spec fn walk_len(x: int, y: int, x2: int, y2: int) -> nat {
    ((if x >= x2 { x - x2 } else { x2 - x }) + (if y >= y2 { y - y2 } else { y2 - y })) as nat
}

/// The tiles a corridor floors walking from `(x, y)` to `(x2, y2)`: every tile stepped
/// onto, in order, not the one it starts on.
pub open spec fn corridor_path(x: int, y: int, x2: int, y2: int) -> Seq<(usize, usize)>
    decreases walk_len(x, y, x2, y2),
{
    if x == x2 && y == y2 {
        Seq::empty()
    } else {
        let (nx, ny) = corridor_step(x, y, x2, y2);
        seq![(nx as usize, ny as usize)] + corridor_path(nx, ny, x2, y2)
    }
}

/// A corridor from `(x, y)` to `(x2, y2)` is an L: it walks one tile at a time along its
/// row to column `x2`, then one tile at a time along that column to row `y2`, and so has
/// as many tiles as the two distances added (the start not among them, the end last).
pub proof fn lemma_corridor_is_an_l(x: int, y: int, x2: int, y2: int)
    ensures
        corridor_path(x, y, x2, y2).len() == abs_i(x2 - x) + abs_i(y2 - y),
        forall|i: int| 0 <= i < abs_i(x2 - x) ==> #[trigger] corridor_path(x, y, x2, y2)[i]
            == ((if x <= x2 { x + i + 1 } else { x - i - 1 }) as usize, y as usize),
        forall|i: int| abs_i(x2 - x) <= i < abs_i(x2 - x) + abs_i(y2 - y) ==> #[trigger] corridor_path(x, y, x2, y2)[i]
            == (x2 as usize, (if y <= y2 { y + (i - abs_i(x2 - x)) + 1 } else { y - (i - abs_i(x2 - x)) - 1 }) as usize),
    decreases walk_len(x, y, x2, y2),
{
    if x == x2 && y == y2 {
    } else {
        let (nx, ny) = corridor_step(x, y, x2, y2);
        lemma_corridor_is_an_l(nx, ny, x2, y2);
        let p = corridor_path(x, y, x2, y2);
        let q = corridor_path(nx, ny, x2, y2);
        assert(p == seq![(nx as usize, ny as usize)] + q);
        assert forall|i: int| 0 < i < p.len() implies p[i] == q[i - 1] by {}
    }
}

/// Walks from `(x1, y1)` to `(x2, y2)`, first along x then along y, flooring every tile
/// stepped onto, and returns those tiles in order.
pub fn draw_corridor(map: &mut GameMap, x1: i32, y1: i32, x2: i32, y2: i32) -> (corridor: Vec<(usize, usize)>)
    requires
        old(map).wf(),
        old(map).on_map(x1 as int, y1 as int),
        old(map).on_map(x2 as int, y2 as int),
    ensures
        final(map).wf(),
        final(map).same_frame(*old(map)),
        corridor@ == corridor_path(x1 as int, y1 as int, x2 as int, y2 as int),
        cells_on_map(corridor@, old(map).width as int, old(map).height as int),
        carved_floor(*old(map), *final(map), |a: int, b: int| has_cell(corridor@, a, b)),
{
    let ghost m0 = *map;
    let mut x = x1;
    let mut y = y1;
    let mut corridor: Vec<(usize, usize)> = Vec::new();
    while x != x2 || y != y2
        invariant
            map.wf(),
            map.same_frame(m0),
            m0.on_map(x2 as int, y2 as int),
            min_i(x1 as int, x2 as int) <= x <= max_i(x1 as int, x2 as int),
            min_i(y1 as int, y2 as int) <= y <= max_i(y1 as int, y2 as int),
            m0.on_map(x1 as int, y1 as int),
            corridor@ + corridor_path(x as int, y as int, x2 as int, y2 as int) == corridor_path(x1 as int, y1 as int, x2 as int, y2 as int),
            cells_on_map(corridor@, m0.width as int, m0.height as int),
            forall|a: int, b: int| #![trigger map.tile(a, b)]
                map.on_map(a, b) ==> map.tile(a, b) == if has_cell(corridor@, a, b) { TileType::Floor } else { m0.tile(a, b) },
        decreases walk_len(x as int, y as int, x2 as int, y2 as int),
    {
        let ghost before = corridor@;
        if x < x2 {
            x += 1;
        } else if x > x2 {
            x -= 1;
        } else if y < y2 {
            y += 1;
        } else if y > y2 {
            y -= 1;
        }
        map.set_tile(x as usize, y as usize, TileType::Floor);
        corridor.push((x as usize, y as usize));
        proof {
            assert(corridor@ + corridor_path(x as int, y as int, x2 as int, y2 as int)
                =~= before + (seq![(x as usize, y as usize)] + corridor_path(x as int, y as int, x2 as int, y2 as int)));
            assert forall|i: int| 0 <= i < corridor@.len() implies (#[trigger] corridor@[i]).0 < m0.width && corridor@[i].1 < m0.height by {
                if i < before.len() {
                    assert(corridor@[i] == before[i]);
                }
            }
            assert forall|a: int, b: int| #![trigger map.tile(a, b)]
                map.on_map(a, b) implies map.tile(a, b) == if has_cell(corridor@, a, b) { TileType::Floor } else { m0.tile(a, b) } by {
                if has_cell(before, a, b) {
                    let k = choose|k: int| 0 <= k < before.len() && before[k] == (a as usize, b as usize);
                    assert(corridor@[k] == before[k]);
                }
                if a == x && b == y {
                    assert(corridor@[before.len() as int] == (a as usize, b as usize));
                }
                if has_cell(corridor@, a, b) && !(a == x && b == y) {
                    let k = choose|k: int| 0 <= k < corridor@.len() && corridor@[k] == (a as usize, b as usize);
                    if k == before.len() {
                        assert((a as usize, b as usize) == (x as usize, y as usize));
                        assert(false);
                    }
                    assert(before[k] == corridor@[k]);
                }
            }
        }
    }
    proof {
        assert(corridor@ + Seq::<(usize, usize)>::empty() =~= corridor@);
    }
    corridor
}

/// The tiles a brush of `brush_size` floors around `(cx, cy)` on a `w` by `h` map: the
/// tile itself for a size-one brush, else the square `[c - s/2, c + s/2)` kept clear of
/// the two outermost rows and columns.
pub open spec fn in_brush(brush_size: int, cx: int, cy: int, a: int, b: int, w: int, h: int) -> bool {
    if brush_size == 1 {
        a == cx && b == cy
    } else {
        let half = brush_size / 2;
        &&& cy - half <= b < cy + half
        &&& cx - half <= a < cx + half
        &&& 1 < a < w - 1
        &&& 1 < b < h - 1
    }
}

/// Floors the tiles of a brush of `brush_size` around `(x, y)`.
pub fn apply_paint(map: &mut GameMap, brush_size: i32, x: i32, y: i32)
    requires
        old(map).wf(),
        1 <= brush_size <= 1000,
        -1_000_000 <= x <= 1_000_000,
        -1_000_000 <= y <= 1_000_000,
        brush_size == 1 ==> old(map).on_map(x as int, y as int),
    ensures
        final(map).wf(),
        final(map).same_frame(*old(map)),
        carved_floor(*old(map), *final(map),
            |a: int, b: int| in_brush(brush_size as int, x as int, y as int, a, b, old(map).width as int, old(map).height as int)),
{
    let ghost m0 = *map;
    if brush_size == 1 {
        map.set_tile(x as usize, y as usize, TileType::Floor);
        return;
    }
    let half = brush_size / 2;
    let mut by = y - half;
    while by < y + half
        invariant
            map.wf(),
            map.same_frame(m0),
            brush_size != 1,
            half == brush_size / 2,
            0 <= half <= 500,
            -1_000_000 <= x <= 1_000_000,
            -1_000_000 <= y <= 1_000_000,
            y - half <= by <= y + half,
            forall|a: int, b: int| #![trigger map.tile(a, b)]
                map.on_map(a, b) ==> map.tile(a, b) == if in_brush(brush_size as int, x as int, y as int, a, b, m0.width as int, m0.height as int) && b < by {
                    TileType::Floor
                } else {
                    m0.tile(a, b)
                },
        decreases y + half - by,
    {
        let mut bx = x - half;
        while bx < x + half
            invariant
                map.wf(),
                map.same_frame(m0),
                brush_size != 1,
                half == brush_size / 2,
                0 <= half <= 500,
                -1_000_000 <= x <= 1_000_000,
                -1_000_000 <= y <= 1_000_000,
                y - half <= by < y + half,
                x - half <= bx <= x + half,
                forall|a: int, b: int| #![trigger map.tile(a, b)]
                    map.on_map(a, b) ==> map.tile(a, b) == if in_brush(brush_size as int, x as int, y as int, a, b, m0.width as int, m0.height as int)
                        && (b < by || (b == by && a < bx)) {
                        TileType::Floor
                    } else {
                        m0.tile(a, b)
                    },
            decreases x + half - bx,
        {
            if bx > 1 && bx < map.width - 1 && by > 1 && by < map.height - 1 {
                map.set_tile(bx as usize, by as usize, TileType::Floor);
            }
            bx = bx + 1;
        }
        by = by + 1;
    }
}

/// How a painted tile is mirrored across the map's centre lines.
#[derive(PartialEq, Eq, Copy, Clone, Debug, Structural)]
pub enum Symmetry {
    NoSymmetry,
    Horizontal,
    Vertical,
    Both,
}

/// The absolute value.
pub open spec fn abs_i(a: int) -> int {
    if a < 0 { -a } else { a }
}

/// The brush centres a stroke at `(x, y)` paints with under `mode` on a `w` by `h` map:
/// the point itself, or its mirror images across the centre column and/or row.
pub open spec fn paint_centers(mode: Symmetry, w: int, h: int, x: int, y: int) -> Seq<(int, int)> {
    let cx = w / 2;
    let cy = h / 2;
    let dx = abs_i(cx - x);
    let dy = abs_i(cy - y);
    match mode {
        Symmetry::NoSymmetry => seq![(x, y)],
        Symmetry::Horizontal => if x == cx { seq![(x, y)] } else { seq![(cx + dx, y), (cx - dx, y)] },
        Symmetry::Vertical => if y == cy { seq![(x, y)] } else { seq![(x, cy + dy), (x, cy - dy)] },
        Symmetry::Both => if x == cx && y == cy {
            seq![(x, y)]
        } else {
            seq![(cx + dx, y), (cx - dx, y), (x, cy + dy), (x, cy - dy)]
        },
    }
}

/// Some brush stroke among `centers` covers `(a, b)`.
pub open spec fn painted_by(centers: Seq<(int, int)>, brush_size: int, a: int, b: int, w: int, h: int) -> bool {
    exists|i: int| 0 <= i < centers.len() && in_brush(brush_size, #[trigger] centers[i].0, centers[i].1, a, b, w, h)
}

/// The centres of `cs` as integer points.
pub open spec fn int_centers(cs: Seq<(i32, i32)>) -> Seq<(int, int)> {
    cs.map_values(|c: (i32, i32)| (c.0 as int, c.1 as int))
}

/// Paints with a brush at each of `centers` in turn.
fn paint_at(map: &mut GameMap, brush_size: i32, centers: &Vec<(i32, i32)>)
    requires
        old(map).wf(),
        1 <= brush_size <= 1000,
        forall|i: int| 0 <= i < centers@.len() ==> -1_000_000 <= (#[trigger] centers@[i]).0 <= 1_000_000
            && -1_000_000 <= centers@[i].1 <= 1_000_000,
        brush_size == 1 ==> forall|i: int| 0 <= i < centers@.len() ==> old(map).on_map((#[trigger] centers@[i]).0 as int, centers@[i].1 as int),
    ensures
        final(map).wf(),
        final(map).same_frame(*old(map)),
        carved_floor(*old(map), *final(map), |a: int, b: int| painted_by(int_centers(centers@), brush_size as int, a, b,
            old(map).width as int, old(map).height as int)),
{
    let ghost m0 = *map;
    let ghost (w, h, bs) = (m0.width as int, m0.height as int, brush_size as int);
    let mut k: usize = 0;
    while k < centers.len()
        invariant
            map.wf(),
            map.same_frame(m0),
            w == m0.width && h == m0.height && bs == brush_size,
            1 <= brush_size <= 1000,
            k <= centers@.len(),
            forall|i: int| 0 <= i < centers@.len() ==> -1_000_000 <= (#[trigger] centers@[i]).0 <= 1_000_000
                && -1_000_000 <= centers@[i].1 <= 1_000_000,
            brush_size == 1 ==> forall|i: int| 0 <= i < centers@.len() ==> m0.on_map((#[trigger] centers@[i]).0 as int, centers@[i].1 as int),
            forall|a: int, b: int| #![trigger map.tile(a, b)] map.on_map(a, b) ==> map.tile(a, b)
                == if painted_by(int_centers(centers@.subrange(0, k as int)), bs, a, b, w, h) { TileType::Floor } else { m0.tile(a, b) },
        decreases centers@.len() - k,
    {
        let (cx, cy) = centers[k];
        let ghost before = *map;
        apply_paint(map, brush_size, cx, cy);
        proof {
            let prev = int_centers(centers@.subrange(0, k as int));
            let next = int_centers(centers@.subrange(0, k + 1));
            assert(next =~= prev.push((cx as int, cy as int)));
            assert forall|a: int, b: int| #![trigger map.tile(a, b)] map.on_map(a, b) implies map.tile(a, b)
                == if painted_by(next, bs, a, b, w, h) { TileType::Floor } else { m0.tile(a, b) } by {
                if painted_by(prev, bs, a, b, w, h) {
                    let i = choose|i: int| 0 <= i < prev.len() && in_brush(bs, #[trigger] prev[i].0, prev[i].1, a, b, w, h);
                    assert(next[i] == prev[i]);
                }
                if in_brush(bs, cx as int, cy as int, a, b, w, h) {
                    assert(next[k as int] == (cx as int, cy as int));
                }
                if painted_by(next, bs, a, b, w, h) {
                    let i = choose|i: int| 0 <= i < next.len() && in_brush(bs, #[trigger] next[i].0, next[i].1, a, b, w, h);
                    if i < k {
                        assert(prev[i] == next[i]);
                    }
                }
            }
        }
        k = k + 1;
    }
    assert(centers@.subrange(0, centers@.len() as int) =~= centers@);
}

/// Paints with a brush at `(x, y)` and, under `mode`, at its mirror images.
pub fn paint(map: &mut GameMap, mode: Symmetry, brush_size: i32, x: i32, y: i32)
    requires
        old(map).wf(),
        old(map).width <= 1_000_000,
        old(map).height <= 1_000_000,
        1 <= brush_size <= 1000,
        0 <= x <= 1_000_000,
        0 <= y <= 1_000_000,
        brush_size == 1 ==> forall|i: int| 0 <= i < paint_centers(mode, old(map).width as int, old(map).height as int, x as int, y as int).len()
            ==> old(map).on_map(#[trigger] paint_centers(mode, old(map).width as int, old(map).height as int, x as int, y as int)[i].0,
                paint_centers(mode, old(map).width as int, old(map).height as int, x as int, y as int)[i].1),
    ensures
        final(map).wf(),
        final(map).same_frame(*old(map)),
        carved_floor(*old(map), *final(map), |a: int, b: int| painted_by(
            paint_centers(mode, old(map).width as int, old(map).height as int, x as int, y as int),
            brush_size as int, a, b, old(map).width as int, old(map).height as int)),
{
    let ghost cs = paint_centers(mode, map.width as int, map.height as int, x as int, y as int);
    let center_x = map.width / 2;
    let center_y = map.height / 2;
    let dist_x = if center_x - x < 0 { x - center_x } else { center_x - x };
    let dist_y = if center_y - y < 0 { y - center_y } else { center_y - y };
    let mut centers: Vec<(i32, i32)> = Vec::new();
    match mode {
        Symmetry::NoSymmetry => {
            centers.push((x, y));
        },
        Symmetry::Horizontal => {
            if x == center_x {
                centers.push((x, y));
            } else {
                centers.push((center_x + dist_x, y));
                centers.push((center_x - dist_x, y));
            }
        },
        Symmetry::Vertical => {
            if y == center_y {
                centers.push((x, y));
            } else {
                centers.push((x, center_y + dist_y));
                centers.push((x, center_y - dist_y));
            }
        },
        Symmetry::Both => {
            if x == center_x && y == center_y {
                centers.push((x, y));
            } else {
                centers.push((center_x + dist_x, y));
                centers.push((center_x - dist_x, y));
                centers.push((x, center_y + dist_y));
                centers.push((x, center_y - dist_y));
            }
        },
    }
    proof {
        assert(int_centers(centers@) =~= cs);
        if brush_size == 1 {
            assert forall|i: int| 0 <= i < centers@.len() implies map.on_map((#[trigger] centers@[i]).0 as int, centers@[i].1 as int) by {
                assert(int_centers(centers@)[i] == cs[i]);
            }
        }
    }
    paint_at(map, brush_size, &centers);
}

/// Turns every tile of kind `from` into `to`, leaving the others as they were.
pub fn replace_tiles(map: &mut GameMap, from: TileType, to: TileType)
    requires
        old(map).wf(),
    ensures
        final(map).wf(),
        final(map).same_frame(*old(map)),
        forall|a: int, b: int| #![trigger final(map).tile(a, b)] final(map).on_map(a, b) ==>
            final(map).tile(a, b) == if old(map).tile(a, b) == from { to } else { old(map).tile(a, b) },
{
    let ghost m0 = *map;
    let w = map.width;
    let h = map.height;
    let mut x: i32 = 0;
    while x < w
        invariant
            map.wf(),
            map.same_frame(m0),
            w == map.width,
            h == map.height,
            0 <= x <= w,
            forall|a: int, b: int| #![trigger map.tile(a, b)] map.on_map(a, b) ==>
                map.tile(a, b) == if a < x && m0.tile(a, b) == from { to } else { m0.tile(a, b) },
        decreases w - x,
    {
        let mut y: i32 = 0;
        while y < h
            invariant
                map.wf(),
                map.same_frame(m0),
                w == map.width,
                h == map.height,
                0 <= x < w,
                0 <= y <= h,
                forall|a: int, b: int| #![trigger map.tile(a, b)] map.on_map(a, b) ==>
                    map.tile(a, b) == if (a < x || (a == x && b < y)) && m0.tile(a, b) == from { to } else { m0.tile(a, b) },
            decreases h - y,
        {
            if map.tiles[x as usize][y as usize] == from {
                map.set_tile(x as usize, y as usize, to);
            }
            y = y + 1;
        }
        x = x + 1;
    }
}

/// A stroke at a point at least two tiles inside the edges of a map, whose centre lines
/// are mirrored, has all its brush centres on the map.
pub proof fn lemma_centers_on_map(mode: Symmetry, m: GameMap, x: int, y: int)
    requires
        m.width >= 4,
        m.height >= 4,
        2 <= x <= m.width - 2,
        2 <= y <= m.height - 2,
    ensures
        forall|i: int| 0 <= i < paint_centers(mode, m.width as int, m.height as int, x, y).len()
            ==> m.on_map(#[trigger] paint_centers(mode, m.width as int, m.height as int, x, y)[i].0,
                paint_centers(mode, m.width as int, m.height as int, x, y)[i].1),
{
}

} // verus!
