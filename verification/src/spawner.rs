use vstd::prelude::*;

use crate::map::{GameMap, TileType};
use crate::map_builders::SpawnList;
use crate::random_tables::{table_pick, EntityType, RandomTable};
use crate::rect::Rect;
use crate::rng::roll_dice;

verus! {

/// The base for how many things a region may hold.
pub const MAX_MONSTERS: i32 = 4;

/// `e` is something a draw from table `t` can give.
pub open spec fn table_outcome(t: &RandomTable, e: EntityType) -> bool {
    if t.spec_total() == 0 {
        e == EntityType::Nothing
    } else {
        exists|r: int| 0 <= r < t.spec_total() && e == table_pick(t@, r)
    }
}

/// No two entries of the list are for the same tile.
pub open spec fn distinct_tiles(s: Seq<((i32, i32), EntityType)>) -> bool {
    forall|i: int, j: int| 0 <= i < j < s.len() ==> (#[trigger] s[i]).0 != (#[trigger] s[j]).0
}

/// Records that `kind` is to spawn at `cell`, replacing what was recorded there before.
pub fn set_spawn(points: &mut Vec<((i32, i32), EntityType)>, cell: (i32, i32), kind: EntityType)
    requires
        distinct_tiles(old(points)@),
    ensures
        distinct_tiles(final(points)@),
        (exists|j: int| 0 <= j < old(points)@.len() && old(points)@[j].0 == cell) ==> {
            &&& final(points)@.len() == old(points)@.len()
            &&& forall|j: int| 0 <= j < old(points)@.len() ==> #[trigger] final(points)@[j] == if old(points)@[j].0 == cell { (cell, kind) } else { old(points)@[j] }
        },
        !(exists|j: int| 0 <= j < old(points)@.len() && old(points)@[j].0 == cell) ==> final(points)@ == old(points)@.push((cell, kind)),
{
    let mut j: usize = 0;
    while j < points.len()
        invariant
            j <= points@.len(),
            points@ == old(points)@,
            distinct_tiles(old(points)@),
            forall|k: int| 0 <= k < j ==> (#[trigger] points@[k]).0 != cell,
        decreases points@.len() - j,
    {
        if points[j].0.0 == cell.0 && points[j].0.1 == cell.1 {
            let ghost before = points@;
            points.set(j, (cell, kind));
            assert forall|k: int| 0 <= k < before.len() implies #[trigger] points@[k] == if before[k].0 == cell { (cell, kind) } else { before[k] } by {
                if k < j {
                    assert(before[k].0 != before[j as int].0);
                } else if k > j {
                    assert(before[j as int].0 != before[k].0);
                }
            }
            assert forall|a: int, b: int| 0 <= a < b < points@.len() implies (#[trigger] points@[a]).0 != (#[trigger] points@[b]).0 by {
                assert(points@[a].0 == before[a].0);
                assert(points@[b].0 == before[b].0);
                assert(before[a].0 != before[b].0);
            }
            return;
        }
        j = j + 1;
    }
    points.push((cell, kind));
}

/// How many of `n` tiles a draw of `d` things fills.
pub open spec fn spawn_count(d: int, n: int) -> int {
    if d <= 0 { 0 } else if d < n { d } else { n }
}

/// A draw of `d` things fills as many tiles as it asks for, but no fewer than none and no
/// more than the `n` tiles there are.
pub proof fn lemma_spawn_count_clamps(d: int, n: int)
    requires
        n >= 0,
    ensures
        0 <= spawn_count(d, n) <= n,
        d <= 0 ==> spawn_count(d, n) == 0,
        0 <= d <= n ==> spawn_count(d, n) == d,
        d >= n ==> spawn_count(d, n) == n,
{
}

/// What spawning in a region of `area` tiles at `depth` from `table` adds: things on
/// different tiles of the area, each something the table can give, as many as a draw of
/// between `depth - 3` and `depth + 3` fills (when the area lists no tile twice).
pub open spec fn region_spawns(added: Seq<((i32, i32), EntityType)>, area: Seq<(i32, i32)>, depth: int, table: &RandomTable) -> bool {
    &&& distinct_tiles(added)
    &&& added.len() <= area.len()
    &&& forall|i: int| 0 <= i < added.len() ==> area.contains((#[trigger] added[i]).0) && table_outcome(table, added[i].1)
    &&& exists|d: int| #![trigger spawn_count(d, area.len() as int)] depth - 3 <= d <= depth + 3
        && (area.no_duplicates() ==> added.len() == spawn_count(d, area.len() as int))
}

/// `s` is what spawning region by region in `areas[0..c]` adds: the spawns of each region
/// in turn (see `region_spawns`).
pub open spec fn regions_spawned(s: Seq<((i32, i32), EntityType)>, areas: Seq<Seq<(i32, i32)>>, depth: int, table: &RandomTable, c: int) -> bool
    decreases c,
{
    if c <= 0 {
        s.len() == 0
    } else {
        exists|k: int| #![trigger s.subrange(0, k)] 0 <= k <= s.len()
            && regions_spawned(s.subrange(0, k), areas, depth, table, c - 1)
            && region_spawns(s.subrange(k, s.len() as int), areas[c - 1], depth, table)
    }
}

/// Adding the spawns of the next region to those of the regions before.
pub proof fn lemma_regions_spawned_step(s: Seq<((i32, i32), EntityType)>, added: Seq<((i32, i32), EntityType)>,
    areas: Seq<Seq<(i32, i32)>>, depth: int, table: &RandomTable, c: int)
    requires
        0 <= c,
        regions_spawned(s, areas, depth, table, c),
        region_spawns(added, areas[c], depth, table),
    ensures
        regions_spawned(s + added, areas, depth, table, c + 1),
{
    let t = s + added;
    assert(t.subrange(0, s.len() as int) =~= s);
    assert(t.subrange(s.len() as int, t.len() as int) =~= added);
}

/// Draws how many things to spawn in a region of `area_len` tiles at `map_depth`, and
/// spawns them: each on a different random tile of the area, each drawn from `table`.
/// The spawns are added to `spawn_list`, which otherwise stays as it was.
pub fn spawn_region(
    rng: &mut bracket_lib::random::RandomNumberGenerator,
    area: &Vec<(i32, i32)>,
    map_depth: i32,
    table: &RandomTable,
    spawn_list: &mut SpawnList,
)
    requires
        area@.len() < i32::MAX,
        -1_000_000_000 <= map_depth <= 1_000_000_000,
        table.spec_total() < i32::MAX,
    ensures
        final(spawn_list)@.len() >= old(spawn_list)@.len(),
        final(spawn_list)@.subrange(0, old(spawn_list)@.len() as int) == old(spawn_list)@,
        region_spawns(final(spawn_list)@.subrange(old(spawn_list)@.len() as int, final(spawn_list)@.len() as int), area@, map_depth as int, table),
{
    let ghost l0 = spawn_list@;
    let mut areas: Vec<(i32, i32)> = Vec::new();
    let mut c: usize = 0;
    while c < area.len()
        invariant
            c <= area@.len(),
            areas@ == area@.subrange(0, c as int),
        decreases area@.len() - c,
    {
        areas.push(area[c]);
        c = c + 1;
    }
    assert(areas@ =~= area@);
    let roll = roll_dice(rng, 1, MAX_MONSTERS + 3);
    let wanted = roll + (map_depth - 1) - 3;
    let num_spawns = if (areas.len() as i32) < wanted { areas.len() as i32 } else { wanted };
    let ghost d = wanted as int;
    let mut points: Vec<((i32, i32), EntityType)> = Vec::new();
    let mut i: i32 = 0;
    while i < num_spawns
        invariant
            0 <= i,
            i <= num_spawns || num_spawns <= 0,
            num_spawns <= 0 ==> i == 0,
            num_spawns <= area@.len(),
            areas@.len() == area@.len() - (if i <= num_spawns { i as int } else { 0 }),
            forall|k: int| 0 <= k < areas@.len() ==> area@.contains(#[trigger] areas@[k]),
            distinct_tiles(points@),
            points@.len() <= i,
            forall|k: int| 0 <= k < points@.len() ==> area@.contains((#[trigger] points@[k]).0) && table_outcome(table, points@[k].1),
            area@.no_duplicates() ==> areas@.no_duplicates() && points@.len() == i
                && forall|k: int, q: int| 0 <= k < points@.len() && 0 <= q < areas@.len() ==> (#[trigger] points@[k]).0 != #[trigger] areas@[q],
            table.spec_total() < i32::MAX,
            area@.len() < i32::MAX,
        decreases num_spawns - i,
    {
        let idx: usize = if areas.len() == 1 { 0 } else { (roll_dice(rng, 1, areas.len() as i32) - 1) as usize };
        let cell = areas[idx];
        assert(areas@[idx as int] == cell);
        let kind = table.roll(rng);
        let ghost before = points@;
        let ghost areas_before = areas@;
        set_spawn(&mut points, cell, kind);
        areas.remove(idx);
        proof {
            assert(area@.contains(cell));
            if table.spec_total() > 0 {
                let r = choose|r: int| 0 <= r < table.spec_total() && kind == table_pick(table@, r);
                assert(0 <= r < table.spec_total() && kind == table_pick(table@, r));
            }
            assert(table_outcome(table, kind));
            assert forall|k: int| 0 <= k < points@.len() implies area@.contains((#[trigger] points@[k]).0) && table_outcome(table, points@[k].1) by {
                if k < before.len() && before[k].0 != cell {
                    assert(points@[k] == before[k]);
                }
            }
            assert forall|k: int| 0 <= k < areas@.len() implies area@.contains(#[trigger] areas@[k]) by {
                if k < idx {
                    assert(areas@[k] == areas_before[k]);
                } else {
                    assert(areas@[k] == areas_before[k + 1]);
                }
            }
            if area@.no_duplicates() {
                assert(!(exists|j: int| 0 <= j < before.len() && before[j].0 == cell)) by {
                    if exists|j: int| 0 <= j < before.len() && before[j].0 == cell {
                        let j = choose|j: int| 0 <= j < before.len() && before[j].0 == cell;
                        assert(before[j].0 != areas_before[idx as int]);
                    }
                }
                assert(points@ == before.push((cell, kind)));
                assert forall|k: int, q: int| 0 <= k < areas@.len() && 0 <= q < areas@.len() && k != q implies areas@[k] != areas@[q] by {
                    let k2 = if k < idx { k } else { k + 1 };
                    let q2 = if q < idx { q } else { q + 1 };
                    assert(areas@[k] == areas_before[k2]);
                    assert(areas@[q] == areas_before[q2]);
                }
                assert forall|k: int, q: int| 0 <= k < points@.len() && 0 <= q < areas@.len() implies (#[trigger] points@[k]).0 != #[trigger] areas@[q] by {
                    let q2 = if q < idx { q } else { q + 1 };
                    assert(areas@[q] == areas_before[q2]);
                    if k < before.len() {
                        assert(points@[k] == before[k]);
                    } else {
                        assert(q2 != idx);
                    }
                }
            }
        }
        i = i + 1;
    }
    let ghost added = points@;
    let mut k: usize = 0;
    while k < points.len()
        invariant
            k <= points@.len(),
            points@ == added,
            spawn_list@ == l0 + added.subrange(0, k as int),
        decreases points@.len() - k,
    {
        spawn_list.push(points[k]);
        proof {
            assert(added.subrange(0, k + 1) =~= added.subrange(0, k as int).push(added[k as int]));
        }
        k = k + 1;
    }
    proof {
        assert(added.subrange(0, added.len() as int) =~= added);
        assert(spawn_list@.subrange(0, l0.len() as int) =~= l0);
        assert(spawn_list@.subrange(l0.len() as int, spawn_list@.len() as int) =~= added);
        assert(map_depth - 3 <= d <= map_depth + 3);
        if area@.no_duplicates() {
            assert(added.len() == if num_spawns <= 0 { 0 } else { num_spawns as int });
        }
        let c = spawn_count(d, area@.len() as int);
        assert(map_depth - 3 <= d <= map_depth + 3 && (area@.no_duplicates() ==> added.len() == c));
        assert(exists|e: int| #![trigger spawn_count(e, area@.len() as int)] map_depth - 3 <= e <= map_depth + 3
            && (area@.no_duplicates() ==> added.len() == spawn_count(e, area@.len() as int)));
    }
}

/// The floor tiles of row `y` strictly inside `room` and left of column `x`, left to right.
pub open spec fn row_floor(m: GameMap, room: Rect, y: int, x: int) -> Seq<(i32, i32)>
    decreases x - room.x1,
{
    if x <= room.x1 + 1 {
        Seq::empty()
    } else {
        let prev = row_floor(m, room, y, x - 1);
        if m.tile(x - 1, y) == TileType::Floor { prev.push(((x - 1) as i32, y as i32)) } else { prev }
    }
}

/// The floor tiles strictly inside `room` in the rows above row `y`, row by row.
pub open spec fn rows_floor(m: GameMap, room: Rect, y: int) -> Seq<(i32, i32)>
    decreases y - room.y1,
{
    if y <= room.y1 + 1 {
        Seq::empty()
    } else {
        rows_floor(m, room, y - 1) + row_floor(m, room, y - 1, room.x2 as int)
    }
}

/// The floor tiles strictly inside `room`, row by row.
pub open spec fn room_floor(m: GameMap, room: Rect) -> Seq<(i32, i32)> {
    rows_floor(m, room, room.y2 as int)
}

/// `p` comes before `q` row by row.
pub open spec fn scan_before(p: (i32, i32), q: (i32, i32)) -> bool {
    p.1 < q.1 || (p.1 == q.1 && p.0 < q.0)
}

/// Spawns things on the floor tiles strictly inside a room.
pub fn spawn_room(
    map: &GameMap,
    rng: &mut bracket_lib::random::RandomNumberGenerator,
    room: &Rect,
    map_depth: i32,
    table: &RandomTable,
    spawn_list: &mut SpawnList,
)
    requires
        map.wf(),
        room.wf(),
        room.x2 < map.width,
        room.y2 < map.height,
        -1_000_000_000 <= map_depth <= 1_000_000_000,
        table.spec_total() < i32::MAX,
    ensures
        final(spawn_list)@.len() >= old(spawn_list)@.len(),
        final(spawn_list)@.subrange(0, old(spawn_list)@.len() as int) == old(spawn_list)@,
        ({
            let added = final(spawn_list)@.subrange(old(spawn_list)@.len() as int, final(spawn_list)@.len() as int);
            &&& distinct_tiles(added)
            &&& forall|i: int| 0 <= i < added.len() ==> {
                let (x, y) = (#[trigger] added[i]).0;
                &&& room.x1 < x < room.x2
                &&& room.y1 < y < room.y2
                &&& map.tile(x as int, y as int) == TileType::Floor
                &&& table_outcome(table, added[i].1)
            }
            &&& exists|d: int| #![trigger spawn_count(d, room_floor(*map, *room).len() as int)] map_depth - 3 <= d <= map_depth + 3
                && added.len() == spawn_count(d, room_floor(*map, *room).len() as int)
        }),
{
    let mut possible_targets: Vec<(i32, i32)> = Vec::new();
    let mut y = room.y1 + 1;
    while y < room.y2
        invariant
            map.wf(),
            room.wf(),
            room.x2 < map.width,
            room.y2 < map.height,
            room.y1 + 1 <= y <= room.y2 || y == room.y1 + 1,
            possible_targets@.len() <= (y - room.y1 - 1) * (room.x2 - room.x1),
            forall|k: int| 0 <= k < possible_targets@.len() ==> {
                let (x, ty) = #[trigger] possible_targets@[k];
                &&& room.x1 < x < room.x2
                &&& room.y1 < ty < room.y2
                &&& map.tile(x as int, ty as int) == TileType::Floor
            },
            possible_targets@ == rows_floor(*map, *room, y as int),
            forall|a: int, b: int| 0 <= a < b < possible_targets@.len() ==> scan_before(#[trigger] possible_targets@[a], #[trigger] possible_targets@[b]),
            forall|k: int| 0 <= k < possible_targets@.len() ==> (#[trigger] possible_targets@[k]).1 < y,
        decreases room.y2 - y,
    {
        let mut x = room.x1 + 1;
        while x < room.x2
            invariant
                map.wf(),
                room.wf(),
                room.x2 < map.width,
                room.y2 < map.height,
                room.y1 < y < room.y2,
                room.x1 + 1 <= x,
                x <= room.x2 || x == room.x1 + 1,
                possible_targets@.len() <= (y - room.y1 - 1) * (room.x2 - room.x1) + (x - room.x1 - 1),
                forall|k: int| 0 <= k < possible_targets@.len() ==> {
                    let (px, ty) = #[trigger] possible_targets@[k];
                    &&& room.x1 < px < room.x2
                    &&& room.y1 < ty < room.y2
                    &&& map.tile(px as int, ty as int) == TileType::Floor
                },
                possible_targets@ == rows_floor(*map, *room, y as int) + row_floor(*map, *room, y as int, x as int),
                forall|a: int, b: int| 0 <= a < b < possible_targets@.len() ==> scan_before(#[trigger] possible_targets@[a], #[trigger] possible_targets@[b]),
                forall|k: int| 0 <= k < possible_targets@.len() ==> scan_before(#[trigger] possible_targets@[k], (x, y)),
            decreases room.x2 - x,
        {
            let ghost before = possible_targets@;
            if map.tiles[x as usize][y as usize] == TileType::Floor {
                possible_targets.push((x, y));
            }
            proof {
                assert(rows_floor(*map, *room, y as int) + row_floor(*map, *room, y as int, x + 1)
                    =~= possible_targets@);
            }
            x = x + 1;
        }
        proof {
            if room.x2 >= room.x1 + 1 {
                assert(x == room.x2);
            }
            assert(row_floor(*map, *room, y as int, x as int) == row_floor(*map, *room, y as int, room.x2 as int));
            assert(rows_floor(*map, *room, y + 1) == rows_floor(*map, *room, y as int) + row_floor(*map, *room, y as int, room.x2 as int));
        }
        assert((y - room.y1 - 1) * (room.x2 - room.x1) + (x - room.x1 - 1) <= (y + 1 - room.y1 - 1) * (room.x2 - room.x1)) by (nonlinear_arith)
            requires 0 <= x - room.x1 - 1 <= room.x2 - room.x1;
        y = y + 1;
    }
    assert(possible_targets@.len() < i32::MAX) by {
        assert((y - room.y1 - 1) * (room.x2 - room.x1) < map.width * map.height) by (nonlinear_arith)
            requires
                0 <= y - room.y1 - 1 <= room.y2 - room.y1,
                room.y2 - room.y1 < map.height,
                0 <= room.x2 - room.x1 < map.width;
    }
    proof {
        if room.y2 >= room.y1 + 1 {
            assert(y == room.y2);
        }
        assert(possible_targets@ == room_floor(*map, *room));
        assert(possible_targets@.no_duplicates()) by {
            assert forall|a: int, b: int| 0 <= a < possible_targets@.len() && 0 <= b < possible_targets@.len() && a != b
                implies possible_targets@[a] != possible_targets@[b] by {
                if a < b {
                    assert(scan_before(possible_targets@[a], possible_targets@[b]));
                } else {
                    assert(scan_before(possible_targets@[b], possible_targets@[a]));
                }
            }
        }
    }
    let ghost l0 = spawn_list@;
    spawn_region(rng, &possible_targets, map_depth, table, spawn_list);
    proof {
        let added = spawn_list@.subrange(l0.len() as int, spawn_list@.len() as int);
        assert forall|i: int| 0 <= i < added.len() implies {
            let (x, y) = (#[trigger] added[i]).0;
            &&& room.x1 < x < room.x2
            &&& room.y1 < y < room.y2
            &&& map.tile(x as int, y as int) == TileType::Floor
            &&& table_outcome(table, added[i].1)
        } by {
            assert(possible_targets@.contains(added[i].0));
            let k = choose|k: int| 0 <= k < possible_targets@.len() && possible_targets@[k] == added[i].0;
            assert(possible_targets@[k] == added[i].0);
        }
    }
}

} // verus!
