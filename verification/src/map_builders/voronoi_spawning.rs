use vstd::prelude::*;

use crate::map::{GameMap, TileType};
use crate::map_builders::BuilderMap;
use crate::random_tables::RandomTable;
use crate::spawner::{lemma_regions_spawned_step, regions_spawned, scan_before, spawn_region, table_outcome};

verus! {

/// Spawns things region by region, the regions being the cells of a noise pattern.
pub struct VoronoiSpawning {}

/// The regions found so far: for each cell value, in order of first appearance, the inner
/// floor tiles that carry it, in scan order.
pub open spec fn regions_wf(groups: Seq<(i32, Vec<(i32, i32)>)>, cells: Seq<Seq<i32>>, w: int, h: int) -> bool {
    &&& forall|i: int, j: int| 0 <= i < j < groups.len() ==> (#[trigger] groups[i]).0 != (#[trigger] groups[j]).0
    &&& forall|i: int, k: int| 0 <= i < groups.len() && 0 <= k < groups[i].1@.len() ==> {
        let (x, y) = #[trigger] groups[i].1@[k];
        &&& 1 <= x < w - 1
        &&& 1 <= y < h - 1
        &&& cells[x as int][y as int] == groups[i].0
    }
}

/// The values of a grid of cells, column by column.
pub open spec fn cell_values(cells: Seq<Vec<i32>>) -> Seq<Seq<i32>> {
    cells.map_values(|c: Vec<i32>| c@)
}

/// The tiles of each group found.
pub open spec fn group_tiles(groups: Seq<(i32, Vec<(i32, i32)>)>) -> Seq<Seq<(i32, i32)>> {
    groups.map_values(|e: (i32, Vec<(i32, i32)>)| e.1@)
}

/// `(x, y)` is a floor tile of `m` off its outer frame.
pub open spec fn inner_floor(m: GameMap, x: int, y: int) -> bool {
    1 <= x < m.width - 1 && 1 <= y < m.height - 1 && m.tile(x, y) == TileType::Floor
}

/// `gs` groups the floor tiles of `m` off its frame by the value `cells` gives them: no
/// group is empty or lists a tile twice, a group's tiles share one value, no two groups
/// share a value, and every such tile is in a group.
pub open spec fn floor_groups(gs: Seq<Seq<(i32, i32)>>, m: GameMap, cells: Seq<Seq<i32>>) -> bool {
    &&& forall|i: int| 0 <= i < gs.len() ==> (#[trigger] gs[i]).len() > 0 && gs[i].no_duplicates()
    &&& forall|i: int, k: int| 0 <= i < gs.len() && 0 <= k < gs[i].len() ==> {
        let (x, y) = #[trigger] gs[i][k];
        &&& inner_floor(m, x as int, y as int)
        &&& cells[x as int][y as int] == cells[gs[i][0].0 as int][gs[i][0].1 as int]
    }
    &&& forall|i: int, j: int| 0 <= i < j < gs.len() ==>
        cells[(#[trigger] gs[i])[0].0 as int][gs[i][0].1 as int] != cells[(#[trigger] gs[j])[0].0 as int][gs[j][0].1 as int]
    &&& forall|x: int, y: int| #![trigger m.tile(x, y)] inner_floor(m, x, y) ==>
        exists|i: int| 0 <= i < gs.len() && #[trigger] gs[i].contains((x as i32, y as i32))
}

/// The groups found once the inner tiles before `(x, y)` are scanned: none is empty or
/// lists a tile twice, all their tiles were scanned, and every scanned inner floor tile is
/// in one of them.
pub open spec fn scanned_groups(gs: Seq<Seq<(i32, i32)>>, m: GameMap, x: int, y: int) -> bool {
    &&& forall|i: int| 0 <= i < gs.len() ==> (#[trigger] gs[i]).len() > 0 && gs[i].no_duplicates()
    &&& forall|i: int, k: int| 0 <= i < gs.len() && 0 <= k < gs[i].len() ==> scan_before(#[trigger] gs[i][k], (x as i32, y as i32))
    &&& forall|px: int, py: int| #![trigger m.tile(px, py)] inner_floor(m, px, py) && scan_before((px as i32, py as i32), (x as i32, y as i32))
        ==> exists|i: int| 0 <= i < gs.len() && #[trigger] gs[i].contains((px as i32, py as i32))
}

/// Scanning a tile that is not an inner floor tile changes no group.
proof fn lemma_scan_skip(gs: Seq<Seq<(i32, i32)>>, m: GameMap, x: int, y: int)
    requires
        scanned_groups(gs, m, x, y),
        !inner_floor(m, x, y),
        1 <= x < m.width - 1,
        1 <= y < m.height - 1,
        m.width <= 10_000,
    ensures
        scanned_groups(gs, m, x + 1, y),
{
    assert forall|px: int, py: int| #![trigger m.tile(px, py)] inner_floor(m, px, py) && scan_before((px as i32, py as i32), ((x + 1) as i32, y as i32))
        implies exists|i: int| 0 <= i < gs.len() && #[trigger] gs[i].contains((px as i32, py as i32)) by {
        assert(scan_before((px as i32, py as i32), (x as i32, y as i32)));
    }
}

/// Scanning an inner floor tile into group `i` (`add` is `gs` with the tile appended to it),
/// or into a new group (`i == gs.len()`).
proof fn lemma_scan_add(gs: Seq<Seq<(i32, i32)>>, ns: Seq<Seq<(i32, i32)>>, m: GameMap, x: int, y: int, i: int)
    requires
        scanned_groups(gs, m, x, y),
        inner_floor(m, x, y),
        m.width <= 10_000,
        m.height <= 10_000,
        0 <= i <= gs.len(),
        i < gs.len() ==> ns == gs.update(i, gs[i].push((x as i32, y as i32))),
        i == gs.len() ==> ns == gs.push(seq![(x as i32, y as i32)]),
    ensures
        scanned_groups(ns, m, x + 1, y),
{
    let t = (x as i32, y as i32);
    assert forall|a: int| 0 <= a < ns.len() implies (#[trigger] ns[a]).len() > 0 && ns[a].no_duplicates() by {
        if a == i {
            if i < gs.len() {
                assert forall|p: int, q: int| 0 <= p < q < ns[a].len() implies ns[a][p] != ns[a][q] by {
                    if q == gs[i].len() {
                        assert(scan_before(gs[i][p], t));
                    }
                }
            }
        }
    }
    assert forall|a: int, k: int| 0 <= a < ns.len() && 0 <= k < ns[a].len() implies scan_before(#[trigger] ns[a][k], ((x + 1) as i32, y as i32)) by {
        if a == i && (i == gs.len() || k == gs[i].len()) {
        } else {
            assert(ns[a][k] == gs[a][k]);
            assert(scan_before(gs[a][k], t));
        }
    }
    assert forall|px: int, py: int| #![trigger m.tile(px, py)] inner_floor(m, px, py) && scan_before((px as i32, py as i32), ((x + 1) as i32, y as i32))
        implies exists|a: int| 0 <= a < ns.len() && #[trigger] ns[a].contains((px as i32, py as i32)) by {
        let p = (px as i32, py as i32);
        if p == t {
            if i < gs.len() {
                assert(ns[i][gs[i].len() as int] == t);
            } else {
                assert(ns[i][0] == t);
            }
            assert(ns[i].contains(p));
        } else {
            assert(scan_before(p, t));
            let a = choose|a: int| 0 <= a < gs.len() && #[trigger] gs[a].contains(p);
            let k = choose|k: int| 0 <= k < gs[a].len() && gs[a][k] == p;
            if a == i {
                assert(ns[a][k] == p);
            } else {
                assert(ns[a] == gs[a]);
            }
            assert(ns[a].contains(p));
        }
    }
}

/// The end of a row: the next row starts.
proof fn lemma_scan_row(gs: Seq<Seq<(i32, i32)>>, m: GameMap, x: int, y: int)
    requires
        scanned_groups(gs, m, x, y),
        m.width - 1 <= x <= 10_000,
        1 <= y < m.height - 1,
        1 <= m.width <= 10_000,
        m.height <= 10_000,
    ensures
        scanned_groups(gs, m, 1, y + 1),
{
    assert forall|i: int, k: int| 0 <= i < gs.len() && 0 <= k < gs[i].len() implies scan_before(#[trigger] gs[i][k], (1i32, (y + 1) as i32)) by {
        assert(scan_before(gs[i][k], (x as i32, y as i32)));
    }
    assert forall|px: int, py: int| #![trigger m.tile(px, py)] inner_floor(m, px, py) && scan_before((px as i32, py as i32), (1i32, (y + 1) as i32))
        implies exists|i: int| 0 <= i < gs.len() && #[trigger] gs[i].contains((px as i32, py as i32)) by {
        assert(scan_before((px as i32, py as i32), (x as i32, y as i32)));
    }
}

/// The index of the region of cell value `v`, if there is one yet.
fn find_region(groups: &Vec<(i32, Vec<(i32, i32)>)>, v: i32) -> (r: Option<usize>)
    ensures
        r matches Some(i) ==> i < groups@.len() && groups@[i as int].0 == v,
        r is None ==> forall|i: int| 0 <= i < groups@.len() ==> (#[trigger] groups@[i]).0 != v,
{
    let mut i: usize = 0;
    while i < groups.len()
        invariant
            i <= groups@.len(),
            forall|k: int| 0 <= k < i ==> (#[trigger] groups@[k]).0 != v,
        decreases groups@.len() - i,
    {
        if groups[i].0 == v {
            return Some(i);
        }
        i = i + 1;
    }
    None
}

impl VoronoiSpawning {
    /// A region spawner.
    pub fn new() -> (b: Box<VoronoiSpawning>) {
        Box::new(VoronoiSpawning {})
    }

    /// Groups the inner floor tiles by the value `cells` gives them, and spawns in each
    /// group from `table` at the map's depth. Spawns are only added to the spawn list, each
    /// on an inner floor tile.
    pub fn build(&mut self, rng: &mut bracket_lib::random::RandomNumberGenerator, build_data: &mut BuilderMap,
        cells: &Vec<Vec<i32>>, table: &RandomTable)
        requires
            old(build_data).wf(),
            cells@.len() == old(build_data).map.width,
            forall|x: int| 0 <= x < cells@.len() ==> (#[trigger] cells@[x])@.len() == old(build_data).map.height,
            -1_000_000_000 <= old(build_data).map.depth <= 1_000_000_000,
            table.spec_total() < i32::MAX,
        ensures
            final(build_data).wf(),
            final(build_data).map == old(build_data).map,
            final(build_data).starting_position == old(build_data).starting_position,
            final(build_data).rooms == old(build_data).rooms,
            final(build_data).corridors == old(build_data).corridors,
            final(build_data).width == old(build_data).width,
            final(build_data).height == old(build_data).height,
            final(build_data).history == old(build_data).history,
            final(build_data).spawn_list@.len() >= old(build_data).spawn_list@.len(),
            final(build_data).spawn_list@.subrange(0, old(build_data).spawn_list@.len() as int) == old(build_data).spawn_list@,
            forall|i: int| old(build_data).spawn_list@.len() <= i < final(build_data).spawn_list@.len() ==> {
                let (x, y) = (#[trigger] final(build_data).spawn_list@[i]).0;
                &&& 1 <= x < old(build_data).map.width - 1
                &&& 1 <= y < old(build_data).map.height - 1
                &&& old(build_data).map.tile(x as int, y as int) == TileType::Floor
                &&& table_outcome(table, final(build_data).spawn_list@[i].1)
            },
            exists|gs: Seq<Seq<(i32, i32)>>| #![trigger floor_groups(gs, old(build_data).map, cell_values(cells@))]
                floor_groups(gs, old(build_data).map, cell_values(cells@))
                && regions_spawned(final(build_data).spawn_list@.subrange(old(build_data).spawn_list@.len() as int, final(build_data).spawn_list@.len() as int),
                    gs, old(build_data).map.depth as int, table, gs.len() as int),
    {
        let ghost b0 = *build_data;
        let ghost m0 = b0.map;
        let ghost g = cell_values(cells@);
        let w = build_data.map.width;
        let h = build_data.map.height;
        let mut groups: Vec<(i32, Vec<(i32, i32)>)> = Vec::new();
        let mut count: usize = 0;
        let mut y: i32 = 1;
        proof {
            assert(group_tiles(groups@) =~= Seq::<Seq<(i32, i32)>>::empty());
        }
        while y < h - 1
            invariant
                build_data.map == m0,
                m0 == b0.map,
                m0.wf(),
                w == m0.width,
                h == m0.height,
                cells@.len() == w,
                forall|x: int| 0 <= x < cells@.len() ==> (#[trigger] cells@[x])@.len() == h,
                g == cell_values(cells@),
                1 <= y,
                y <= h - 1 || y == 1,
                count <= (y - 1) * w,
                forall|i: int| 0 <= i < groups@.len() ==> (#[trigger] groups@[i]).1@.len() <= count,
                regions_wf(groups@, g, w as int, h as int),
                forall|i: int, k: int| 0 <= i < groups@.len() && 0 <= k < groups@[i].1@.len() ==>
                    m0.tile((#[trigger] groups@[i].1@[k]).0 as int, groups@[i].1@[k].1 as int) == TileType::Floor,
                w <= 10_000,
                h <= 10_000,
                scanned_groups(group_tiles(groups@), m0, 1, y as int),
            decreases h - y,
        {
            let mut x: i32 = 1;
            while x < w - 1
                invariant
                    build_data.map == m0,
                    m0 == b0.map,
                    m0.wf(),
                    w == m0.width,
                    h == m0.height,
                    cells@.len() == w,
                    forall|x: int| 0 <= x < cells@.len() ==> (#[trigger] cells@[x])@.len() == h,
                    g == cell_values(cells@),
                    1 <= y < h - 1,
                    1 <= x,
                    x <= w - 1 || x == 1,
                    count <= (y - 1) * w + x,
                    forall|i: int| 0 <= i < groups@.len() ==> (#[trigger] groups@[i]).1@.len() <= count,
                    regions_wf(groups@, g, w as int, h as int),
                    forall|i: int, k: int| 0 <= i < groups@.len() && 0 <= k < groups@[i].1@.len() ==>
                        m0.tile((#[trigger] groups@[i].1@[k]).0 as int, groups@[i].1@[k].1 as int) == TileType::Floor,
                    w <= 10_000,
                    h <= 10_000,
                    scanned_groups(group_tiles(groups@), m0, x as int, y as int),
                decreases w - x,
            {
                if build_data.map.tiles[x as usize][y as usize] == TileType::Floor {
                    assert((y - 1) * w + x + 1 <= w * h) by (nonlinear_arith)
                        requires 1 <= y < h - 1, 1 <= x < w - 1;
                    let v = cells[x as usize][y as usize];
                    assert(g[x as int][y as int] == v);
                    let ghost before = groups@;
                    match find_region(&groups, v) {
                        Some(i) => {
                            let mut entry = (0, Vec::new());
                            std::mem::swap(&mut entry, &mut groups[i]);
                            let ghost e0 = entry.1@;
                            entry.1.push((x, y));
                            groups.set(i, entry);
                            proof {
                                assert(group_tiles(groups@) =~= group_tiles(before).update(i as int, group_tiles(before)[i as int].push((x, y))));
                                lemma_scan_add(group_tiles(before), group_tiles(groups@), m0, x as int, y as int, i as int);
                                assert forall|a: int, k: int| 0 <= a < groups@.len() && 0 <= k < groups@[a].1@.len() implies {
                                    let (px, py) = #[trigger] groups@[a].1@[k];
                                    &&& 1 <= px < w - 1
                                    &&& 1 <= py < h - 1
                                    &&& g[px as int][py as int] == groups@[a].0
                                    &&& m0.tile(px as int, py as int) == TileType::Floor
                                } by {
                                    if a != i {
                                        assert(groups@[a] == before[a]);
                                    } else if k < e0.len() {
                                        assert(groups@[a].1@[k] == before[a].1@[k]);
                                    }
                                }
                                assert forall|a: int, b: int| 0 <= a < b < groups@.len() implies (#[trigger] groups@[a]).0 != (#[trigger] groups@[b]).0 by {
                                    assert(groups@[a].0 == before[a].0);
                                    assert(groups@[b].0 == before[b].0);
                                }
                            }
                        },
                        None => {
                            let mut tiles: Vec<(i32, i32)> = Vec::new();
                            tiles.push((x, y));
                            groups.push((v, tiles));
                            proof {
                                assert(tiles@ =~= seq![(x, y)]);
                                assert(group_tiles(groups@) =~= group_tiles(before).push(seq![(x, y)]));
                                lemma_scan_add(group_tiles(before), group_tiles(groups@), m0, x as int, y as int, before.len() as int);
                                assert forall|a: int, k: int| 0 <= a < groups@.len() && 0 <= k < groups@[a].1@.len() implies {
                                    let (px, py) = #[trigger] groups@[a].1@[k];
                                    &&& 1 <= px < w - 1
                                    &&& 1 <= py < h - 1
                                    &&& g[px as int][py as int] == groups@[a].0
                                    &&& m0.tile(px as int, py as int) == TileType::Floor
                                } by {
                                    if a < before.len() {
                                        assert(groups@[a] == before[a]);
                                    }
                                }
                            }
                        },
                    }
                    count = count + 1;
                } else {
                    proof {
                        lemma_scan_skip(group_tiles(groups@), m0, x as int, y as int);
                    }
                }
                x = x + 1;
            }
            proof {
                lemma_scan_row(group_tiles(groups@), m0, x as int, y as int);
            }
            assert(x <= w);
            assert((y - 1) * w + x <= y * w) by (nonlinear_arith)
                requires x <= w;
            y = y + 1;
        }
        proof {
            assert(count < w * h) by (nonlinear_arith)
                requires count <= (y - 1) * w, y <= h - 1 || y == 1, 1 <= y, 0 < w, 0 < h;
        }
        let depth = build_data.map.depth;
        let ghost n = b0.spawn_list@.len();
        let ghost gts = group_tiles(groups@);
        proof {
            assert forall|i: int, k: int| 0 <= i < gts.len() && 0 <= k < gts[i].len() implies {
                let (x, y) = #[trigger] gts[i][k];
                &&& inner_floor(m0, x as int, y as int)
                &&& g[x as int][y as int] == g[gts[i][0].0 as int][gts[i][0].1 as int]
            } by {
                assert(gts[i] == groups@[i].1@);
                assert(gts[i][k] == groups@[i].1@[k]);
                assert(gts[i][0] == groups@[i].1@[0]);
            }
            assert forall|i: int, j: int| 0 <= i < j < gts.len() implies
                g[(#[trigger] gts[i])[0].0 as int][gts[i][0].1 as int] != g[(#[trigger] gts[j])[0].0 as int][gts[j][0].1 as int] by {
                assert(gts[i][0] == groups@[i].1@[0]);
                assert(gts[j][0] == groups@[j].1@[0]);
                assert(groups@[i].0 != groups@[j].0);
            }
            assert forall|px: int, py: int| #![trigger m0.tile(px, py)] inner_floor(m0, px, py) implies
                exists|i: int| 0 <= i < gts.len() && #[trigger] gts[i].contains((px as i32, py as i32)) by {
                assert(scan_before((px as i32, py as i32), (1i32, y)));
            }
            assert(floor_groups(gts, m0, g));
            assert(build_data.spawn_list@.subrange(n as int, build_data.spawn_list@.len() as int) =~= Seq::empty());
        }
        let mut r: usize = 0;
        while r < groups.len()
            invariant
                build_data.wf(),
                build_data.map == m0,
                m0 == b0.map,
                build_data.starting_position == b0.starting_position,
                build_data.rooms == b0.rooms,
                build_data.corridors == b0.corridors,
                build_data.width == b0.width,
                build_data.height == b0.height,
                build_data.history == b0.history,
                w == m0.width,
                h == m0.height,
                depth == m0.depth,
                -1_000_000_000 <= depth <= 1_000_000_000,
                table.spec_total() < i32::MAX,
                count < w * h,
                w * h <= i32::MAX,
                forall|i: int| 0 <= i < groups@.len() ==> (#[trigger] groups@[i]).1@.len() <= count,
                regions_wf(groups@, g, w as int, h as int),
                forall|i: int, k: int| 0 <= i < groups@.len() && 0 <= k < groups@[i].1@.len() ==>
                    m0.tile((#[trigger] groups@[i].1@[k]).0 as int, groups@[i].1@[k].1 as int) == TileType::Floor,
                r <= groups@.len(),
                gts == group_tiles(groups@),
                floor_groups(gts, m0, g),
                g == cell_values(cells@),
                regions_spawned(build_data.spawn_list@.subrange(n as int, build_data.spawn_list@.len() as int), gts, depth as int, table, r as int),
                build_data.spawn_list@.len() >= n,
                build_data.spawn_list@.subrange(0, n as int) == b0.spawn_list@,
                forall|i: int| n <= i < build_data.spawn_list@.len() ==> {
                    let (x, y) = (#[trigger] build_data.spawn_list@[i]).0;
                    &&& 1 <= x < w - 1
                    &&& 1 <= y < h - 1
                    &&& m0.tile(x as int, y as int) == TileType::Floor
                    &&& table_outcome(table, build_data.spawn_list@[i].1)
                },
            decreases groups@.len() - r,
        {
            let ghost before = build_data.spawn_list@;
            let ghost area = groups@[r as int].1@;
            assert(area.len() < i32::MAX);
            spawn_region(rng, &groups[r].1, depth, table, &mut build_data.spawn_list);
            proof {
                let added = build_data.spawn_list@.subrange(before.len() as int, build_data.spawn_list@.len() as int);
                assert forall|i: int| n <= i < build_data.spawn_list@.len() implies {
                    let (x, y) = (#[trigger] build_data.spawn_list@[i]).0;
                    &&& 1 <= x < w - 1
                    &&& 1 <= y < h - 1
                    &&& m0.tile(x as int, y as int) == TileType::Floor
                    &&& table_outcome(table, build_data.spawn_list@[i].1)
                } by {
                    if i < before.len() {
                        assert(build_data.spawn_list@.subrange(0, before.len() as int)[i] == before[i]);
                    } else {
                        let e = build_data.spawn_list@[i];
                        assert(added[i - before.len()] == e);
                        assert(area.contains(e.0));
                        let q = choose|q: int| 0 <= q < area.len() && area[q] == e.0;
                        assert(groups@[r as int].1@[q] == e.0);
                    }
                }
                assert(build_data.spawn_list@.subrange(0, n as int) =~= before.subrange(0, n as int));
                assert(area == gts[r as int]);
                let prev = before.subrange(n as int, before.len() as int);
                lemma_regions_spawned_step(prev, added, gts, depth as int, table, r as int);
                assert(build_data.spawn_list@.subrange(n as int, build_data.spawn_list@.len() as int) =~= prev + added);
            }
            r = r + 1;
        }
    }
}

} // verus!
