use vstd::prelude::*;

use crate::components::Position;
use crate::map::{grid_set, grid_wf, GameMap, TileType};
use crate::map_builders::BuilderMap;
use crate::random_tables::EntityType;
use crate::rng::roll_dice;

verus! {

/// The builder of the town on the first level: a coast with piers, a walled town with
/// buildings, roads to their doors, and the way down by the east gate.
pub struct TownBuilder {}

/// A building: its corner, width and height.
pub type Building = (i32, i32, i32, i32);

/// `(x, y)` lies in the rows of the gap in the town wall around `gap`.
pub open spec fn in_gap(gap: int, y: int) -> bool {
    gap - 4 < y < gap + 4
}

/// The tile the town walls leave at `(x, y)` on a map `w` by `h`, over `old`: the north and
/// south walls, the west wall with a path outside it and the east wall, gravel between them,
/// and a road through the gap.
pub open spec fn walled_tile(w: int, h: int, gap: int, x: int, y: int, old: TileType) -> TileType {
    if (y == 1 || y == h - 2) && 30 <= x < w - 1 {
        TileType::Wall
    } else {
        wall_rows_tile(w, h, gap, x, y, old)
    }
}

/// The tile the rows of the town walls leave at `(x, y)`, before the north and south walls.
pub open spec fn wall_rows_tile(w: int, h: int, gap: int, x: int, y: int, old: TileType) -> TileType {
    if 1 <= y < h - 2 && !in_gap(gap, y) {
        if x == 30 || x == w - 2 {
            TileType::Wall
        } else if x == 29 {
            TileType::Floor
        } else if 31 <= x < w - 2 {
            TileType::Gravel
        } else {
            old
        }
    } else if 1 <= y < h - 2 && in_gap(gap, y) && 30 <= x < w {
        TileType::Road
    } else {
        old
    }
}

/// Whether a building may stand on `(x, y)` inside walls with a gap around `gap`.
pub open spec fn building_ground(w: int, h: int, gap: int, x: int, y: int) -> bool {
    &&& 3 <= y < h - 2
    &&& !in_gap(gap, y)
    &&& 31 <= x < w - 2
}

impl TownBuilder {
    /// A new town builder.
    pub fn new() -> (b: Box<TownBuilder>) {
        Box::new(TownBuilder {})
    }

    /// Covers the whole map with grass.
    pub fn grass_layer(build_data: &mut BuilderMap)
        requires
            old(build_data).wf(),
        ensures
            final(build_data).wf(),
            final(build_data).same_but_tiles(*old(build_data)),
            forall|x: int, y: int| #![trigger final(build_data).map.tile(x, y)] final(build_data).map.on_map(x, y) ==>
                final(build_data).map.tile(x, y) == TileType::Grass,
    {
        let ghost b0 = *build_data;
        let w = build_data.width;
        let h = build_data.height;
        let mut x: i32 = 0;
        while x < w
            invariant
                build_data.wf(),
                build_data.same_but_tiles(b0),
                w == b0.width && h == b0.height,
                0 <= x <= w,
                forall|a: int, b: int| #![trigger build_data.map.tile(a, b)] build_data.map.on_map(a, b) ==>
                    build_data.map.tile(a, b) == if a < x { TileType::Grass } else { b0.map.tile(a, b) },
            decreases w - x,
        {
            let mut y: i32 = 0;
            while y < h
                invariant
                    build_data.wf(),
                    build_data.same_but_tiles(b0),
                    w == b0.width && h == b0.height,
                    0 <= x < w,
                    0 <= y <= h,
                    forall|a: int, b: int| #![trigger build_data.map.tile(a, b)] build_data.map.on_map(a, b) ==>
                        build_data.map.tile(a, b) == if a < x || (a == x && b < y) { TileType::Grass } else { b0.map.tile(a, b) },
                decreases h - y,
            {
                build_data.map.set_tile(x as usize, y as usize, TileType::Grass);
                y = y + 1;
            }
            x = x + 1;
        }
        build_data.take_snapshot();
    }

    /// Builds the town walls with a gap at a random row `gap` between 6 and `height - 4`
    /// (see `walled_tile`), and gives back which tiles buildings may stand on (see
    /// `building_ground`) and the gap's row.
    pub fn town_walls(rng: &mut bracket_lib::random::RandomNumberGenerator, build_data: &mut BuilderMap) -> (r: (Vec<Vec<bool>>, i32))
        requires
            old(build_data).wf(),
            old(build_data).width >= 32,
            old(build_data).height >= 10,
        ensures
            final(build_data).wf(),
            final(build_data).same_but_tiles(*old(build_data)),
            6 <= r.1 <= old(build_data).height - 4,
            forall|x: int, y: int| #![trigger final(build_data).map.tile(x, y)] final(build_data).map.on_map(x, y) ==>
                final(build_data).map.tile(x, y) == walled_tile(old(build_data).width as int, old(build_data).height as int, r.1 as int,
                    x, y, old(build_data).map.tile(x, y)),
            grid_wf(r.0@, old(build_data).width as int, old(build_data).height as int),
            forall|x: int, y: int| #![trigger r.0@[x]@[y]] old(build_data).map.on_map(x, y) ==>
                r.0@[x]@[y] == building_ground(old(build_data).width as int, old(build_data).height as int, r.1 as int, x, y),
    {
        let ghost b0 = *build_data;
        let w = build_data.width;
        let h = build_data.height;
        let gap = roll_dice(rng, 1, h - 9) + 5;
        let mut available: Vec<Vec<bool>> = crate::map::new_grid(w as usize, h as usize, false);
        let mut y: i32 = 1;
        while y < h - 2
            invariant
                build_data.wf(),
                build_data.same_but_tiles(b0),
                w == b0.width && h == b0.height,
                w >= 32 && h >= 10,
                6 <= gap <= h - 4,
                1 <= y <= h - 2,
                grid_wf(available@, w as int, h as int),
                forall|a: int, b: int| #![trigger build_data.map.tile(a, b)] build_data.map.on_map(a, b) ==>
                    build_data.map.tile(a, b) == if b < y {
                        wall_rows_tile(w as int, h as int, gap as int, a, b, b0.map.tile(a, b))
                    } else {
                        b0.map.tile(a, b)
                    },
                forall|a: int, b: int| #![trigger available@[a]@[b]] 0 <= a < w && 0 <= b < h ==>
                    available@[a]@[b] == (b < y && building_ground(w as int, h as int, gap as int, a, b)),
            decreases h - 2 - y,
        {
            if !(y > gap - 4 && y < gap + 4) {
                build_data.map.set_tile(30, y as usize, TileType::Wall);
                build_data.map.set_tile(29, y as usize, TileType::Floor);
                build_data.map.set_tile((w - 2) as usize, y as usize, TileType::Wall);
                let mut x: i32 = 31;
                while x < w - 2
                    invariant
                        build_data.wf(),
                        build_data.same_but_tiles(b0),
                        w == b0.width && h == b0.height,
                        w >= 32 && h >= 10,
                        6 <= gap <= h - 4,
                        1 <= y < h - 2,
                        !in_gap(gap as int, y as int),
                        31 <= x <= if w - 2 > 31 { w - 2 } else { 31 },
                        grid_wf(available@, w as int, h as int),
                        forall|a: int, b: int| #![trigger build_data.map.tile(a, b)] build_data.map.on_map(a, b) ==>
                            build_data.map.tile(a, b) == if b < y || (b == y && (a == 29 || a == 30 || a == w - 2 || (31 <= a < x))) {
                                wall_rows_tile(w as int, h as int, gap as int, a, b, b0.map.tile(a, b))
                            } else {
                                b0.map.tile(a, b)
                            },
                        forall|a: int, b: int| #![trigger available@[a]@[b]] 0 <= a < w && 0 <= b < h ==>
                            available@[a]@[b] == ((b < y || (b == y && 31 <= a < x)) && building_ground(w as int, h as int, gap as int, a, b)),
                    decreases w - 2 - x,
                {
                    build_data.map.set_tile(x as usize, y as usize, TileType::Gravel);
                    if y > 2 && y < h - 1 {
                        let ghost before = available@;
                        grid_set(&mut available, x as usize, y as usize, true);
                        proof {
                            assert forall|a: int| 0 <= a < w implies (#[trigger] available@[a])@.len() == h by {
                                if a != x { assert(available@[a] == before[a]); }
                            }
                            assert forall|a: int, b: int| #![trigger available@[a]@[b]] 0 <= a < w && 0 <= b < h implies
                                available@[a]@[b] == ((b < y || (b == y && 31 <= a < x + 1)) && building_ground(w as int, h as int, gap as int, a, b)) by {
                                if a != x { assert(available@[a] == before[a]); }
                            }
                        }
                    }
                    x = x + 1;
                }
            } else {
                let mut x: i32 = 30;
                while x < w
                    invariant
                        build_data.wf(),
                        build_data.same_but_tiles(b0),
                        w == b0.width && h == b0.height,
                        w >= 32 && h >= 10,
                        6 <= gap <= h - 4,
                        1 <= y < h - 2,
                        in_gap(gap as int, y as int),
                        30 <= x <= w,
                        forall|a: int, b: int| #![trigger build_data.map.tile(a, b)] build_data.map.on_map(a, b) ==>
                            build_data.map.tile(a, b) == if b < y || (b == y && 30 <= a < x) {
                                wall_rows_tile(w as int, h as int, gap as int, a, b, b0.map.tile(a, b))
                            } else {
                                b0.map.tile(a, b)
                            },
                    decreases w - x,
                {
                    build_data.map.set_tile(x as usize, y as usize, TileType::Road);
                    x = x + 1;
                }
            }
            y = y + 1;
        }
        build_data.take_snapshot();
        let ghost mid = *build_data;
        let mut x: i32 = 30;
        while x < w - 1
            invariant
                build_data.wf(),
                build_data.same_but_tiles(b0),
                w == b0.width && h == b0.height,
                w >= 32 && h >= 10,
                6 <= gap <= h - 4,
                30 <= x <= w - 1,
                forall|a: int, b: int| #![trigger build_data.map.tile(a, b)] build_data.map.on_map(a, b) ==>
                    build_data.map.tile(a, b) == if (b == 1 || b == h - 2) && 30 <= a < x {
                        TileType::Wall
                    } else {
                        wall_rows_tile(w as int, h as int, gap as int, a, b, b0.map.tile(a, b))
                    },
            decreases w - 1 - x,
        {
            build_data.map.set_tile(x as usize, 1, TileType::Wall);
            build_data.map.set_tile(x as usize, (h - 2) as usize, TileType::Wall);
            x = x + 1;
        }
        build_data.take_snapshot();
        (available, gap)
    }
    /// Puts a door in each building: in a random column inside its walls, on its north
    /// side when its middle row is south of the gap, else on its south side. The door tile
    /// becomes floor and a door is to be spawned there. The doors come back in order.
    pub fn add_doors(rng: &mut bracket_lib::random::RandomNumberGenerator, build_data: &mut BuilderMap, buildings: &Vec<Building>, wall_gap_y: i32)
        -> (doors: Vec<(i32, i32)>)
        requires
            old(build_data).wf(),
            forall|i: int| 0 <= i < buildings@.len() ==> building_fits(#[trigger] buildings@[i], old(build_data).width as int, old(build_data).height as int),
        ensures
            final(build_data).wf(),
            final(build_data).map.same_frame(old(build_data).map),
            final(build_data).starting_position == old(build_data).starting_position,
            final(build_data).rooms == old(build_data).rooms,
            final(build_data).corridors == old(build_data).corridors,
            final(build_data).width == old(build_data).width,
            final(build_data).height == old(build_data).height,
            doors@.len() == buildings@.len(),
            forall|i: int| 0 <= i < doors@.len() ==> door_of(#[trigger] doors@[i], buildings@[i], wall_gap_y as int),
            final(build_data).spawn_list@ == old(build_data).spawn_list@ + door_spawns(doors@),
            forall|a: int, b: int| #![trigger final(build_data).map.tile(a, b)] final(build_data).map.on_map(a, b) ==>
                final(build_data).map.tile(a, b) == if doors@.contains((a as i32, b as i32)) { TileType::Floor } else { old(build_data).map.tile(a, b) },
    {
        let ghost b0 = *build_data;
        let mut doors: Vec<(i32, i32)> = Vec::new();
        let mut i: usize = 0;
        while i < buildings.len()
            invariant
                build_data.wf(),
                build_data.map.same_frame(b0.map),
                build_data.starting_position == b0.starting_position,
                build_data.rooms == b0.rooms,
                build_data.corridors == b0.corridors,
                build_data.width == b0.width,
                build_data.height == b0.height,
                forall|j: int| 0 <= j < buildings@.len() ==> building_fits(#[trigger] buildings@[j], b0.width as int, b0.height as int),
                i <= buildings@.len(),
                doors@.len() == i,
                forall|j: int| 0 <= j < i ==> door_of(#[trigger] doors@[j], buildings@[j], wall_gap_y as int),
                build_data.spawn_list@ == b0.spawn_list@ + door_spawns(doors@),
                forall|a: int, b: int| #![trigger build_data.map.tile(a, b)] build_data.map.on_map(a, b) ==>
                    build_data.map.tile(a, b) == if doors@.contains((a as i32, b as i32)) { TileType::Floor } else { b0.map.tile(a, b) },
            decreases buildings@.len() - i,
        {
            let b = buildings[i];
            assert(building_fits(buildings@[i as int], b0.width as int, b0.height as int));
            let door_x = b.0 + 1 + roll_dice(rng, 1, b.2 - 3);
            let cy = b.1 + b.3 / 2;
            let door_y = if cy > wall_gap_y { b.1 } else { b.1 + b.3 - 1 };
            let ghost before = doors@;
            build_data.map.set_tile(door_x as usize, door_y as usize, TileType::Floor);
            build_data.spawn_list.push(((door_x, door_y), EntityType::Door));
            doors.push((door_x, door_y));
            proof {
                assert(doors@ == before.push((door_x, door_y)));
                assert(door_spawns(doors@) =~= door_spawns(before).push(((door_x, door_y), EntityType::Door)));
                assert(build_data.spawn_list@ =~= b0.spawn_list@ + door_spawns(doors@));
                assert forall|j: int| 0 <= j < i + 1 implies door_of(#[trigger] doors@[j], buildings@[j], wall_gap_y as int) by {
                    if j < i { assert(doors@[j] == before[j]); }
                }
                assert forall|a: int, c: int| #![trigger build_data.map.tile(a, c)] build_data.map.on_map(a, c) implies
                    build_data.map.tile(a, c) == if doors@.contains((a as i32, c as i32)) { TileType::Floor } else { b0.map.tile(a, c) } by {
                    if before.contains((a as i32, c as i32)) {
                        let k = choose|k: int| 0 <= k < before.len() && before[k] == (a as i32, c as i32);
                        assert(doors@[k] == before[k]);
                    }
                    if doors@.contains((a as i32, c as i32)) && !before.contains((a as i32, c as i32)) {
                        let k = choose|k: int| 0 <= k < doors@.len() && doors@[k] == (a as i32, c as i32);
                        if k < before.len() { assert(before[k] == doors@[k]); }
                    }
                    if a == door_x && c == door_y {
                        assert(doors@[i as int] == (door_x, door_y));
                    }
                }
            }
            i = i + 1;
        }
        build_data.take_snapshot();
        doors
    }

    /// The index of the first building with the largest floor area.
    pub fn largest_building(buildings: &Vec<Building>) -> (k: usize)
        requires
            buildings@.len() > 0,
            forall|i: int| 0 <= i < buildings@.len() ==> 0 <= (#[trigger] buildings@[i]).2 <= 10_000 && 0 <= buildings@[i].3 <= 10_000,
        ensures
            k == largest_index(buildings@),
            k < buildings@.len(),
    {
        let mut best: usize = 0;
        let b0 = buildings[0];
        proof {
            assert(b0.2 * b0.3 <= 100_000_000 && b0.2 * b0.3 >= 0) by (nonlinear_arith)
                requires 0 <= b0.2 <= 10_000, 0 <= b0.3 <= 10_000;
            assert(largest_index(buildings@.subrange(0, 1)) == 0);
        }
        let mut best_area: i32 = b0.2 * b0.3;
        let mut i: usize = 1;
        while i < buildings.len()
            invariant
                1 <= i <= buildings@.len(),
                best < i,
                forall|j: int| 0 <= j < buildings@.len() ==> 0 <= (#[trigger] buildings@[j]).2 <= 10_000 && 0 <= buildings@[j].3 <= 10_000,
                best_area == area(buildings@[best as int]),
                best == largest_index(buildings@.subrange(0, i as int)),
            decreases buildings@.len() - i,
        {
            let b = buildings[i];
            proof {
                assert(buildings@.subrange(0, i + 1).drop_last() =~= buildings@.subrange(0, i as int));
                assert(buildings@.subrange(0, i + 1).last() == b);
                assert(buildings@.subrange(0, i as int)[best as int] == buildings@[best as int]);
            }
            proof {
                assert(b.2 * b.3 <= 100_000_000 && b.2 * b.3 >= 0) by (nonlinear_arith) requires 0 <= b.2 <= 10_000, 0 <= b.3 <= 10_000;
            }
            let a = b.2 * b.3;
            if a > best_area {
                best = i;
                best_area = a;
            }
            i = i + 1;
        }
        assert(buildings@.subrange(0, buildings@.len() as int) =~= buildings@);
        best
    }

    /// The last touches: the way down by the east gate, the start in the middle of the
    /// largest building, and the whole town in view.
    pub fn finish(build_data: &mut BuilderMap, buildings: &Vec<Building>, wall_gap_y: i32)
        requires
            old(build_data).wf(),
            buildings@.len() > 0,
            forall|i: int| 0 <= i < buildings@.len() ==> building_fits(#[trigger] buildings@[i], old(build_data).width as int, old(build_data).height as int),
            old(build_data).width >= 5,
            0 <= wall_gap_y < old(build_data).height,
        ensures
            final(build_data).wf(),
            final(build_data).spawn_list == old(build_data).spawn_list,
            final(build_data).rooms == old(build_data).rooms,
            final(build_data).width == old(build_data).width,
            final(build_data).height == old(build_data).height,
            forall|a: int, b: int| #![trigger final(build_data).map.tile(a, b)] final(build_data).map.on_map(a, b) ==>
                final(build_data).map.tile(a, b) == if a == old(build_data).width - 5 && b == wall_gap_y { TileType::DownStairs } else { old(build_data).map.tile(a, b) },
            ({
                let k = largest_index(buildings@);
                final(build_data).starting_position == Some(Position { x: (buildings@[k].0 + buildings@[k].2 / 2) as i32, y: (buildings@[k].1 + buildings@[k].3 / 2) as i32 })
            }),
            forall|a: int, b: int| 0 <= a < final(build_data).width && 0 <= b < final(build_data).height ==> #[trigger] final(build_data).map.visible_tiles@[a]@[b],
    {
        let w = build_data.width;
        build_data.map.set_tile((w - 5) as usize, wall_gap_y as usize, TileType::DownStairs);
        let k = Self::largest_building(buildings);
        let the_pub = buildings[k];
        assert(building_fits(buildings@[k as int], build_data.width as int, build_data.height as int));
        build_data.starting_position = Some(Position { x: the_pub.0 + the_pub.2 / 2, y: the_pub.1 + the_pub.3 / 2 });
        let h = build_data.height;
        build_data.map.visible_tiles = crate::map::new_grid(w as usize, h as usize, true);
        build_data.take_snapshot();
    }
}

/// The index of the first building with the largest area.
pub open spec fn largest_index(b: Seq<Building>) -> int
    decreases b.len(),
{
    if b.len() <= 1 {
        0
    } else {
        let p = largest_index(b.drop_last());
        if area(b.last()) > area(b[p]) { b.len() - 1 } else { p }
    }
}

/// The first largest building is as large as any, and larger than every one before it.
pub proof fn lemma_largest_index(b: Seq<Building>)
    requires
        b.len() > 0,
    ensures
        0 <= largest_index(b) < b.len(),
        forall|i: int| 0 <= i < b.len() ==> area(#[trigger] b[i]) <= area(b[largest_index(b)]),
        forall|i: int| 0 <= i < largest_index(b) ==> area(#[trigger] b[i]) < area(b[largest_index(b)]),
    decreases b.len(),
{
    if b.len() > 1 {
        lemma_largest_index(b.drop_last());
        let p = largest_index(b.drop_last());
        assert(b.drop_last()[p] == b[p]);
        assert forall|i: int| 0 <= i < b.len() implies area(#[trigger] b[i]) <= area(b[largest_index(b)]) by {
            if i < b.len() - 1 { assert(b.drop_last()[i] == b[i]); }
        }
        assert forall|i: int| 0 <= i < largest_index(b) implies area(#[trigger] b[i]) < area(b[largest_index(b)]) by {
            if i < b.len() - 1 { assert(b.drop_last()[i] == b[i]); }
        }
    }
}

/// A building's floor area.
pub open spec fn area(b: Building) -> int {
    b.2 * b.3
}

/// A building lies on a map `w` by `h`, is at least five tiles wide and two high, and its
/// numbers are small.
pub open spec fn building_fits(b: Building, w: int, h: int) -> bool {
    &&& 0 <= b.0 && b.0 + b.2 <= w
    &&& 0 <= b.1 && b.1 + b.3 <= h
    &&& 5 <= b.2 <= 10_000
    &&& 2 <= b.3 <= 10_000
}

/// `d` is a door `add_doors` may give building `b`: in a column inside its walls, on the
/// north side when its middle row is south of the gap, else on the south side.
pub open spec fn door_of(d: (i32, i32), b: Building, gap: int) -> bool {
    &&& b.0 + 2 <= d.0 <= b.0 + b.2 - 2
    &&& d.1 == if b.1 + b.3 / 2 > gap { b.1 as int } else { b.1 + b.3 - 1 }
}

/// A door to be spawned at each door position, in order.
pub open spec fn door_spawns(doors: Seq<(i32, i32)>) -> Seq<((i32, i32), EntityType)> {
    doors.map_values(|d: (i32, i32)| (d, EntityType::Door))
}

/// The tile the coast leaves at `(x, y)` when row `y` has `ws` tiles of deep water: deep
/// water, then three of shallow water; piers of wood may cover the water from the fourth
/// column on, and reach one tile onto the shore.
pub open spec fn coast_tile(ws: int, x: int, t: TileType, old: TileType) -> bool {
    if x < 3 {
        t == TileType::DeepWater
    } else if x < ws {
        t == TileType::DeepWater || t == TileType::WoodFloor
    } else if x < ws + 3 {
        t == TileType::ShallowWater || t == TileType::WoodFloor
    } else if x == ws + 3 {
        t == TileType::WoodFloor || t == old
    } else {
        t == old
    }
}

/// The road tiles among the first `n` tiles, row by row, in that order.
pub open spec fn roads_upto(m: GameMap, n: int) -> Seq<(i32, i32)>
    decreases n,
{
    if n <= 0 {
        Seq::empty()
    } else {
        let k = n - 1;
        let (x, y) = (k % (m.width as int), k / (m.width as int));
        if m.tile(x, y) == TileType::Road {
            roads_upto(m, n - 1).push((x as i32, y as i32))
        } else {
            roads_upto(m, n - 1)
        }
    }
}

/// The squared distance between two tiles.
pub open spec fn dist2(a: (i32, i32), b: (i32, i32)) -> int {
    (a.0 - b.0) * (a.0 - b.0) + (a.1 - b.1) * (a.1 - b.1)
}

/// The index of the first road tile nearest `d`.
pub open spec fn nearest_index(roads: Seq<(i32, i32)>, d: (i32, i32)) -> int
    decreases roads.len(),
{
    if roads.len() <= 1 {
        0
    } else {
        let p = nearest_index(roads.drop_last(), d);
        if dist2(roads.last(), d) < dist2(roads[p], d) { roads.len() - 1 } else { p }
    }
}

/// The tiles of a path of tile indices (row by row, `w` to a row), in order.
pub open spec fn path_tiles(steps: Seq<usize>, w: int) -> Seq<(i32, i32)> {
    steps.map_values(|s: usize| ((s as int % w) as i32, (s as int / w) as i32))
}

impl TownBuilder {
    /// Lays the coast along the west edge: row `y` gets `waves[y] + 14` tiles plus a roll of
    /// a six-sided die of deep water and then three of shallow water; then seven to ten
    /// piers of wood run out from a random row's shore to between the fourth and ninth
    /// column. The deep water widths come back (see `coast_tile`).
    pub fn water_and_piers(rng: &mut bracket_lib::random::RandomNumberGenerator, build_data: &mut BuilderMap, waves: &Vec<i32>)
        -> (ws: Vec<i32>)
        requires
            old(build_data).wf(),
            old(build_data).width >= 34,
            waves@.len() == old(build_data).height,
            forall|y: int| 0 <= y < waves@.len() ==> -10 <= #[trigger] waves@[y] <= 10,
        ensures
            final(build_data).wf(),
            final(build_data).same_but_tiles(*old(build_data)),
            ws@.len() == old(build_data).height,
            forall|y: int| 0 <= y < ws@.len() ==> waves@[y] + 15 <= #[trigger] ws@[y] <= waves@[y] + 20,
            forall|x: int, y: int| #![trigger final(build_data).map.tile(x, y)] final(build_data).map.on_map(x, y) ==>
                coast_tile(ws@[y] as int, x, final(build_data).map.tile(x, y), old(build_data).map.tile(x, y)),
    {
        let ghost b0 = *build_data;
        let w = build_data.width;
        let h = build_data.height;
        let mut ws: Vec<i32> = Vec::new();
        let mut y: i32 = 0;
        while y < h
            invariant
                build_data.wf(),
                build_data.same_but_tiles(b0),
                w == b0.width && h == b0.height,
                w >= 34,
                waves@.len() == h,
                forall|j: int| 0 <= j < waves@.len() ==> -10 <= #[trigger] waves@[j] <= 10,
                0 <= y <= h,
                ws@.len() == y,
                forall|j: int| 0 <= j < ws@.len() ==> waves@[j] + 15 <= #[trigger] ws@[j] <= waves@[j] + 20,
                forall|a: int, b: int| #![trigger build_data.map.tile(a, b)] build_data.map.on_map(a, b) ==>
                    build_data.map.tile(a, b) == if b < y {
                        if a < ws@[b] { TileType::DeepWater } else if a < ws@[b] + 3 { TileType::ShallowWater } else { b0.map.tile(a, b) }
                    } else {
                        b0.map.tile(a, b)
                    },
            decreases h - y,
        {
            let n_water = waves[y as usize] + 14 + roll_dice(rng, 1, 6);
            ws.push(n_water);
            let mut x: i32 = 0;
            while x < n_water + 3
                invariant
                    build_data.wf(),
                    build_data.same_but_tiles(b0),
                    w == b0.width && h == b0.height,
                    w >= 34,
                    0 <= y < h,
                    5 <= n_water <= 30,
                    ws@.len() == y + 1,
                    ws@[y as int] == n_water,
                    0 <= x <= n_water + 3,
                    forall|a: int, b: int| #![trigger build_data.map.tile(a, b)] build_data.map.on_map(a, b) ==>
                        build_data.map.tile(a, b) == if b < y || (b == y && a < x) {
                            if a < ws@[b] { TileType::DeepWater } else if a < ws@[b] + 3 { TileType::ShallowWater } else { b0.map.tile(a, b) }
                        } else {
                            b0.map.tile(a, b)
                        },
                decreases n_water + 3 - x,
            {
                if x < n_water {
                    build_data.map.set_tile(x as usize, y as usize, TileType::DeepWater);
                } else {
                    build_data.map.set_tile(x as usize, y as usize, TileType::ShallowWater);
                }
                x = x + 1;
            }
            build_data.take_snapshot();
            y = y + 1;
        }
        let piers = roll_dice(rng, 1, 4) + 6;
        let mut i: i32 = 0;
        while i < piers
            invariant
                build_data.wf(),
                build_data.same_but_tiles(b0),
                w == b0.width && h == b0.height,
                w >= 34,
                ws@.len() == h,
                forall|j: int| 0 <= j < ws@.len() ==> waves@[j] + 15 <= #[trigger] ws@[j] <= waves@[j] + 20,
                forall|j: int| 0 <= j < waves@.len() ==> -10 <= #[trigger] waves@[j] <= 10,
                waves@.len() == h,
                forall|a: int, b: int| #![trigger build_data.map.tile(a, b)] build_data.map.on_map(a, b) ==>
                    coast_tile(ws@[b] as int, a, build_data.map.tile(a, b), b0.map.tile(a, b)),
            decreases piers - i,
        {
            let py = roll_dice(rng, 1, h) - 1;
            let start = 2 + roll_dice(rng, 1, 6);
            let end = ws[py as usize] + 4;
            assert(ws@[py as int] <= 30);
            let mut x = start;
            while x < end
                invariant
                    build_data.wf(),
                    build_data.same_but_tiles(b0),
                    w == b0.width && h == b0.height,
                    w >= 34,
                    0 <= py < h,
                    ws@.len() == h,
                    end == ws@[py as int] + 4,
                    end <= 34,
                    3 <= start,
                    start <= x,
                    forall|a: int, b: int| #![trigger build_data.map.tile(a, b)] build_data.map.on_map(a, b) ==>
                        coast_tile(ws@[b] as int, a, build_data.map.tile(a, b), b0.map.tile(a, b)),
                decreases end - x,
            {
                build_data.map.set_tile(x as usize, py as usize, TileType::WoodFloor);
                x = x + 1;
            }
            i = i + 1;
        }
        build_data.take_snapshot();
        ws
    }

    /// The road tiles of the map, row by row.
    pub fn road_tiles(map: &GameMap) -> (roads: Vec<(i32, i32)>)
        requires
            map.wf(),
        ensures
            roads@ == roads_upto(*map, map.width * map.height),
            forall|i: int| 0 <= i < roads@.len() ==> map.on_map((#[trigger] roads@[i]).0 as int, roads@[i].1 as int),
    {
        let w = map.width;
        let h = map.height;
        let mut roads: Vec<(i32, i32)> = Vec::new();
        let mut y: i32 = 0;
        let ghost mut n: int = 0;
        while y < h
            invariant
                map.wf(),
                w == map.width && h == map.height,
                0 <= y <= h,
                n == y * w,
                roads@ == roads_upto(*map, n),
                forall|i: int| 0 <= i < roads@.len() ==> map.on_map((#[trigger] roads@[i]).0 as int, roads@[i].1 as int),
            decreases h - y,
        {
            let mut x: i32 = 0;
            while x < w
                invariant
                    map.wf(),
                    w == map.width && h == map.height,
                    0 <= y < h,
                    0 <= x <= w,
                    n == y * w + x,
                    roads@ == roads_upto(*map, n),
                    forall|i: int| 0 <= i < roads@.len() ==> map.on_map((#[trigger] roads@[i]).0 as int, roads@[i].1 as int),
                decreases w - x,
            {
                proof {
                    assert((y * w + x) % (w as int) == x && (y * w + x) / (w as int) == y) by (nonlinear_arith)
                        requires 0 <= x < w, 0 <= y;
                }
                if map.tiles[x as usize][y as usize] == TileType::Road {
                    roads.push((x, y));
                }
                proof {
                    n = n + 1;
                }
                x = x + 1;
            }
            assert((y + 1) * w == y * w + w) by (nonlinear_arith);
            y = y + 1;
        }
        assert(h * w == w * h) by (nonlinear_arith);
        roads
    }

    /// The index of the first road tile nearest the door `d`.
    pub fn nearest_road(roads: &Vec<(i32, i32)>, d: (i32, i32)) -> (k: usize)
        requires
            roads@.len() > 0,
            forall|i: int| 0 <= i < roads@.len() ==> 0 <= (#[trigger] roads@[i]).0 <= 10_000 && 0 <= roads@[i].1 <= 10_000,
            0 <= d.0 <= 10_000,
            0 <= d.1 <= 10_000,
        ensures
            k == nearest_index(roads@, d),
            k < roads@.len(),
    {
        let r0 = roads[0];
        let mut best: usize = 0;
        proof {
            assert(dist2(r0, d) <= 200_000_000) by (nonlinear_arith)
                requires 0 <= r0.0 <= 10_000, 0 <= r0.1 <= 10_000, 0 <= d.0 <= 10_000, 0 <= d.1 <= 10_000;
            assert(nearest_index(roads@.subrange(0, 1), d) == 0);
        }
        let dx0 = r0.0 as i64 - d.0 as i64;
        let dy0 = r0.1 as i64 - d.1 as i64;
        proof {
            assert(dx0 * dx0 <= 100_000_000 && dy0 * dy0 <= 100_000_000) by (nonlinear_arith)
                requires -10_000 <= dx0 <= 10_000, -10_000 <= dy0 <= 10_000;
            assert(dx0 * dx0 >= 0 && dy0 * dy0 >= 0) by (nonlinear_arith);
        }
        let mut best_d: i64 = dx0 * dx0 + dy0 * dy0;
        let mut i: usize = 1;
        while i < roads.len()
            invariant
                1 <= i <= roads@.len(),
                best < i,
                forall|j: int| 0 <= j < roads@.len() ==> 0 <= (#[trigger] roads@[j]).0 <= 10_000 && 0 <= roads@[j].1 <= 10_000,
                0 <= d.0 <= 10_000,
                0 <= d.1 <= 10_000,
                best_d == dist2(roads@[best as int], d),
                best == nearest_index(roads@.subrange(0, i as int), d),
            decreases roads@.len() - i,
        {
            let r = roads[i];
            proof {
                assert(roads@.subrange(0, i + 1).drop_last() =~= roads@.subrange(0, i as int));
                assert(roads@.subrange(0, i + 1).last() == r);
                assert(roads@.subrange(0, i as int)[best as int] == roads@[best as int]);
                assert(dist2(r, d) <= 200_000_000) by (nonlinear_arith)
                    requires 0 <= r.0 <= 10_000, 0 <= r.1 <= 10_000, 0 <= d.0 <= 10_000, 0 <= d.1 <= 10_000;
            }
            let dx = r.0 as i64 - d.0 as i64;
            let dy = r.1 as i64 - d.1 as i64;
            proof {
                assert(dx * dx <= 100_000_000 && dy * dy <= 100_000_000) by (nonlinear_arith)
                    requires -10_000 <= dx <= 10_000, -10_000 <= dy <= 10_000;
                assert(dx * dx >= 0 && dy * dy >= 0) by (nonlinear_arith);
            }
            let dd = dx * dx + dy * dy;
            if dd < best_d {
                best = i;
                best_d = dd;
            }
            i = i + 1;
        }
        assert(roads@.subrange(0, roads@.len() as int) =~= roads@);
        best
    }

    /// Lays road along a path of tile indices (row by row) and adds its tiles to the known
    /// roads.
    pub fn lay_path(build_data: &mut BuilderMap, steps: &Vec<usize>, roads: &mut Vec<(i32, i32)>)
        requires
            old(build_data).wf(),
            forall|i: int| 0 <= i < steps@.len() ==> #[trigger] steps@[i] < old(build_data).width * old(build_data).height,
        ensures
            final(build_data).wf(),
            final(build_data).same_but_tiles(*old(build_data)),
            final(roads)@ == old(roads)@ + path_tiles(steps@, old(build_data).width as int),
            forall|a: int, b: int| #![trigger final(build_data).map.tile(a, b)] final(build_data).map.on_map(a, b) ==>
                final(build_data).map.tile(a, b) == if path_tiles(steps@, old(build_data).width as int).contains((a as i32, b as i32)) {
                    TileType::Road
                } else {
                    old(build_data).map.tile(a, b)
                },
    {
        let ghost b0 = *build_data;
        let ghost r0 = roads@;
        let w = build_data.width as usize;
        let ghost pt = path_tiles(steps@, w as int);
        let mut i: usize = 0;
        while i < steps.len()
            invariant
                build_data.wf(),
                build_data.same_but_tiles(b0),
                w == b0.width,
                pt == path_tiles(steps@, w as int),
                forall|j: int| 0 <= j < steps@.len() ==> #[trigger] steps@[j] < b0.width * b0.height,
                i <= steps@.len(),
                roads@ == r0 + pt.subrange(0, i as int),
                forall|a: int, b: int| #![trigger build_data.map.tile(a, b)] build_data.map.on_map(a, b) ==>
                    build_data.map.tile(a, b) == if pt.subrange(0, i as int).contains((a as i32, b as i32)) { TileType::Road } else { b0.map.tile(a, b) },
            decreases steps@.len() - i,
        {
            let step = steps[i];
            let x = step % w;
            let y = step / w;
            proof {
                assert(y < b0.height) by (nonlinear_arith) requires step < w * b0.height, y == step / w, w > 0;
                assert(pt[i as int] == (x as i32, y as i32));
            }
            build_data.map.set_tile(x, y, TileType::Road);
            roads.push((x as i32, y as i32));
            proof {
                assert(pt.subrange(0, i + 1) =~= pt.subrange(0, i as int).push((x as i32, y as i32)));
                assert forall|a: int, b: int| #![trigger build_data.map.tile(a, b)] build_data.map.on_map(a, b) implies
                    build_data.map.tile(a, b) == if pt.subrange(0, i + 1).contains((a as i32, b as i32)) { TileType::Road } else { b0.map.tile(a, b) } by {
                    if pt.subrange(0, i as int).contains((a as i32, b as i32)) {
                        let k = choose|k: int| 0 <= k < i && #[trigger] pt.subrange(0, i as int)[k] == (a as i32, b as i32);
                        assert(pt.subrange(0, i + 1)[k] == (a as i32, b as i32));
                    }
                    if a == x && b == y {
                        assert(pt.subrange(0, i + 1)[i as int] == (a as i32, b as i32));
                    }
                    if pt.subrange(0, i + 1).contains((a as i32, b as i32)) && !(a == x && b == y) {
                        let k = choose|k: int| 0 <= k < i + 1 && #[trigger] pt.subrange(0, i + 1)[k] == (a as i32, b as i32);
                        assert(k < i);
                        assert(pt.subrange(0, i as int)[k] == (a as i32, b as i32));
                    }
                }
            }
            i = i + 1;
        }
        assert(pt.subrange(0, steps@.len() as int) =~= pt);
    }
}

/// How many tries the town gets to fit its twelve buildings.
pub const MAX_BUILDING_ATTEMPTS: u32 = 4_294_967_295;

/// `(x, y)` is on the map and free for building.
pub open spec fn free_ground(available: Seq<Vec<bool>>, w: int, h: int, x: int, y: int) -> bool {
    0 <= x < w && 0 <= y < h && available[x]@[y]
}

/// `(x, y)` is a tile of building `b`.
pub open spec fn in_building(b: Building, x: int, y: int) -> bool {
    b.0 <= x < b.0 + b.2 && b.1 <= y < b.1 + b.3
}

/// `(x, y)` is a tile of building `b` or next to one (across an edge).
pub open spec fn by_building(b: Building, x: int, y: int) -> bool {
    in_building(b, x, y) || in_building(b, x - 1, y) || in_building(b, x + 1, y) || in_building(b, x, y - 1) || in_building(b, x, y + 1)
}

/// The tile the outlining of buildings leaves at `(x, y)`: a wood floor tile inside the
/// town's frame with a neighbour that is not wood floor becomes wall.
pub open spec fn outlined_tile(m: GameMap, x: int, y: int) -> TileType {
    if 32 <= x < m.width - 2 && 2 <= y < m.height - 2 && m.tile(x, y) == TileType::WoodFloor
        && (m.tile(x - 1, y) != TileType::WoodFloor || m.tile(x + 1, y) != TileType::WoodFloor
            || m.tile(x, y - 1) != TileType::WoodFloor || m.tile(x, y + 1) != TileType::WoodFloor) {
        TileType::Wall
    } else {
        m.tile(x, y)
    }
}

impl TownBuilder {
    /// Whether every tile of the `bw` by `bh` rectangle at `(bx, by)` is on the map and free
    /// for building.
    fn rect_available(available: &Vec<Vec<bool>>, w: i32, h: i32, bx: i32, by: i32, bw: i32, bh: i32) -> (r: bool)
        requires
            grid_wf(available@, w as int, h as int),
            0 < w <= 10_000,
            0 < h <= 10_000,
            -10_000 <= bx <= 10_000,
            -10_000 <= by <= 10_000,
            0 <= bw <= 100,
            0 <= bh <= 100,
        ensures
            r == forall|x: int, y: int| bx <= x < bx + bw && by <= y < by + bh ==> #[trigger] free_ground(available@, w as int, h as int, x, y),
    {
        let mut possible = true;
        let mut y = by;
        while y < by + bh
            invariant
                grid_wf(available@, w as int, h as int),
                0 < w <= 10_000,
                0 < h <= 10_000,
                by <= y <= by + bh,
                -10_000 <= bx <= 10_000,
                -10_000 <= by <= 10_000,
                0 <= bw <= 100,
                0 <= bh <= 100,
                possible == forall|x: int, yy: int| bx <= x < bx + bw && by <= yy < y ==> #[trigger] free_ground(available@, w as int, h as int, x, yy),
            decreases by + bh - y,
        {
            let mut x = bx;
            while x < bx + bw
                invariant
                    grid_wf(available@, w as int, h as int),
                    0 < w <= 10_000,
                    0 < h <= 10_000,
                    by <= y < by + bh,
                    bx <= x <= bx + bw,
                    -10_000 <= bx <= 10_000,
                    -10_000 <= by <= 10_000,
                    0 <= bw <= 100,
                    0 <= bh <= 100,
                    possible == forall|xx: int, yy: int| (bx <= xx < bx + bw && by <= yy < y) || (bx <= xx < x && yy == y)
                        ==> #[trigger] free_ground(available@, w as int, h as int, xx, yy),
                decreases bx + bw - x,
            {
                let ok = if x < 0 || x > w - 1 || y < 0 || y > h - 1 {
                    false
                } else {
                    available[x as usize][y as usize]
                };
                assert(ok == free_ground(available@, w as int, h as int, x as int, y as int));
                if !ok {
                    possible = false;
                }
                x = x + 1;
            }
            y = y + 1;
        }
        possible
    }

    /// Floors building `b` with wood and takes it and the tiles next to it off the ground
    /// free for building.
    fn place_building(build_data: &mut BuilderMap, available: &mut Vec<Vec<bool>>, b: Building)
        requires
            old(build_data).wf(),
            grid_wf(old(available)@, old(build_data).width as int, old(build_data).height as int),
            1 <= b.0 && b.0 + b.2 < old(build_data).width,
            1 <= b.1 && b.1 + b.3 < old(build_data).height,
            0 <= b.2 <= 100,
            0 <= b.3 <= 100,
        ensures
            final(build_data).wf(),
            final(build_data).same_but_tiles(*old(build_data)),
            grid_wf(final(available)@, old(build_data).width as int, old(build_data).height as int),
            forall|x: int, y: int| #![trigger final(build_data).map.tile(x, y)] final(build_data).map.on_map(x, y) ==>
                final(build_data).map.tile(x, y) == if in_building(b, x, y) { TileType::WoodFloor } else { old(build_data).map.tile(x, y) },
            forall|x: int, y: int| #![trigger final(available)@[x]@[y]] 0 <= x < old(build_data).width && 0 <= y < old(build_data).height ==>
                final(available)@[x]@[y] == (old(available)@[x]@[y] && !by_building(b, x, y)),
    {
        let ghost b0 = *build_data;
        let ghost a0 = available@;
        let w = build_data.width;
        let h = build_data.height;
        let mut y = b.1;
        while y < b.1 + b.3
            invariant
                build_data.wf(),
                build_data.same_but_tiles(b0),
                w == b0.width && h == b0.height,
                1 <= b.0 && b.0 + b.2 < w,
                1 <= b.1 && b.1 + b.3 < h,
                0 <= b.2 <= 100,
                0 <= b.3 <= 100,
                b.1 <= y <= b.1 + b.3,
                grid_wf(available@, w as int, h as int),
                forall|x: int, yy: int| #![trigger build_data.map.tile(x, yy)] build_data.map.on_map(x, yy) ==>
                    build_data.map.tile(x, yy) == if in_building(b, x, yy) && yy < y { TileType::WoodFloor } else { b0.map.tile(x, yy) },
                forall|x: int, yy: int| #![trigger available@[x]@[yy]] 0 <= x < w && 0 <= yy < h ==>
                    available@[x]@[yy] == (a0[x]@[yy] && !by_building((b.0, b.1, b.2, (y - b.1) as i32), x, yy)),
            decreases b.1 + b.3 - y,
        {
            let mut x = b.0;
            while x < b.0 + b.2
                invariant
                    build_data.wf(),
                    build_data.same_but_tiles(b0),
                    w == b0.width && h == b0.height,
                    1 <= b.0 && b.0 + b.2 < w,
                    1 <= b.1 && b.1 + b.3 < h,
                    0 <= b.2 <= 100,
                    0 <= b.3 <= 100,
                    b.1 <= y < b.1 + b.3,
                    b.0 <= x <= b.0 + b.2,
                    grid_wf(available@, w as int, h as int),
                    forall|xx: int, yy: int| #![trigger build_data.map.tile(xx, yy)] build_data.map.on_map(xx, yy) ==>
                        build_data.map.tile(xx, yy) == if in_building(b, xx, yy) && (yy < y || (yy == y && xx < x)) { TileType::WoodFloor } else { b0.map.tile(xx, yy) },
                    forall|xx: int, yy: int| #![trigger available@[xx]@[yy]] 0 <= xx < w && 0 <= yy < h ==>
                        available@[xx]@[yy] == (a0[xx]@[yy] && !by_building((b.0, b.1, b.2, (y - b.1) as i32), xx, yy)
                            && !by_building((b.0, y, (x - b.0) as i32, 1), xx, yy)),
                decreases b.0 + b.2 - x,
            {
                build_data.map.set_tile(x as usize, y as usize, TileType::WoodFloor);
                Self::clear_ground(available, w, h, x, y);
                Self::clear_ground(available, w, h, x - 1, y);
                Self::clear_ground(available, w, h, x + 1, y);
                Self::clear_ground(available, w, h, x, y - 1);
                Self::clear_ground(available, w, h, x, y + 1);
                x = x + 1;
            }
            y = y + 1;
        }
    }

    /// Takes `(x, y)` off the ground free for building.
    fn clear_ground(available: &mut Vec<Vec<bool>>, w: i32, h: i32, x: i32, y: i32)
        requires
            grid_wf(old(available)@, w as int, h as int),
            0 <= x < w,
            0 <= y < h,
        ensures
            grid_wf(final(available)@, w as int, h as int),
            forall|a: int, b: int| #![trigger final(available)@[a]@[b]] 0 <= a < w && 0 <= b < h ==>
                final(available)@[a]@[b] == (old(available)@[a]@[b] && !(a == x && b == y)),
    {
        let ghost before = available@;
        grid_set(available, x as usize, y as usize, false);
        proof {
            assert forall|a: int| 0 <= a < w implies (#[trigger] available@[a])@.len() == h by {
                if a != x { assert(available@[a] == before[a]); }
            }
            assert forall|a: int, b: int| #![trigger available@[a]@[b]] 0 <= a < w && 0 <= b < h implies
                available@[a]@[b] == (before[a]@[b] && !(a == x && b == y)) by {
                if a != x { assert(available@[a] == before[a]); }
            }
        }
    }
}

/// `(x, y)` is a tile of one of the buildings.
pub open spec fn in_some_building(bs: Seq<Building>, x: int, y: int) -> bool {
    exists|i: int| 0 <= i < bs.len() && #[trigger] in_building(bs[i], x, y)
}

/// The tile at `(x, y)` once the buildings `bs` are floored with wood.
pub open spec fn floored_tile(m: GameMap, bs: Seq<Building>, x: int, y: int) -> TileType {
    if in_some_building(bs, x, y) { TileType::WoodFloor } else { m.tile(x, y) }
}

/// Some building of `bs` covers or adjoins `(x, y)`.
pub open spec fn by_some_building(bs: Seq<Building>, x: int, y: int) -> bool {
    exists|i: int| 0 <= i < bs.len() && #[trigger] by_building(bs[i], x, y)
}

/// The tile at `(x, y)` once the buildings `bs` are floored with wood and the wood floor is
/// outlined with walls (as `outlined_tile` does).
pub open spec fn built_tile(m: GameMap, bs: Seq<Building>, x: int, y: int) -> TileType {
    if 32 <= x < m.width - 2 && 2 <= y < m.height - 2 && floored_tile(m, bs, x, y) == TileType::WoodFloor
        && (floored_tile(m, bs, x - 1, y) != TileType::WoodFloor || floored_tile(m, bs, x + 1, y) != TileType::WoodFloor
            || floored_tile(m, bs, x, y - 1) != TileType::WoodFloor || floored_tile(m, bs, x, y + 1) != TileType::WoodFloor) {
        TileType::Wall
    } else {
        floored_tile(m, bs, x, y)
    }
}

/// No tile of one building lies in or next to another.
pub open spec fn buildings_apart(bs: Seq<Building>) -> bool {
    forall|i: int, j: int, x: int, y: int| 0 <= i < bs.len() && 0 <= j < bs.len() && i != j && #[trigger] in_building(bs[j], x, y)
        ==> !#[trigger] by_building(bs[i], x, y)
}

impl TownBuilder {
    /// Turns the edge tiles of the wooden buildings into walls (see `outlined_tile`).
    pub fn outline_buildings(build_data: &mut BuilderMap)
        requires
            old(build_data).wf(),
        ensures
            final(build_data).wf(),
            final(build_data).same_but_tiles(*old(build_data)),
            forall|x: int, y: int| #![trigger final(build_data).map.tile(x, y)] final(build_data).map.on_map(x, y) ==>
                final(build_data).map.tile(x, y) == outlined_tile(old(build_data).map, x, y),
    {
        let ghost b0 = *build_data;
        let w = build_data.width;
        let h = build_data.height;
        let mut to_wall: Vec<(i32, i32)> = Vec::new();
        let mut y: i32 = 2;
        while y < h - 2
            invariant
                *build_data == b0,
                b0.wf(),
                w == b0.width && h == b0.height,
                2 <= y <= if h - 2 > 2 { h - 2 } else { 2 },
                forall|k: int| 0 <= k < to_wall@.len() ==> b0.map.on_map((#[trigger] to_wall@[k]).0 as int, to_wall@[k].1 as int)
                    && outlined_tile(b0.map, to_wall@[k].0 as int, to_wall@[k].1 as int) == TileType::Wall
                    && to_wall@[k].1 < y,
                forall|a: int, b: int| #![trigger outlined_tile(b0.map, a, b)] b0.map.on_map(a, b) && b < y
                    && outlined_tile(b0.map, a, b) != b0.map.tile(a, b) ==> to_wall@.contains((a as i32, b as i32)),
            decreases h - y,
        {
            let mut x: i32 = 32;
            while x < w - 2
                invariant
                    *build_data == b0,
                    b0.wf(),
                    w == b0.width && h == b0.height,
                    2 <= y < h - 2,
                    32 <= x <= if w - 2 > 32 { w - 2 } else { 32 },
                    forall|k: int| 0 <= k < to_wall@.len() ==> b0.map.on_map((#[trigger] to_wall@[k]).0 as int, to_wall@[k].1 as int)
                        && outlined_tile(b0.map, to_wall@[k].0 as int, to_wall@[k].1 as int) == TileType::Wall
                        && (to_wall@[k].1 < y || (to_wall@[k].1 == y && to_wall@[k].0 < x)),
                    forall|a: int, b: int| #![trigger outlined_tile(b0.map, a, b)] b0.map.on_map(a, b) && (b < y || (b == y && a < x))
                        && outlined_tile(b0.map, a, b) != b0.map.tile(a, b) ==> to_wall@.contains((a as i32, b as i32)),
                decreases w - 2 - x,
            {
                let (xu, yu) = (x as usize, y as usize);
                let t = build_data.map.tiles[xu][yu];
                if t == TileType::WoodFloor {
                    let edge = build_data.map.tiles[xu - 1][yu] != TileType::WoodFloor || build_data.map.tiles[xu + 1][yu] != TileType::WoodFloor
                        || build_data.map.tiles[xu][yu - 1] != TileType::WoodFloor || build_data.map.tiles[xu][yu + 1] != TileType::WoodFloor;
                    if edge {
                        let ghost before = to_wall@;
                        to_wall.push((x, y));
                        proof {
                            assert(to_wall@[before.len() as int] == (x, y));
                            assert forall|k: int| 0 <= k < before.len() implies to_wall@[k] == before[k] by {}
                        }
                    }
                }
                proof {
                    assert forall|a: int, b: int| #![trigger outlined_tile(b0.map, a, b)] b0.map.on_map(a, b) && (b < y || (b == y && a < x + 1))
                        && outlined_tile(b0.map, a, b) != b0.map.tile(a, b) implies to_wall@.contains((a as i32, b as i32)) by {
                        if a == x && b == y {
                            assert(to_wall@[to_wall@.len() - 1] == (x, y));
                        }
                    }
                }
                x = x + 1;
            }
            y = y + 1;
        }
        let mut k: usize = 0;
        while k < to_wall.len()
            invariant
                build_data.wf(),
                build_data.same_but_tiles(b0),
                forall|j: int| 0 <= j < to_wall@.len() ==> b0.map.on_map((#[trigger] to_wall@[j]).0 as int, to_wall@[j].1 as int)
                    && outlined_tile(b0.map, to_wall@[j].0 as int, to_wall@[j].1 as int) == TileType::Wall,
                forall|a: int, b: int| #![trigger outlined_tile(b0.map, a, b)] b0.map.on_map(a, b)
                    && outlined_tile(b0.map, a, b) != b0.map.tile(a, b) ==> to_wall@.contains((a as i32, b as i32)),
                k <= to_wall@.len(),
                forall|a: int, b: int| #![trigger build_data.map.tile(a, b)] build_data.map.on_map(a, b) ==>
                    build_data.map.tile(a, b) == if to_wall@.subrange(0, k as int).contains((a as i32, b as i32)) { TileType::Wall } else { b0.map.tile(a, b) },
            decreases to_wall@.len() - k,
        {
            let (x, y) = to_wall[k];
            build_data.map.set_tile(x as usize, y as usize, TileType::Wall);
            proof {
                assert forall|a: int, b: int| #![trigger build_data.map.tile(a, b)] build_data.map.on_map(a, b) implies
                    build_data.map.tile(a, b) == if to_wall@.subrange(0, k + 1).contains((a as i32, b as i32)) { TileType::Wall } else { b0.map.tile(a, b) } by {
                    if to_wall@.subrange(0, k as int).contains((a as i32, b as i32)) {
                        let j = choose|j: int| 0 <= j < k && #[trigger] to_wall@.subrange(0, k as int)[j] == (a as i32, b as i32);
                        assert(to_wall@.subrange(0, k + 1)[j] == (a as i32, b as i32));
                    }
                    if a == x && b == y {
                        assert(to_wall@.subrange(0, k + 1)[k as int] == (a as i32, b as i32));
                    }
                    if to_wall@.subrange(0, k + 1).contains((a as i32, b as i32)) && !(a == x && b == y) {
                        let j = choose|j: int| 0 <= j < k + 1 && #[trigger] to_wall@.subrange(0, k + 1)[j] == (a as i32, b as i32);
                        assert(j < k);
                        assert(to_wall@.subrange(0, k as int)[j] == (a as i32, b as i32));
                    }
                }
            }
            k = k + 1;
        }
        proof {
            assert(to_wall@.subrange(0, to_wall@.len() as int) =~= to_wall@);
            assert forall|a: int, b: int| #![trigger build_data.map.tile(a, b)] build_data.map.on_map(a, b) implies
                build_data.map.tile(a, b) == outlined_tile(b0.map, a, b) by {
                if to_wall@.contains((a as i32, b as i32)) {
                    let j = choose|j: int| 0 <= j < to_wall@.len() && #[trigger] to_wall@[j] == (a as i32, b as i32);
                    assert(outlined_tile(b0.map, to_wall@[j].0 as int, to_wall@[j].1 as int) == TileType::Wall);
                } else {
                    assert(outlined_tile(b0.map, a, b) == b0.map.tile(a, b));
                }
            }
        }
    }
}

impl TownBuilder {
    /// Raises up to twelve buildings of five to twelve tiles a side at random spots, each on
    /// ground still free (which it and the tiles next to it then stop being), and outlines
    /// them with walls. The buildings come back with the number of tries spent; they lie on
    /// ground that was free, and no two touch; there are twelve unless every one of
    /// `MAX_BUILDING_ATTEMPTS` tries was spent. Tiles outside them do not change, but for
    /// wood floor that the outlining walls.
    pub fn buildings(rng: &mut bracket_lib::random::RandomNumberGenerator, build_data: &mut BuilderMap, available: &mut Vec<Vec<bool>>)
        -> (r: (Vec<Building>, u32))
        requires
            old(build_data).wf(),
            old(build_data).width >= 33,
            grid_wf(old(available)@, old(build_data).width as int, old(build_data).height as int),
            forall|x: int, y: int| #![trigger old(available)@[x]@[y]] 0 <= x < old(build_data).width && 0 <= y < old(build_data).height
                && old(available)@[x]@[y] ==> 31 <= x < old(build_data).width - 2 && 3 <= y < old(build_data).height - 2,
        ensures
            r.0@.len() == 12 || r.1 == MAX_BUILDING_ATTEMPTS,
            final(build_data).wf(),
            final(build_data).same_but_tiles(*old(build_data)),
            r.0@.len() <= 12,
            forall|i: int| 0 <= i < r.0@.len() ==> 5 <= (#[trigger] r.0@[i]).2 <= 12 && 5 <= r.0@[i].3 <= 12,
            forall|i: int, x: int, y: int| 0 <= i < r.0@.len() && #[trigger] in_building(r.0@[i], x, y) ==>
                free_ground(old(available)@, old(build_data).width as int, old(build_data).height as int, x, y),
            buildings_apart(r.0@),
            forall|x: int, y: int| #![trigger final(build_data).map.tile(x, y)] final(build_data).map.on_map(x, y) ==>
                if in_some_building(r.0@, x, y) {
                    final(build_data).map.tile(x, y) == TileType::WoodFloor || final(build_data).map.tile(x, y) == TileType::Wall
                } else {
                    final(build_data).map.tile(x, y) == old(build_data).map.tile(x, y)
                        || (old(build_data).map.tile(x, y) == TileType::WoodFloor && final(build_data).map.tile(x, y) == TileType::Wall)
                },
            forall|x: int, y: int| #![trigger final(build_data).map.tile(x, y)] final(build_data).map.on_map(x, y) ==>
                final(build_data).map.tile(x, y) == built_tile(old(build_data).map, r.0@, x, y),
            grid_wf(final(available)@, old(build_data).width as int, old(build_data).height as int),
            forall|x: int, y: int| #![trigger final(available)@[x]@[y]] 0 <= x < old(build_data).width && 0 <= y < old(build_data).height ==>
                final(available)@[x]@[y] == (old(available)@[x]@[y] && !by_some_building(r.0@, x, y)),
    {
        let ghost b0 = *build_data;
        let ghost a0 = available@;
        let w = build_data.width;
        let h = build_data.height;
        let mut bs: Vec<Building> = Vec::new();
        let mut attempts: u32 = 0;
        while bs.len() < 12 && attempts < MAX_BUILDING_ATTEMPTS
            invariant
                build_data.wf(),
                build_data.same_but_tiles(b0),
                w == b0.width && h == b0.height,
                w >= 33,
                w <= 10_000 && h <= 10_000,
                grid_wf(available@, w as int, h as int),
                grid_wf(a0, w as int, h as int),
                forall|x: int, y: int| #![trigger a0[x]@[y]] 0 <= x < w && 0 <= y < h && a0[x]@[y] ==> 31 <= x < w - 2 && 3 <= y < h - 2,
                forall|x: int, y: int| #![trigger available@[x]@[y]] 0 <= x < w && 0 <= y < h && available@[x]@[y] ==> a0[x]@[y]
                    && forall|i: int| 0 <= i < bs@.len() ==> !#[trigger] by_building(bs@[i], x, y),
                bs@.len() <= 12,
                forall|i: int| 0 <= i < bs@.len() ==> 5 <= (#[trigger] bs@[i]).2 <= 12 && 5 <= bs@[i].3 <= 12,
                forall|i: int, x: int, y: int| 0 <= i < bs@.len() && #[trigger] in_building(bs@[i], x, y) ==>
                    free_ground(a0, w as int, h as int, x, y),
                buildings_apart(bs@),
                forall|x: int, y: int| #![trigger build_data.map.tile(x, y)] build_data.map.on_map(x, y) ==>
                    build_data.map.tile(x, y) == if in_some_building(bs@, x, y) { TileType::WoodFloor } else { b0.map.tile(x, y) },
                forall|x: int, y: int| #![trigger available@[x]@[y]] 0 <= x < w && 0 <= y < h ==>
                    available@[x]@[y] == (a0[x]@[y] && !by_some_building(bs@, x, y)),
            decreases 12 - bs@.len(), MAX_BUILDING_ATTEMPTS - attempts,
        {
            attempts = attempts + 1;
            let bx = roll_dice(rng, 1, w - 32) + 30;
            let by = roll_dice(rng, 1, h) - 2;
            let bw = roll_dice(rng, 1, 8) + 4;
            let bh = roll_dice(rng, 1, 8) + 4;
            if Self::rect_available(available, w, h, bx, by, bw, bh) {
                let b: Building = (bx, by, bw, bh);
                proof {
                    assert(free_ground(available@, w as int, h as int, bx as int, by as int));
                    assert(free_ground(available@, w as int, h as int, (bx + bw - 1) as int, (by + bh - 1) as int));
                }
                let ghost prev = bs@;
                let ghost av = available@;
                let ghost before = *build_data;
                Self::place_building(build_data, available, b);
                bs.push(b);
                proof {
                    assert(bs@ == prev.push(b));
                    assert forall|i: int, x: int, y: int| 0 <= i < bs@.len() && #[trigger] in_building(bs@[i], x, y) implies
                        free_ground(a0, w as int, h as int, x, y) by {
                        if i < prev.len() {
                            assert(bs@[i] == prev[i]);
                        } else {
                            assert(free_ground(av, w as int, h as int, x, y));
                        }
                    }
                    assert forall|i: int, j: int, x: int, y: int| 0 <= i < bs@.len() && 0 <= j < bs@.len() && i != j
                        && #[trigger] in_building(bs@[j], x, y) implies !#[trigger] by_building(bs@[i], x, y) by {
                        if i < prev.len() && j < prev.len() {
                            assert(bs@[i] == prev[i] && bs@[j] == prev[j]);
                        } else if j == prev.len() {
                            assert(bs@[i] == prev[i]);
                            assert(free_ground(av, w as int, h as int, x, y));
                        } else {
                            assert(bs@[j] == prev[j]);
                            assert(free_ground(a0, w as int, h as int, x, y));
                            if by_building(b, x, y) {
                                // (x, y) is a tile of an earlier building next to the new one:
                                // then one of its neighbours is a tile of the new building,
                                // which was free, so not next to the earlier building.
                                lemma_neighbour_of_building(prev[j], b, x, y, av, w as int, h as int, prev, j);
                            }
                        }
                    }
                    assert forall|x: int, y: int| #![trigger available@[x]@[y]] 0 <= x < w && 0 <= y < h && available@[x]@[y] implies a0[x]@[y]
                        && forall|i: int| 0 <= i < bs@.len() ==> !#[trigger] by_building(bs@[i], x, y) by {
                        assert forall|i: int| 0 <= i < bs@.len() implies !#[trigger] by_building(bs@[i], x, y) by {
                            if i < prev.len() { assert(bs@[i] == prev[i]); }
                        }
                    }
                    assert forall|x: int, y: int| #![trigger available@[x]@[y]] 0 <= x < w && 0 <= y < h implies
                        available@[x]@[y] == (a0[x]@[y] && !by_some_building(bs@, x, y)) by {
                        if by_some_building(prev, x, y) {
                            let i = choose|i: int| 0 <= i < prev.len() && #[trigger] by_building(prev[i], x, y);
                            assert(bs@[i] == prev[i]);
                        }
                        if by_building(b, x, y) {
                            assert(bs@[prev.len() as int] == b);
                        }
                        if by_some_building(bs@, x, y) && !by_building(b, x, y) {
                            let i = choose|i: int| 0 <= i < bs@.len() && #[trigger] by_building(bs@[i], x, y);
                            assert(i < prev.len());
                            assert(bs@[i] == prev[i]);
                        }
                    }
                    assert forall|x: int, y: int| #![trigger build_data.map.tile(x, y)] build_data.map.on_map(x, y) implies
                        build_data.map.tile(x, y) == if in_some_building(bs@, x, y) { TileType::WoodFloor } else { b0.map.tile(x, y) } by {
                        if in_some_building(prev, x, y) {
                            let i = choose|i: int| 0 <= i < prev.len() && #[trigger] in_building(prev[i], x, y);
                            assert(bs@[i] == prev[i]);
                        }
                        if in_building(b, x, y) {
                            assert(bs@[prev.len() as int] == b);
                        }
                        if in_some_building(bs@, x, y) && !in_building(b, x, y) {
                            let i = choose|i: int| 0 <= i < bs@.len() && #[trigger] in_building(bs@[i], x, y);
                            assert(i < prev.len());
                            assert(bs@[i] == prev[i]);
                        }
                    }
                }
                build_data.take_snapshot();
            }
        }
        let ghost mid = *build_data;
        Self::outline_buildings(build_data);
        build_data.take_snapshot();
        proof {
            assert forall|x: int, y: int| #![trigger build_data.map.tile(x, y)] build_data.map.on_map(x, y) implies
                build_data.map.tile(x, y) == built_tile(b0.map, bs@, x, y) by {
                assert(build_data.map.tile(x, y) == outlined_tile(mid.map, x, y));
                assert(mid.map.tile(x, y) == floored_tile(b0.map, bs@, x, y));
                if 32 <= x < w - 2 && 2 <= y < h - 2 {
                    assert(mid.map.tile(x - 1, y) == floored_tile(b0.map, bs@, x - 1, y));
                    assert(mid.map.tile(x + 1, y) == floored_tile(b0.map, bs@, x + 1, y));
                    assert(mid.map.tile(x, y - 1) == floored_tile(b0.map, bs@, x, y - 1));
                    assert(mid.map.tile(x, y + 1) == floored_tile(b0.map, bs@, x, y + 1));
                }
            }
        }
        (bs, attempts)
    }
}

/// A tile of an earlier building is not next to a new building whose tiles were all free:
/// else a tile of the new one would be next to the earlier one.
proof fn lemma_neighbour_of_building(old_b: Building, b: Building, x: int, y: int, av: Seq<Vec<bool>>, w: int, h: int,
    prev: Seq<Building>, j: int)
    requires
        0 <= j < prev.len(),
        prev[j] == old_b,
        in_building(old_b, x, y),
        forall|xx: int, yy: int| in_building(b, xx, yy) ==> #[trigger] free_ground(av, w, h, xx, yy),
        forall|xx: int, yy: int| #![trigger av[xx]@[yy]] 0 <= xx < w && 0 <= yy < h && av[xx]@[yy]
            ==> forall|i: int| 0 <= i < prev.len() ==> !#[trigger] by_building(prev[i], xx, yy),
    ensures
        !by_building(b, x, y),
{
    if !by_building(b, x, y) {
    } else if in_building(b, x, y) {
        assert(free_ground(av, w, h, x, y));
        assert(by_building(prev[j], x, y));
    } else if in_building(b, x - 1, y) {
        assert(free_ground(av, w, h, x - 1, y));
        assert(by_building(prev[j], x - 1, y));
    } else if in_building(b, x + 1, y) {
        assert(free_ground(av, w, h, x + 1, y));
        assert(by_building(prev[j], x + 1, y));
    } else if in_building(b, x, y - 1) {
        assert(free_ground(av, w, h, x, y - 1));
        assert(by_building(prev[j], x, y - 1));
    } else {
        assert(free_ground(av, w, h, x, y + 1));
        assert(by_building(prev[j], x, y + 1));
    }
}

} // verus!
