use vstd::prelude::*;

use crate::map::{GameMap, TileType};
use crate::map_builders::BuilderMap;
use crate::random_tables::EntityType;
use crate::rng::roll_dice;

verus! {

/// Places doors where corridors meet rooms, or in narrow gaps.
pub struct DoorPlacement {}

/// The tests for a door across a passage running left to right, up to the last one: floor
/// here and to both sides, a wall above. (The test against the map's height is made on
/// the column.)
pub open spec fn row_door_reached(m: GameMap, x: int, y: int) -> bool {
    &&& m.tile(x, y) == TileType::Floor
    &&& x > 1 && m.tile(x - 1, y) == TileType::Floor
    &&& x < m.width - 2 && m.tile(x + 1, y) == TileType::Floor
    &&& y > 1 && m.tile(x, y - 1) == TileType::Wall
    &&& x < m.height - 2
}

/// The tests for a door across a passage running up and down, up to the last one.
pub open spec fn column_door_reached(m: GameMap, x: int, y: int) -> bool {
    &&& m.tile(x, y) == TileType::Floor
    &&& x > 1 && m.tile(x - 1, y) == TileType::Wall
    &&& x < m.width - 2 && m.tile(x + 1, y) == TileType::Wall
    &&& y > 1 && m.tile(x, y - 1) == TileType::Floor
    &&& x < m.height - 2
}

/// A door fits at `(x, y)`: floor between two floors and two walls, one way or the other.
pub open spec fn spec_door_possible(m: GameMap, x: int, y: int) -> bool {
    ||| row_door_reached(m, x, y) && m.tile(x, y + 1) == TileType::Wall
    ||| column_door_reached(m, x, y) && m.tile(x, y + 1) == TileType::Floor
}

/// A door only ever goes on a floor tile that has floor on two opposite sides and wall on
/// the other two: floor left and right with wall above and below, or wall left and right
/// with floor above and below; and such a tile takes one when its column lies past the
/// second and before the second-last, and its row past the second (the column also below
/// the map's height less two, as the test reads).
pub proof fn lemma_door_in_a_gap(m: GameMap, x: int, y: int)
    ensures
        spec_door_possible(m, x, y) ==> m.tile(x, y) == TileType::Floor,
        spec_door_possible(m, x, y) ==> {
            ||| m.tile(x - 1, y) == TileType::Floor && m.tile(x + 1, y) == TileType::Floor
                && m.tile(x, y - 1) == TileType::Wall && m.tile(x, y + 1) == TileType::Wall
            ||| m.tile(x - 1, y) == TileType::Wall && m.tile(x + 1, y) == TileType::Wall
                && m.tile(x, y - 1) == TileType::Floor && m.tile(x, y + 1) == TileType::Floor
        },
        1 < x < m.width - 2 && x < m.height - 2 && 1 < y && m.tile(x, y) == TileType::Floor
            && m.tile(x - 1, y) == TileType::Floor && m.tile(x + 1, y) == TileType::Floor
            && m.tile(x, y - 1) == TileType::Wall && m.tile(x, y + 1) == TileType::Wall ==> spec_door_possible(m, x, y),
        1 < x < m.width - 2 && x < m.height - 2 && 1 < y && m.tile(x, y) == TileType::Floor
            && m.tile(x - 1, y) == TileType::Wall && m.tile(x + 1, y) == TileType::Wall
            && m.tile(x, y - 1) == TileType::Floor && m.tile(x, y + 1) == TileType::Floor ==> spec_door_possible(m, x, y),
{
}

/// Testing `(x, y)` never looks below the map: on the last row the tests stop before the
/// tile below.
pub open spec fn door_test_safe(m: GameMap, x: int, y: int) -> bool {
    y + 1 < m.height || (!row_door_reached(m, x, y) && !column_door_reached(m, x, y))
}

/// The doors that the first tiles of the corridors longer than two tiles call for, in order.
pub open spec fn corridor_doors(m: GameMap, cs: Seq<Vec<(usize, usize)>>) -> Seq<((i32, i32), EntityType)>
    decreases cs.len(),
{
    if cs.len() == 0 {
        Seq::empty()
    } else {
        let prev = corridor_doors(m, cs.drop_last());
        let c = cs.last()@;
        if c.len() > 2 && spec_door_possible(m, c[0].0 as int, c[0].1 as int) {
            prev.push(((c[0].0 as i32, c[0].1 as i32), EntityType::Door))
        } else {
            prev
        }
    }
}

/// Whether a door fits at `(x, y)`.
pub fn door_possible(map: &GameMap, x: usize, y: usize) -> (r: bool)
    requires
        map.wf(),
        map.on_map(x as int, y as int),
        door_test_safe(*map, x as int, y as int),
    ensures
        r == spec_door_possible(*map, x as int, y as int),
{
    let w = map.width;
    let h = map.height;
    if map.tiles[x][y] == TileType::Floor && (x > 1 && map.tiles[x - 1][y] == TileType::Floor)
        && (x < (w - 2) as usize && map.tiles[x + 1][y] == TileType::Floor)
        && (y > 1 && map.tiles[x][y - 1] == TileType::Wall)
        && (x < (h - 2) as usize && map.tiles[x][y + 1] == TileType::Wall) {
        return true;
    }
    if map.tiles[x][y] == TileType::Floor && (x > 1 && map.tiles[x - 1][y] == TileType::Wall)
        && (x < (w - 2) as usize && map.tiles[x + 1][y] == TileType::Wall)
        && (y > 1 && map.tiles[x][y - 1] == TileType::Floor)
        && (x < (h - 2) as usize && map.tiles[x][y + 1] == TileType::Floor) {
        return true;
    }
    false
}

impl DoorPlacement {
    /// A door placer.
    pub fn new() -> (b: Box<DoorPlacement>) {
        Box::new(DoorPlacement {})
    }

    /// With corridors recorded: a door at the first tile of each corridor longer than two
    /// tiles where one fits, in corridor order. Without: a door, with chance one in three,
    /// at each tile where one fits, column by column. The doors are added to the spawn
    /// list; nothing else changes.
    pub fn door(&mut self, rng: &mut bracket_lib::random::RandomNumberGenerator, build_data: &mut BuilderMap)
        requires
            old(build_data).wf(),
            old(build_data).corridors matches Some(cs) ==> forall|i: int| 0 <= i < cs@.len() && (#[trigger] cs@[i])@.len() > 2 ==> {
                &&& old(build_data).map.on_map(cs@[i]@[0].0 as int, cs@[i]@[0].1 as int)
                &&& door_test_safe(old(build_data).map, cs@[i]@[0].0 as int, cs@[i]@[0].1 as int)
            },
            old(build_data).corridors is None ==> forall|x: int, y: int| #![trigger old(build_data).map.tile(x, y)]
                old(build_data).map.on_map(x, y) ==> door_test_safe(old(build_data).map, x, y),
        ensures
            final(build_data).wf(),
            final(build_data).map == old(build_data).map,
            final(build_data).starting_position == old(build_data).starting_position,
            final(build_data).rooms == old(build_data).rooms,
            final(build_data).corridors == old(build_data).corridors,
            final(build_data).width == old(build_data).width,
            final(build_data).height == old(build_data).height,
            final(build_data).history == old(build_data).history,
            old(build_data).corridors matches Some(cs) ==>
                final(build_data).spawn_list@ == old(build_data).spawn_list@ + corridor_doors(old(build_data).map, cs@),
            old(build_data).corridors is None ==> {
                let n = old(build_data).spawn_list@.len();
                let added = final(build_data).spawn_list@.subrange(n as int, final(build_data).spawn_list@.len() as int);
                &&& final(build_data).spawn_list@.len() >= n
                &&& final(build_data).spawn_list@.subrange(0, n as int) == old(build_data).spawn_list@
                &&& forall|i: int| 0 <= i < added.len() ==> {
                    &&& (#[trigger] added[i]).1 == EntityType::Door
                    &&& old(build_data).map.on_map(added[i].0.0 as int, added[i].0.1 as int)
                    &&& spec_door_possible(old(build_data).map, added[i].0.0 as int, added[i].0.1 as int)
                }
                &&& forall|i: int, j: int| 0 <= i < j < added.len() ==> (#[trigger] added[i]).0 != (#[trigger] added[j]).0
            },
    {
        let ghost b0 = *build_data;
        let ghost m0 = b0.map;
        match &build_data.corridors {
            Some(halls) => {
                let ghost cs = halls@;
                assert(cs == b0.corridors->0@);
                let mut i: usize = 0;
                while i < halls.len()
                    invariant
                        build_data.wf(),
                        build_data.map == m0,
                        build_data.starting_position == b0.starting_position,
                        build_data.rooms == b0.rooms,
                        build_data.corridors == b0.corridors,
                        build_data.width == b0.width,
                        build_data.height == b0.height,
                        build_data.history == b0.history,
                        cs == halls@,
                        forall|k: int| 0 <= k < cs.len() && (#[trigger] cs[k])@.len() > 2 ==> {
                            &&& m0.on_map(cs[k]@[0].0 as int, cs[k]@[0].1 as int)
                            &&& door_test_safe(m0, cs[k]@[0].0 as int, cs[k]@[0].1 as int)
                        },
                        i <= cs.len(),
                        build_data.spawn_list@ == b0.spawn_list@ + corridor_doors(m0, cs.subrange(0, i as int)),
                    decreases cs.len() - i,
                {
                    let hall = &halls[i];
                    proof {
                        assert(cs.subrange(0, i + 1).drop_last() =~= cs.subrange(0, i as int));
                        assert(cs.subrange(0, i + 1).last() == cs[i as int]);
                    }
                    if hall.len() > 2 {
                        let (hx, hy) = hall[0];
                        if door_possible(&build_data.map, hx, hy) {
                            build_data.spawn_list.push(((hx as i32, hy as i32), EntityType::Door));
                        }
                    }
                    i = i + 1;
                }
                assert(cs.subrange(0, cs.len() as int) =~= cs);
            },
            None => {
                let w = build_data.map.width;
                let h = build_data.map.height;
                let ghost n = b0.spawn_list@.len();
                let mut x: i32 = 0;
                while x < w
                    invariant
                        build_data.wf(),
                        build_data.map == m0,
                        build_data.starting_position == b0.starting_position,
                        build_data.rooms == b0.rooms,
                        build_data.corridors == b0.corridors,
                        build_data.width == b0.width,
                        build_data.height == b0.height,
                        build_data.history == b0.history,
                        w == m0.width,
                        h == m0.height,
                        forall|a: int, b: int| #![trigger m0.tile(a, b)] m0.on_map(a, b) ==> door_test_safe(m0, a, b),
                        0 <= x <= w,
                        build_data.spawn_list@.len() >= n,
                        build_data.spawn_list@.subrange(0, n as int) == b0.spawn_list@,
                        forall|i: int| n <= i < build_data.spawn_list@.len() ==> {
                            &&& (#[trigger] build_data.spawn_list@[i]).1 == EntityType::Door
                            &&& m0.on_map(build_data.spawn_list@[i].0.0 as int, build_data.spawn_list@[i].0.1 as int)
                            &&& spec_door_possible(m0, build_data.spawn_list@[i].0.0 as int, build_data.spawn_list@[i].0.1 as int)
                            &&& build_data.spawn_list@[i].0.0 < x
                        },
                        forall|i: int, j: int| n <= i < j < build_data.spawn_list@.len() ==>
                            (#[trigger] build_data.spawn_list@[i]).0.0 < (#[trigger] build_data.spawn_list@[j]).0.0
                            || build_data.spawn_list@[i].0.0 == build_data.spawn_list@[j].0.0 && build_data.spawn_list@[i].0.1 < build_data.spawn_list@[j].0.1,
                    decreases w - x,
                {
                    let mut y: i32 = 0;
                    while y < h
                        invariant
                            build_data.wf(),
                            build_data.map == m0,
                            build_data.starting_position == b0.starting_position,
                            build_data.rooms == b0.rooms,
                            build_data.corridors == b0.corridors,
                            build_data.width == b0.width,
                            build_data.height == b0.height,
                            build_data.history == b0.history,
                            w == m0.width,
                            h == m0.height,
                            forall|a: int, b: int| #![trigger m0.tile(a, b)] m0.on_map(a, b) ==> door_test_safe(m0, a, b),
                            0 <= x < w,
                            0 <= y <= h,
                            build_data.spawn_list@.len() >= n,
                            build_data.spawn_list@.subrange(0, n as int) == b0.spawn_list@,
                            forall|i: int| n <= i < build_data.spawn_list@.len() ==> {
                                &&& (#[trigger] build_data.spawn_list@[i]).1 == EntityType::Door
                                &&& m0.on_map(build_data.spawn_list@[i].0.0 as int, build_data.spawn_list@[i].0.1 as int)
                                &&& spec_door_possible(m0, build_data.spawn_list@[i].0.0 as int, build_data.spawn_list@[i].0.1 as int)
                                &&& (build_data.spawn_list@[i].0.0 < x || build_data.spawn_list@[i].0.0 == x && build_data.spawn_list@[i].0.1 < y)
                            },
                            forall|i: int, j: int| n <= i < j < build_data.spawn_list@.len() ==>
                                (#[trigger] build_data.spawn_list@[i]).0.0 < (#[trigger] build_data.spawn_list@[j]).0.0
                                || build_data.spawn_list@[i].0.0 == build_data.spawn_list@[j].0.0 && build_data.spawn_list@[i].0.1 < build_data.spawn_list@[j].0.1,
                        decreases h - y,
                    {
                        assert(door_test_safe(m0, x as int, y as int) || !m0.on_map(x as int, y as int));
                        assert(m0.tile(x as int, y as int) == m0.tile(x as int, y as int));
                        if build_data.map.tiles[x as usize][y as usize] == TileType::Floor
                            && door_possible(&build_data.map, x as usize, y as usize) && roll_dice(rng, 1, 3) == 1 {
                            let ghost before = build_data.spawn_list@;
                            build_data.spawn_list.push(((x, y), EntityType::Door));
                            proof {
                                assert(build_data.spawn_list@.subrange(0, n as int) =~= before.subrange(0, n as int));
                            }
                        }
                        y = y + 1;
                    }
                    x = x + 1;
                }
                proof {
                    let added = build_data.spawn_list@.subrange(n as int, build_data.spawn_list@.len() as int);
                    assert forall|i: int| 0 <= i < added.len() implies {
                        &&& (#[trigger] added[i]).1 == EntityType::Door
                        &&& m0.on_map(added[i].0.0 as int, added[i].0.1 as int)
                        &&& spec_door_possible(m0, added[i].0.0 as int, added[i].0.1 as int)
                    } by {
                        assert(added[i] == build_data.spawn_list@[n + i]);
                    }
                    assert forall|i: int, j: int| 0 <= i < j < added.len() implies (#[trigger] added[i]).0 != (#[trigger] added[j]).0 by {
                        assert(added[i] == build_data.spawn_list@[n + i]);
                        assert(added[j] == build_data.spawn_list@[n + j]);
                    }
                }
            },
        }
    }
}

} // verus!
