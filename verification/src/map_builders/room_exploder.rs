use vstd::prelude::*;

use crate::map::{GameMap, TileType};
use crate::map_builders::common::{paint, replace_tiles, Symmetry};
use crate::map_builders::drunkards::only_floored;
use crate::map_builders::{room_on_map, BuilderMap, MAX_MAP_SIDE};
use crate::rect::{spec_center, Rect};
use crate::rng::roll_dice;

verus! {

/// Where a digger stands after one stagger roll: 1 moves it west, 2 east, 3 north and any
/// other roll south, except that it does not move west or north from column or row 2 or
/// less, nor east or south from two tiles short of the far edge or beyond.
pub open spec fn digger_step(p: (int, int), roll: int, w: int, h: int) -> (int, int) {
    let (x, y) = p;
    if roll == 1 {
        if x > 2 { (x - 1, y) } else { p }
    } else if roll == 2 {
        if x < w - 2 { (x + 1, y) } else { p }
    } else if roll == 3 {
        if y > 2 { (x, y - 1) } else { p }
    } else {
        if y < h - 2 { (x, y + 1) } else { p }
    }
}

/// Where a digger that set out from `start` stands after its first `k` stagger rolls.
pub open spec fn digger_at(start: (int, int), rolls: Seq<i32>, k: int, w: int, h: int) -> (int, int)
    decreases k,
{
    if k <= 0 {
        start
    } else {
        digger_step(digger_at(start, rolls, k - 1, w, h), rolls[k - 1] as int, w, h)
    }
}

/// The digger stood on `(a, b)` before one of its first `n` rolls.
pub open spec fn digger_visits(start: (int, int), rolls: Seq<i32>, n: int, w: int, h: int, a: int, b: int) -> bool {
    exists|k: int| 0 <= k < n && #[trigger] digger_at(start, rolls, k, w, h) == (a, b)
}

/// One digger's walk: a tile it stood on, or that held a down staircase, is floor
/// afterwards; every other tile is as it was.
pub open spec fn digger_dug(old: GameMap, new: GameMap, start: (int, int), rolls: Seq<i32>) -> bool {
    &&& new.wf()
    &&& new.same_frame(old)
    &&& forall|a: int, b: int| #![trigger new.tile(a, b)] new.on_map(a, b) ==> new.tile(a, b) == if digger_visits(
        start, rolls, rolls.len() as int, old.width as int, old.height as int, a, b) || old.tile(a, b) == TileType::DownStairs {
        TileType::Floor
    } else {
        old.tile(a, b)
    }
}

/// A run of diggers: each map is the one before after a walk of twenty stagger rolls, each
/// from 1 to 4, from the centre of one of `rooms`.
pub open spec fn digger_run(maps: Seq<GameMap>, starts: Seq<(int, int)>, rolls: Seq<Seq<i32>>, rooms: Seq<Rect>) -> bool {
    &&& maps.len() == starts.len() + 1
    &&& rolls.len() == starts.len()
    &&& forall|i: int| 0 <= i < starts.len() ==> exists|r: int| 0 <= r < rooms.len() && #[trigger] starts[i] == spec_center(rooms[r])
    &&& forall|i: int| 0 <= i < rolls.len() ==> (#[trigger] rolls[i]).len() == 20
        && forall|k: int| 0 <= k < 20 ==> 1 <= #[trigger] rolls[i][k] <= 4
    &&& forall|i: int| 0 <= i < starts.len() ==> #[trigger] digger_dug(maps[i], maps[i + 1], starts[i], rolls[i])
}

/// Walks one digger from `start`, a step for each of `rolls`: it floors the tile it stands
/// on and marks it with a down staircase, then staggers; when it is done, every down staircase
/// on the map becomes floor. Says whether it stood on a wall.
pub fn walk_digger(map: &mut GameMap, start: (i32, i32), rolls: &Vec<i32>) -> (dug_wall: bool)
    requires
        old(map).wf(),
        old(map).width <= MAX_MAP_SIDE,
        old(map).height <= MAX_MAP_SIDE,
        old(map).on_map(start.0 as int, start.1 as int),
    ensures
        digger_dug(*old(map), *final(map), (start.0 as int, start.1 as int), rolls@),
        dug_wall == exists|k: int| 0 <= k < rolls@.len()
            && old(map).tile(#[trigger] digger_at((start.0 as int, start.1 as int), rolls@, k, old(map).width as int, old(map).height as int).0,
                digger_at((start.0 as int, start.1 as int), rolls@, k, old(map).width as int, old(map).height as int).1) == TileType::Wall,
{
    let ghost m0 = *map;
    let ghost st = (start.0 as int, start.1 as int);
    let ghost (wi, hi) = (m0.width as int, m0.height as int);
    let w = map.width;
    let h = map.height;
    let mut d_x = start.0;
    let mut d_y = start.1;
    let mut dug_wall = false;
    let mut k: usize = 0;
    while k < rolls.len()
        invariant
            map.wf(),
            map.same_frame(m0),
            w == m0.width && h == m0.height,
            w <= MAX_MAP_SIDE && h <= MAX_MAP_SIDE,
            st == (start.0 as int, start.1 as int),
            wi == w && hi == h,
            k <= rolls@.len(),
            (d_x as int, d_y as int) == digger_at(st, rolls@, k as int, wi, hi),
            0 <= d_x < w,
            0 <= d_y < h,
            forall|a: int, b: int| #![trigger map.tile(a, b)] map.on_map(a, b) ==> map.tile(a, b)
                == if digger_visits(st, rolls@, k as int, wi, hi, a, b) { TileType::DownStairs } else { m0.tile(a, b) },
            dug_wall == exists|j: int| 0 <= j < k && m0.tile(#[trigger] digger_at(st, rolls@, j, wi, hi).0, digger_at(st, rolls@, j, wi, hi).1) == TileType::Wall,
        decreases rolls@.len() - k,
    {
        let ghost here = (d_x as int, d_y as int);
        let ghost m1 = *map;
        proof {
            assert(map.tile(d_x as int, d_y as int) == map.tiles@[d_x as int]@[d_y as int]);
        }
        if map.tiles[d_x as usize][d_y as usize] == TileType::Wall {
            dug_wall = true;
        }
        proof {
            // A wall under the digger now is one it had not stood on.
            if digger_visits(st, rolls@, k as int, wi, hi, here.0, here.1) && m0.tile(here.0, here.1) == TileType::Wall {
                let j = choose|j: int| 0 <= j < k && #[trigger] digger_at(st, rolls@, j, wi, hi) == here;
                assert(m0.tile(digger_at(st, rolls@, j, wi, hi).0, digger_at(st, rolls@, j, wi, hi).1) == TileType::Wall);
            }
            if m1.tile(here.0, here.1) == TileType::Wall {
                assert(!digger_visits(st, rolls@, k as int, wi, hi, here.0, here.1));
            }
        }
        paint(map, Symmetry::NoSymmetry, 1, d_x, d_y);
        map.set_tile(d_x as usize, d_y as usize, TileType::DownStairs);
        let roll = rolls[k];
        if roll == 1 {
            if d_x > 2 {
                d_x = d_x - 1;
            }
        } else if roll == 2 {
            if d_x < w - 2 {
                d_x = d_x + 1;
            }
        } else if roll == 3 {
            if d_y > 2 {
                d_y = d_y - 1;
            }
        } else {
            if d_y < h - 2 {
                d_y = d_y + 1;
            }
        }
        proof {
            assert(digger_at(st, rolls@, k as int + 1, wi, hi) == digger_step(here, rolls@[k as int] as int, wi, hi));
            assert forall|a: int, b: int| #![trigger map.tile(a, b)] map.on_map(a, b) implies map.tile(a, b)
                == if digger_visits(st, rolls@, k as int + 1, wi, hi, a, b) { TileType::DownStairs } else { m0.tile(a, b) } by {
                if a == here.0 && b == here.1 {
                    assert(digger_at(st, rolls@, k as int, wi, hi) == (a, b));
                } else {
                    assert(m1.tile(a, b) == m1.tile(a, b));
                    if digger_visits(st, rolls@, k as int + 1, wi, hi, a, b) {
                        let j = choose|j: int| 0 <= j < k + 1 && #[trigger] digger_at(st, rolls@, j, wi, hi) == (a, b);
                        assert(j < k);
                    }
                }
            }
            assert(dug_wall == exists|j: int| 0 <= j < k + 1 && m0.tile(#[trigger] digger_at(st, rolls@, j, wi, hi).0, digger_at(st, rolls@, j, wi, hi).1) == TileType::Wall);
        }
        k = k + 1;
    }
    let ghost m2 = *map;
    replace_tiles(map, TileType::DownStairs, TileType::Floor);
    proof {
        assert forall|a: int, b: int| #![trigger map.tile(a, b)] map.on_map(a, b) implies map.tile(a, b) == if digger_visits(
            st, rolls@, rolls@.len() as int, wi, hi, a, b) || m0.tile(a, b) == TileType::DownStairs {
            TileType::Floor
        } else {
            m0.tile(a, b)
        } by {
            assert(m2.tile(a, b) == m2.tile(a, b));
        }
    }
    dug_wall
}

/// Sends short random diggers out from the centre of each room.
pub struct RoomExploder {}

impl RoomExploder {
    /// A room exploder.
    pub fn new() -> (b: Box<RoomExploder>) {
        Box::new(RoomExploder {})
    }

    /// For each room, rolls 1d20 - 5 diggers; each walks twenty random steps (1d4 each) from
    /// the room's centre, flooring where it goes and keeping two tiles from the edges once it
    /// gets there. Tiles only ever become floor; nothing but the tiles changes. How many
    /// diggers go and where they walk is left to the dice; a roll of 5 or less sends none.
    pub fn build(&mut self, rng: &mut bracket_lib::random::RandomNumberGenerator, build_data: &mut BuilderMap)
        requires
            old(build_data).wf(),
            old(build_data).rooms is Some,
        ensures
            final(build_data).wf(),
            final(build_data).same_but_tiles(*old(build_data)),
            only_floored(old(build_data).map, final(build_data).map),
            exists|maps: Seq<GameMap>, starts: Seq<(int, int)>, rolls: Seq<Seq<i32>>| #![trigger digger_run(maps, starts, rolls, old(build_data).rooms->0@)]
                digger_run(maps, starts, rolls, old(build_data).rooms->0@) && maps[0] == old(build_data).map
                && maps.last() == final(build_data).map && starts.len() <= 15 * old(build_data).rooms->0@.len(),
    {
        let ghost b0 = *build_data;
        let ghost m0 = b0.map;
        let rooms = match &build_data.rooms {
            Some(r) => r.clone(),
            None => Vec::new(),
        };
        let ghost rs = rooms@;
        assert(rs == b0.rooms->0@);
        let ghost mut maps: Seq<GameMap> = seq![m0];
        let ghost mut starts: Seq<(int, int)> = Seq::empty();
        let ghost mut all_rolls: Seq<Seq<i32>> = Seq::empty();
        let w = build_data.map.width;
        let h = build_data.map.height;
        let mut r: usize = 0;
        while r < rooms.len()
            invariant
                build_data.wf(),
                build_data.same_but_tiles(b0),
                w == build_data.map.width,
                h == build_data.map.height,
                rs == rooms@,
                forall|k: int| 0 <= k < rs.len() ==> room_on_map(#[trigger] rs[k], w as int, h as int),
                r <= rs.len(),
                only_floored(m0, build_data.map),
                digger_run(maps, starts, all_rolls, rs),
                maps[0] == m0,
                maps.last() == build_data.map,
                starts.len() <= 15 * r,
            decreases rs.len() - r,
        {
            assert(room_on_map(rs[r as int], w as int, h as int));
            let start = rooms[r].center();
            let n_diggers = roll_dice(rng, 1, 20) - 5;
            let mut d: i32 = 0;
            while d < n_diggers
                invariant
                    build_data.wf(),
                    build_data.same_but_tiles(b0),
                    w == build_data.map.width,
                    h == build_data.map.height,
                    0 <= start.0 < w,
                    0 <= start.1 < h,
                    (start.0 as int, start.1 as int) == spec_center(rs[r as int]),
                    r < rs.len(),
                    0 <= d,
                    d <= n_diggers || n_diggers <= 0,
                    n_diggers <= 0 ==> d == 0,
                    n_diggers <= 15,
                    only_floored(m0, build_data.map),
                    digger_run(maps, starts, all_rolls, rs),
                    maps[0] == m0,
                    maps.last() == build_data.map,
                    starts.len() <= 15 * r + d,
                decreases n_diggers - d,
            {
                let mut rolls: Vec<i32> = Vec::new();
                let mut s: usize = 0;
                while s < 20
                    invariant
                        s <= 20,
                        rolls@.len() == s,
                        forall|k: int| 0 <= k < s ==> 1 <= #[trigger] rolls@[k] <= 4,
                    decreases 20 - s,
                {
                    let roll = roll_dice(rng, 1, 4);
                    rolls.push(roll);
                    s = s + 1;
                }
                let ghost before = build_data.map;
                let dug_wall = walk_digger(&mut build_data.map, start, &rolls);
                if dug_wall {
                    build_data.take_snapshot();
                }
                proof {
                    let ghost (ms, ss, rls) = (maps, starts, all_rolls);
                    assert(before == ms.last());
                    assert forall|a: int, b: int| #![trigger build_data.map.tile(a, b)] build_data.map.on_map(a, b) implies
                        build_data.map.tile(a, b) == m0.tile(a, b) || build_data.map.tile(a, b) == TileType::Floor by {
                        assert(before.tile(a, b) == before.tile(a, b));
                    }
                    maps = maps.push(build_data.map);
                    starts = starts.push((start.0 as int, start.1 as int));
                    all_rolls = all_rolls.push(rolls@);
                    assert forall|i: int| 0 <= i < starts.len() implies exists|q: int| 0 <= q < rs.len() && #[trigger] starts[i] == spec_center(rs[q]) by {
                        if i < ss.len() {
                            assert(starts[i] == ss[i]);
                        } else {
                            assert(starts[i] == spec_center(rs[r as int]));
                        }
                    }
                    assert forall|i: int| 0 <= i < all_rolls.len() implies (#[trigger] all_rolls[i]).len() == 20
                        && forall|k: int| 0 <= k < 20 ==> 1 <= #[trigger] all_rolls[i][k] <= 4 by {
                        if i < rls.len() {
                            assert(all_rolls[i] == rls[i]);
                        }
                    }
                    assert forall|i: int| 0 <= i < starts.len() implies #[trigger] digger_dug(maps[i], maps[i + 1], starts[i], all_rolls[i]) by {
                        if i < ss.len() {
                            assert(maps[i] == ms[i] && maps[i + 1] == ms[i + 1] && starts[i] == ss[i] && all_rolls[i] == rls[i]);
                        }
                    }
                }
                d = d + 1;
            }
            assert(starts.len() <= 15 * (r + 1));
            r = r + 1;
        }
        assert(digger_run(maps, starts, all_rolls, rs));
    }
}

} // verus!
