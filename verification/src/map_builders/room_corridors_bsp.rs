use vstd::prelude::*;

use crate::map_builders::common::{corridor_path, draw_corridor};
use crate::map_builders::room_corridors_dogleg::{corridors_carved, lemma_corridors_push};
use crate::map_builders::{room_on_map, BuilderMap};
use crate::rect::{spec_center, Rect};
use crate::rng::roll_dice;

verus! {

/// Joins each room to the next with a corridor between random points of the two.
pub struct BSPCorridors {}

/// Where a corridor may start or end in a room: a point of the rectangle short of its far
/// edges, or, for a circle, a point up to half its diameter less one (at least one) right
/// of and below its centre.
pub open spec fn corridor_spot(r: Rect, x: int, y: int) -> bool {
    match r.radius_doubled {
        Some(m) => {
            let reach = if m / 2 - 1 > 1 { m / 2 - 1 } else { 1 };
            &&& spec_center(r).0 < x <= spec_center(r).0 + reach
            &&& spec_center(r).1 < y <= spec_center(r).1 + reach
        },
        None => {
            &&& r.x1 <= x < r.x2
            &&& r.y1 <= y < r.y2
        },
    }
}

/// `c` is the corridor walked from some spot of `a` to some spot of `b`.
pub open spec fn corridor_between(c: Seq<(usize, usize)>, a: Rect, b: Rect) -> bool {
    exists|sx: int, sy: int, ex: int, ey: int| #![trigger corridor_path(sx, sy, ex, ey)]
        corridor_spot(a, sx, sy) && corridor_spot(b, ex, ey) && c == corridor_path(sx, sy, ex, ey)
}

/// A rectangle with room for a corridor spot: at least one tile wide and high.
pub open spec fn has_spots(r: Rect) -> bool {
    r.x1 < r.x2 && r.y1 < r.y2
}

/// Picks a random corridor spot in a room.
pub fn pick_spot(rng: &mut bracket_lib::random::RandomNumberGenerator, room: &Rect) -> (p: (i32, i32))
    requires
        room.wf(),
        has_spots(*room),
    ensures
        corridor_spot(*room, p.0 as int, p.1 as int),
        room.x1 <= p.0 <= room.x2,
        room.y1 <= p.1 <= room.y2,
{
    match room.radius_doubled {
        Some(m) => {
            let c = room.center();
            let reach = if m / 2 - 1 > 1 { m / 2 - 1 } else { 1 };
            (c.0 + roll_dice(rng, 1, reach), c.1 + roll_dice(rng, 1, reach))
        },
        None => {
            let dx = roll_dice(rng, 1, room.x2 - room.x1);
            let dy = roll_dice(rng, 1, room.y2 - room.y1);
            (room.x1 + (dx - 1), room.y1 + (dy - 1))
        },
    }
}

impl BSPCorridors {
    /// A corridor builder for rooms from space partitioning.
    pub fn new() -> (b: Box<BSPCorridors>) {
        Box::new(BSPCorridors {})
    }

    /// For each pair of consecutive rooms, digs a corridor from a random spot of the first
    /// to a random spot of the second and records it. The map gains exactly the corridors'
    /// tiles as floor.
    pub fn corridors(&mut self, rng: &mut bracket_lib::random::RandomNumberGenerator, build_data: &mut BuilderMap)
        requires
            old(build_data).wf(),
            old(build_data).rooms is Some,
            old(build_data).rooms->0@.len() >= 1,
            forall|i: int| 0 <= i < old(build_data).rooms->0@.len() ==> has_spots(#[trigger] old(build_data).rooms->0@[i]),
        ensures
            final(build_data).wf(),
            final(build_data).map.same_frame(old(build_data).map),
            final(build_data).spawn_list == old(build_data).spawn_list,
            final(build_data).starting_position == old(build_data).starting_position,
            final(build_data).rooms == old(build_data).rooms,
            final(build_data).width == old(build_data).width,
            final(build_data).height == old(build_data).height,
            final(build_data).corridors is Some,
            ({
                let rs = old(build_data).rooms->0@;
                let cs = final(build_data).corridors->0@;
                &&& cs.len() == rs.len() - 1
                &&& forall|i: int| #![trigger cs[i]] 0 <= i < cs.len() ==> corridor_between(cs[i]@, rs[i], rs[i + 1])
                &&& corridors_carved(old(build_data).map, final(build_data).map, cs)
            }),
    {
        let ghost b0 = *build_data;
        let rooms = match &build_data.rooms {
            Some(r) => r.clone(),
            None => Vec::new(),
        };
        let ghost rs = rooms@;
        assert(rs == b0.rooms->0@);
        let mut corridors: Vec<Vec<(usize, usize)>> = Vec::new();
        assert(corridors_carved(b0.map, build_data.map, corridors@));
        let mut i: usize = 0;
        while i < rooms.len() - 1
            invariant
                build_data.wf(),
                build_data.map.same_frame(b0.map),
                build_data.spawn_list == b0.spawn_list,
                build_data.starting_position == b0.starting_position,
                build_data.rooms == b0.rooms,
                build_data.corridors == b0.corridors,
                build_data.width == b0.width,
                build_data.height == b0.height,
                rs == rooms@,
                rs == b0.rooms->0@,
                rs.len() >= 1,
                forall|k: int| 0 <= k < rs.len() ==> room_on_map(#[trigger] rs[k], b0.width as int, b0.height as int),
                forall|k: int| 0 <= k < rs.len() ==> has_spots(#[trigger] rs[k]),
                i <= rs.len() - 1,
                corridors@.len() == i,
                forall|k: int| #![trigger corridors@[k]] 0 <= k < corridors@.len() ==> corridor_between(corridors@[k]@, rs[k], rs[k + 1]),
                corridors_carved(b0.map, build_data.map, corridors@),
            decreases rs.len() - 1 - i,
        {
            let room = rooms[i];
            let next_room = rooms[i + 1];
            assert(room_on_map(rs[i as int], b0.width as int, b0.height as int));
            assert(room_on_map(rs[i + 1], b0.width as int, b0.height as int));
            let start = pick_spot(rng, &room);
            let end = pick_spot(rng, &next_room);
            let ghost mid = build_data.map;
            let corridor = draw_corridor(&mut build_data.map, start.0, start.1, end.0, end.1);
            proof {
                lemma_corridors_push(b0.map, mid, build_data.map, corridors@, corridor);
            }
            proof {
                assert(corridor_spot(rs[i as int], start.0 as int, start.1 as int));
                assert(corridor_spot(rs[i + 1], end.0 as int, end.1 as int));
                assert(corridor@ == corridor_path(start.0 as int, start.1 as int, end.0 as int, end.1 as int));
                assert(corridor_between(corridor@, rs[i as int], rs[i + 1]));
            }
            let ghost old_c = corridors@;
            corridors.push(corridor);
            build_data.take_snapshot();
            proof {
                assert forall|k: int| #![trigger corridors@[k]] 0 <= k < corridors@.len() implies corridor_between(corridors@[k]@, rs[k], rs[k + 1]) by {
                    if k < i {
                        assert(corridors@[k] == old_c[k]);
                    }
                }
            }
            i = i + 1;
        }
        build_data.corridors = Some(corridors);
    }
}

} // verus!
