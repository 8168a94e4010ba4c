use vstd::prelude::*;

use crate::map::{GameMap, TileType};
use crate::map_builders::common::{apply_room_to_map, in_room_interior};
use crate::map_builders::{room_on_map, BuilderMap};
use crate::rect::{spec_center, Rect};
use crate::rng::roll_dice;

verus! {

/// Draws the rooms found so far onto the map, each as a rectangle or a circle.
pub struct RoomDrawer {}

/// The smaller side of a room.
pub open spec fn min_side(r: Rect) -> int {
    if r.x2 - r.x1 <= r.y2 - r.y1 { r.x2 - r.x1 } else { r.y2 - r.y1 }
}

/// `(x, y)` lies in the room's box and within half its smaller side of its centre.
pub open spec fn in_circle(r: Rect, x: int, y: int) -> bool {
    let (cx, cy) = spec_center(r);
    let m = min_side(r);
    &&& r.x1 <= x <= r.x2
    &&& r.y1 <= y <= r.y2
    &&& 4 * ((x - cx) * (x - cx) + (y - cy) * (y - cy)) <= m * m
}

/// The tiles a room floors when drawn as a circle (`circle`) or a rectangle.
pub open spec fn room_carves(r: Rect, circle: bool, x: int, y: int) -> bool {
    if circle { in_circle(r, x, y) } else { in_room_interior(r, x, y) }
}

/// The room as recorded after drawing: a circle keeps its smaller side as its diameter.
pub open spec fn drawn_room(r: Rect, circle: bool) -> Rect {
    if circle { Rect { radius_doubled: Some(min_side(r) as i32), ..r } } else { r }
}

/// Floors the tiles of a room's box within half its smaller side of its centre, and
/// records that side as the room's diameter.
pub fn circle(map: &mut GameMap, room: &mut Rect)
    requires
        old(map).wf(),
        room_on_map(*old(room), old(map).width as int, old(map).height as int),
    ensures
        final(map).wf(),
        final(map).same_frame(*old(map)),
        *final(room) == drawn_room(*old(room), true),
        forall|x: int, y: int| #![trigger final(map).tile(x, y)] final(map).on_map(x, y) ==>
            final(map).tile(x, y) == if in_circle(*old(room), x, y) { TileType::Floor } else { old(map).tile(x, y) },
{
    let ghost m0 = *map;
    let ghost r0 = *room;
    let m = if room.x2 - room.x1 <= room.y2 - room.y1 { room.x2 - room.x1 } else { room.y2 - room.y1 };
    room.radius_doubled = Some(m);
    let center = room.center();
    let mut y = room.y1;
    while y <= room.y2
        invariant
            map.wf(),
            map.same_frame(m0),
            *room == drawn_room(r0, true),
            room_on_map(r0, m0.width as int, m0.height as int),
            m == min_side(r0),
            center.0 == spec_center(r0).0,
            center.1 == spec_center(r0).1,
            r0.x1 <= center.0 <= r0.x2,
            r0.y1 <= center.1 <= r0.y2,
            r0.y1 <= y <= r0.y2 + 1,
            forall|a: int, b: int| #![trigger map.tile(a, b)] map.on_map(a, b) ==>
                map.tile(a, b) == if in_circle(r0, a, b) && b < y { TileType::Floor } else { m0.tile(a, b) },
        decreases r0.y2 + 1 - y,
    {
        let mut x = room.x1;
        while x <= room.x2
            invariant
                map.wf(),
                map.same_frame(m0),
                *room == drawn_room(r0, true),
                room_on_map(r0, m0.width as int, m0.height as int),
                m == min_side(r0),
                center.0 == spec_center(r0).0,
                center.1 == spec_center(r0).1,
                r0.x1 <= center.0 <= r0.x2,
                r0.y1 <= center.1 <= r0.y2,
                r0.y1 <= y <= r0.y2,
                r0.x1 <= x <= r0.x2 + 1,
                forall|a: int, b: int| #![trigger map.tile(a, b)] map.on_map(a, b) ==>
                    map.tile(a, b) == if in_circle(r0, a, b) && (b < y || (b == y && a < x)) { TileType::Floor } else { m0.tile(a, b) },
            decreases r0.x2 + 1 - x,
        {
            let dx = x as i64 - center.0 as i64;
            let dy = y as i64 - center.1 as i64;
            assert(0 <= dx * dx <= 1_000_000_000_000 && 0 <= dy * dy <= 1_000_000_000_000
                && 0 <= (m as i64) * (m as i64) <= 1_000_000_000_000) by (nonlinear_arith)
                requires -1_000_000 <= dx <= 1_000_000, -1_000_000 <= dy <= 1_000_000, 0 <= m <= 1_000_000;
            if 4 * (dx * dx + dy * dy) <= (m as i64) * (m as i64) {
                map.set_tile(x as usize, y as usize, TileType::Floor);
            }
            x = x + 1;
        }
        y = y + 1;
    }
}

/// Floors the inside of a room's box.
pub fn rectangle(map: &mut GameMap, room: &Rect)
    requires
        old(map).wf(),
        room_on_map(*room, old(map).width as int, old(map).height as int),
    ensures
        final(map).wf(),
        final(map).same_frame(*old(map)),
        forall|x: int, y: int| #![trigger final(map).tile(x, y)] final(map).on_map(x, y) ==>
            final(map).tile(x, y) == if in_room_interior(*room, x, y) { TileType::Floor } else { old(map).tile(x, y) },
{
    apply_room_to_map(map, room);
}

impl RoomDrawer {
    /// A room drawer.
    pub fn new() -> (b: Box<RoomDrawer>) {
        Box::new(RoomDrawer {})
    }

    /// Draws each room, as a circle with chance one in four and as a rectangle otherwise;
    /// the rooms drawn as circles record their diameter. Every tile that some room covers
    /// becomes floor; the rest stay as they were.
    pub fn build(&mut self, rng: &mut bracket_lib::random::RandomNumberGenerator, build_data: &mut BuilderMap)
        requires
            old(build_data).wf(),
            old(build_data).rooms is Some,
        ensures
            final(build_data).wf(),
            final(build_data).map.same_frame(old(build_data).map),
            final(build_data).spawn_list == old(build_data).spawn_list,
            final(build_data).starting_position == old(build_data).starting_position,
            final(build_data).corridors == old(build_data).corridors,
            final(build_data).width == old(build_data).width,
            final(build_data).height == old(build_data).height,
            final(build_data).rooms is Some,
            exists|circles: Seq<bool>| #![trigger circles.len()] {
                let rs = old(build_data).rooms->0@;
                &&& circles.len() == rs.len()
                &&& final(build_data).rooms->0@.len() == rs.len()
                &&& forall|i: int| 0 <= i < rs.len() ==> (#[trigger] final(build_data).rooms->0@[i]) == drawn_room(rs[i], circles[i])
                &&& forall|x: int, y: int| #![trigger final(build_data).map.tile(x, y)] final(build_data).map.on_map(x, y) ==>
                    final(build_data).map.tile(x, y) == if exists|i: int| 0 <= i < rs.len() && room_carves(#[trigger] rs[i], circles[i], x, y) {
                        TileType::Floor
                    } else {
                        old(build_data).map.tile(x, y)
                    }
            },
    {
        let ghost b0 = *build_data;
        let mut rooms: Vec<Rect> = match &build_data.rooms {
            Some(r) => r.clone(),
            None => Vec::new(),
        };
        let ghost rs = rooms@;
        assert(rs == b0.rooms->0@);
        let ghost mut circles: Seq<bool> = Seq::empty();
        let mut i: usize = 0;
        while i < rooms.len()
            invariant
                build_data.wf(),
                build_data.map.same_frame(b0.map),
                build_data.spawn_list == b0.spawn_list,
                build_data.starting_position == b0.starting_position,
                build_data.corridors == b0.corridors,
                build_data.rooms == b0.rooms,
                build_data.width == b0.width,
                build_data.height == b0.height,
                rs == b0.rooms->0@,
                forall|k: int| 0 <= k < rs.len() ==> room_on_map(#[trigger] rs[k], b0.width as int, b0.height as int),
                rooms@.len() == rs.len(),
                i <= rs.len(),
                circles.len() == i,
                forall|k: int| 0 <= k < i ==> (#[trigger] rooms@[k]) == drawn_room(rs[k], circles[k]),
                forall|k: int| i <= k < rs.len() ==> (#[trigger] rooms@[k]) == rs[k],
                forall|x: int, y: int| #![trigger build_data.map.tile(x, y)] build_data.map.on_map(x, y) ==>
                    build_data.map.tile(x, y) == if exists|k: int| 0 <= k < i && room_carves(#[trigger] rs[k], circles[k], x, y) {
                        TileType::Floor
                    } else {
                        b0.map.tile(x, y)
                    },
            decreases rs.len() - i,
        {
            let ghost before = build_data.map;
            let mut room = rooms[i];
            let is_circle = roll_dice(rng, 1, 4) == 1;
            if is_circle {
                circle(&mut build_data.map, &mut room);
            } else {
                rectangle(&mut build_data.map, &room);
            }
            rooms.set(i, room);
            build_data.take_snapshot();
            proof {
                let c2 = circles.push(is_circle);
                assert forall|x: int, y: int| #![trigger build_data.map.tile(x, y)] build_data.map.on_map(x, y) implies
                    build_data.map.tile(x, y) == if exists|k: int| 0 <= k < i + 1 && room_carves(#[trigger] rs[k], c2[k], x, y) {
                        TileType::Floor
                    } else {
                        b0.map.tile(x, y)
                    } by {
                    assert(before.tile(x, y) == before.tile(x, y));
                    if room_carves(rs[i as int], is_circle, x, y) {
                        assert(room_carves(rs[i as int], c2[i as int], x, y));
                    }
                    if exists|k: int| 0 <= k < i + 1 && room_carves(#[trigger] rs[k], c2[k], x, y) {
                        let k = choose|k: int| 0 <= k < i + 1 && room_carves(#[trigger] rs[k], c2[k], x, y);
                        if k < i {
                            assert(c2[k] == circles[k]);
                        }
                    }
                    if exists|k: int| 0 <= k < i && room_carves(#[trigger] rs[k], circles[k], x, y) {
                        let k = choose|k: int| 0 <= k < i && room_carves(#[trigger] rs[k], circles[k], x, y);
                        assert(c2[k] == circles[k]);
                    }
                }
                assert forall|k: int| 0 <= k < i + 1 implies (#[trigger] rooms@[k]) == drawn_room(rs[k], c2[k]) by {
                    if k < i {
                        assert(c2[k] == circles[k]);
                    }
                }
                circles = c2;
            }
            i = i + 1;
        }
        proof {
            assert forall|k: int| 0 <= k < rooms@.len() implies room_on_map(#[trigger] rooms@[k], b0.width as int, b0.height as int) by {
                assert(rooms@[k] == drawn_room(rs[k], circles[k]));
            }
        }
        build_data.rooms = Some(rooms);
    }
}

} // verus!
