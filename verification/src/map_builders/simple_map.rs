use vstd::prelude::*;

use crate::components::Position;
use crate::map::TileType;
use crate::map_builders::common::{apply_horizontal_tunnel, apply_room_to_map, apply_vertical_tunnel};
use crate::map_builders::{room_on_map, BuilderMap};
use crate::rect::{spec_center, spec_intersect, Rect};
use crate::rng::{new_rng, range, roll_dice};

verus! {

/// How many rooms the simple builder tries to place.
pub const MAX_ROOMS: i32 = 30;

/// The smallest side a room may have.
pub const MIN_SIZE: i32 = 3;

/// One more than the largest side a room may have.
pub const MAX_SIZE: i32 = 15;

/// No two rooms overlap or touch.
pub open spec fn rooms_apart(rs: Seq<Rect>) -> bool {
    forall|i: int, j: int| 0 <= i < rs.len() && 0 <= j < rs.len() && i != j ==> !spec_intersect(#[trigger] rs[i], #[trigger] rs[j])
}

/// The classic builder: rooms dropped at random where they do not touch, joined in order
/// by L-shaped corridors, with the start in the first and the way down in the last.
pub struct SimpleMapBuilder {}

impl SimpleMapBuilder {
    /// A new simple builder.
    pub fn new() -> (b: Box<SimpleMapBuilder>) {
        Box::new(SimpleMapBuilder {})
    }

    /// Tries thirty rooms of three to fourteen tiles a side at random spots (with a fresh
    /// generator, as the game does), keeps each that touches no kept room, and joins it to
    /// the one kept before by a corridor that turns once, either way round at random. The
    /// stairs go in the centre of the last room and the start in the centre of the first.
    pub fn build(&mut self, _rng: &mut bracket_lib::random::RandomNumberGenerator, build_data: &mut BuilderMap)
        requires
            old(build_data).wf(),
            old(build_data).width >= 30,
            old(build_data).height >= 29,
        ensures
            final(build_data).wf(),
            final(build_data).map.same_frame(old(build_data).map),
            final(build_data).spawn_list == old(build_data).spawn_list,
            final(build_data).corridors == old(build_data).corridors,
            final(build_data).width == old(build_data).width,
            final(build_data).height == old(build_data).height,
            final(build_data).rooms matches Some(rs) && {
                &&& 1 <= rs@.len() <= MAX_ROOMS
                &&& rooms_apart(rs@)
                &&& forall|i: int| 0 <= i < rs@.len() ==> room_on_map(#[trigger] rs@[i], old(build_data).width as int, old(build_data).height as int)
                &&& forall|i: int| 0 <= i < rs@.len() ==> MIN_SIZE <= (#[trigger] rs@[i]).x2 - rs@[i].x1 < MAX_SIZE
                    && MIN_SIZE <= rs@[i].y2 - rs@[i].y1 < MAX_SIZE
                &&& final(build_data).starting_position == Some(Position {
                    x: spec_center(rs@[0]).0 as i32, y: spec_center(rs@[0]).1 as i32 })
                &&& final(build_data).map.tile(spec_center(rs@.last()).0, spec_center(rs@.last()).1) == TileType::DownStairs
                &&& forall|x: int, y: int| #![trigger final(build_data).map.tile(x, y)] final(build_data).map.on_map(x, y)
                    && !(x == spec_center(rs@.last()).0 && y == spec_center(rs@.last()).1) ==>
                    final(build_data).map.tile(x, y) == old(build_data).map.tile(x, y) || final(build_data).map.tile(x, y) == TileType::Floor
            },
    {
        let ghost b0 = *build_data;
        let mut rng = new_rng();
        let w_map = build_data.map.width;
        let h_map = build_data.map.height;
        let mut rooms: Vec<Rect> = Vec::new();
        let mut i: i32 = 0;
        while i < MAX_ROOMS
            invariant
                build_data.wf(),
                build_data.map.same_frame(b0.map),
                build_data.spawn_list == b0.spawn_list,
                build_data.starting_position == b0.starting_position,
                build_data.rooms == b0.rooms,
                build_data.corridors == b0.corridors,
                build_data.width == b0.width,
                build_data.height == b0.height,
                w_map == b0.width && h_map == b0.height,
                w_map >= 30 && h_map >= 29,
                w_map <= 10_000 && h_map <= 10_000,
                0 <= i <= MAX_ROOMS,
                rooms@.len() <= i,
                i > 0 ==> rooms@.len() >= 1,
                rooms_apart(rooms@),
                forall|k: int| 0 <= k < rooms@.len() ==> room_on_map(#[trigger] rooms@[k], w_map as int, h_map as int),
                forall|k: int| 0 <= k < rooms@.len() ==> MIN_SIZE <= (#[trigger] rooms@[k]).x2 - rooms@[k].x1 < MAX_SIZE
                    && MIN_SIZE <= rooms@[k].y2 - rooms@[k].y1 < MAX_SIZE,
                forall|x: int, y: int| #![trigger build_data.map.tile(x, y)] build_data.map.on_map(x, y) ==>
                    build_data.map.tile(x, y) == b0.map.tile(x, y) || build_data.map.tile(x, y) == TileType::Floor,
            decreases MAX_ROOMS - i,
        {
            let w = range(&mut rng, MIN_SIZE, MAX_SIZE);
            let h = range(&mut rng, MIN_SIZE, MAX_SIZE);
            let x = roll_dice(&mut rng, 1, w_map - w - w - 1);
            let y = roll_dice(&mut rng, 1, h_map - h - w) - 1;
            let new_room = Rect::new(x, y, w, h);
            let mut ok = true;
            let mut k: usize = 0;
            while k < rooms.len()
                invariant
                    k <= rooms@.len(),
                    ok == forall|j: int| 0 <= j < k ==> !spec_intersect(new_room, #[trigger] rooms@[j]),
                decreases rooms@.len() - k,
            {
                if new_room.intersect(&rooms[k]) {
                    ok = false;
                }
                k = k + 1;
            }
            if ok {
                let ghost before = *build_data;
                apply_room_to_map(&mut build_data.map, &new_room);
                if rooms.len() > 0 {
                    let (new_x, new_y) = new_room.center();
                    let last = rooms[rooms.len() - 1];
                    assert(room_on_map(rooms@[rooms@.len() - 1], w_map as int, h_map as int));
                    let (prev_x, prev_y) = last.center();
                    if range(&mut rng, 0, 2) == 1 {
                        apply_horizontal_tunnel(&mut build_data.map, prev_x, new_x, prev_y);
                        apply_vertical_tunnel(&mut build_data.map, prev_y, new_y, new_x);
                    } else {
                        apply_vertical_tunnel(&mut build_data.map, prev_y, new_y, prev_x);
                        apply_horizontal_tunnel(&mut build_data.map, prev_x, new_x, new_y);
                    }
                }
                let ghost prev = rooms@;
                rooms.push(new_room);
                proof {
                    assert forall|a: int, b: int| 0 <= a < rooms@.len() && 0 <= b < rooms@.len() && a != b
                        implies !spec_intersect(#[trigger] rooms@[a], #[trigger] rooms@[b]) by {
                        if a < prev.len() && b < prev.len() {
                            assert(rooms@[a] == prev[a] && rooms@[b] == prev[b]);
                        } else if a == prev.len() {
                            assert(rooms@[b] == prev[b]);
                            assert(!spec_intersect(new_room, prev[b]));
                        } else {
                            assert(rooms@[a] == prev[a]);
                            assert(!spec_intersect(new_room, prev[a]));
                        }
                    }
                    assert forall|k2: int| 0 <= k2 < rooms@.len() implies room_on_map(#[trigger] rooms@[k2], w_map as int, h_map as int)
                        && MIN_SIZE <= rooms@[k2].x2 - rooms@[k2].x1 < MAX_SIZE && MIN_SIZE <= rooms@[k2].y2 - rooms@[k2].y1 < MAX_SIZE by {
                        if k2 < prev.len() {
                            assert(rooms@[k2] == prev[k2]);
                        }
                    }
                }
                build_data.take_snapshot();
            }
            i = i + 1;
        }
        let last = rooms[rooms.len() - 1];
        assert(room_on_map(rooms@[rooms@.len() - 1], w_map as int, h_map as int));
        let stairs = last.center();
        build_data.map.set_tile(stairs.0 as usize, stairs.1 as usize, TileType::DownStairs);
        let first = rooms[0];
        assert(room_on_map(rooms@[0], w_map as int, h_map as int));
        let start = first.center();
        build_data.starting_position = Some(Position { x: start.0, y: start.1 });
        build_data.rooms = Some(rooms);
    }
}

} // verus!
