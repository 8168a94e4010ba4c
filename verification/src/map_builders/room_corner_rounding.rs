use vstd::prelude::*;

use crate::map::{GameMap, TileType};
use crate::map_builders::{room_on_map, BuilderMap};
use crate::rect::Rect;

verus! {

/// Walls in the corners of rooms.
pub struct RoomCornerRounding {}

/// How many of the neighbours of `(x, y)` that are looked at are walls: left and up when
/// not on the first column or row, right and down when more than two tiles from the far
/// edges.
pub open spec fn corner_walls(m: GameMap, x: int, y: int) -> int {
    (if x > 0 && m.tile(x - 1, y) == TileType::Wall { 1int } else { 0int })
        + (if y > 0 && m.tile(x, y - 1) == TileType::Wall { 1int } else { 0int })
        + (if x < m.width - 2 && m.tile(x + 1, y) == TileType::Wall { 1int } else { 0int })
        + (if y < m.height - 2 && m.tile(x, y + 1) == TileType::Wall { 1int } else { 0int })
}

/// The four inner corners of a room.
pub open spec fn room_corner(r: Rect, x: int, y: int) -> bool {
    (x == r.x1 + 1 || x == r.x2) && (y == r.y1 + 1 || y == r.y2)
}

/// `corner_walls` over a map given by its tiles `t`, `w` by `h`.
pub open spec fn corner_walls_of(t: spec_fn(int, int) -> TileType, w: int, h: int, x: int, y: int) -> int {
    (if x > 0 && t(x - 1, y) == TileType::Wall { 1int } else { 0int })
        + (if y > 0 && t(x, y - 1) == TileType::Wall { 1int } else { 0int })
        + (if x < w - 2 && t(x + 1, y) == TileType::Wall { 1int } else { 0int })
        + (if y < h - 2 && t(x, y + 1) == TileType::Wall { 1int } else { 0int })
}

/// The tiles `t` after `fill_if_corner` at `(x, y)`.
pub open spec fn filled(t: spec_fn(int, int) -> TileType, w: int, h: int, x: int, y: int) -> spec_fn(int, int) -> TileType {
    if corner_walls_of(t, w, h, x, y) == 2 {
        |a: int, b: int| if a == x && b == y { TileType::Wall } else { t(a, b) }
    } else {
        t
    }
}

/// The tiles `t` after the four inner corners of room `r` are tried in turn: top left, top
/// right, bottom left, bottom right.
pub open spec fn rounded_room(t: spec_fn(int, int) -> TileType, w: int, h: int, r: Rect) -> spec_fn(int, int) -> TileType {
    let t1 = filled(t, w, h, r.x1 + 1, r.y1 + 1);
    let t2 = filled(t1, w, h, r.x2 as int, r.y1 + 1);
    let t3 = filled(t2, w, h, r.x1 + 1, r.y2 as int);
    filled(t3, w, h, r.x2 as int, r.y2 as int)
}

/// The tiles `t` after the rooms are rounded in order.
pub open spec fn rounded_rooms(t: spec_fn(int, int) -> TileType, w: int, h: int, rooms: Seq<Rect>) -> spec_fn(int, int) -> TileType
    decreases rooms.len(),
{
    if rooms.len() == 0 {
        t
    } else {
        rounded_room(rounded_rooms(t, w, h, rooms.drop_last()), w, h, rooms.last())
    }
}

/// The tiles of a map as a function.
pub open spec fn tiles_of(m: GameMap) -> spec_fn(int, int) -> TileType {
    |a: int, b: int| m.tile(a, b)
}

/// A map's tiles agree with `t` on the map.
pub open spec fn agrees(m: GameMap, t: spec_fn(int, int) -> TileType) -> bool {
    forall|a: int, b: int| #![trigger m.tile(a, b)] m.on_map(a, b) ==> m.tile(a, b) == t(a, b)
}

/// `fill_if_corner` at a tile on the map takes a map that agrees with `t` to one that agrees
/// with `filled(t, ..)`.
proof fn lemma_fill_agrees(m: GameMap, m2: GameMap, t: spec_fn(int, int) -> TileType, x: int, y: int)
    requires
        m.wf(),
        m.on_map(x, y),
        agrees(m, t),
        m2.same_frame(m),
        m2.wf(),
        forall|a: int, b: int| #![trigger m2.tile(a, b)] m2.on_map(a, b) ==> m2.tile(a, b) ==
            if a == x && b == y && corner_walls(m, x, y) == 2 { TileType::Wall } else { m.tile(a, b) },
    ensures
        agrees(m2, filled(t, m.width as int, m.height as int, x, y)),
{
    if x > 0 {
        assert(m.tile(x - 1, y) == t(x - 1, y));
    }
    if y > 0 {
        assert(m.tile(x, y - 1) == t(x, y - 1));
    }
    if x < m.width - 2 {
        assert(m.tile(x + 1, y) == t(x + 1, y));
    }
    if y < m.height - 2 {
        assert(m.tile(x, y + 1) == t(x, y + 1));
    }
    assert(corner_walls(m, x, y) == corner_walls_of(t, m.width as int, m.height as int, x, y));
    assert forall|a: int, b: int| #![trigger m2.tile(a, b)] m2.on_map(a, b) implies
        m2.tile(a, b) == filled(t, m.width as int, m.height as int, x, y)(a, b) by {
        assert(m.tile(a, b) == t(a, b));
    }
}

/// Walls `(x, y)` when exactly two of the neighbours looked at are walls.
pub fn fill_if_corner(map: &mut GameMap, x: usize, y: usize)
    requires
        old(map).wf(),
        old(map).on_map(x as int, y as int),
        old(map).width >= 2,
        old(map).height >= 2,
    ensures
        final(map).wf(),
        final(map).same_frame(*old(map)),
        forall|a: int, b: int| #![trigger final(map).tile(a, b)] final(map).on_map(a, b) ==> final(map).tile(a, b) ==
            if a == x && b == y && corner_walls(*old(map), x as int, y as int) == 2 { TileType::Wall } else { old(map).tile(a, b) },
{
    let w = map.width;
    let h = map.height;
    let mut neighbor_walls: i32 = 0;
    if x > 0 && map.tiles[x - 1][y] == TileType::Wall {
        neighbor_walls = neighbor_walls + 1;
    }
    if y > 0 && map.tiles[x][y - 1] == TileType::Wall {
        neighbor_walls = neighbor_walls + 1;
    }
    if x < (w - 2) as usize && map.tiles[x + 1][y] == TileType::Wall {
        neighbor_walls = neighbor_walls + 1;
    }
    if y < (h - 2) as usize && map.tiles[x][y + 1] == TileType::Wall {
        neighbor_walls = neighbor_walls + 1;
    }
    assert(neighbor_walls == corner_walls(*map, x as int, y as int));
    if neighbor_walls == 2 {
        map.set_tile(x, y, TileType::Wall);
    }
}

impl RoomCornerRounding {
    /// A corner rounder.
    pub fn new() -> (b: Box<RoomCornerRounding>) {
        Box::new(RoomCornerRounding {})
    }

    /// Tries the four inner corners of each room in turn, walling each that has exactly
    /// two walls beside it. Only inner corners of rooms ever change, and only to wall.
    pub fn build(&mut self, build_data: &mut BuilderMap)
        requires
            old(build_data).wf(),
            old(build_data).rooms is Some,
            old(build_data).rooms->0@.len() > 0 ==> old(build_data).width >= 2 && old(build_data).height >= 2,
            forall|i: int| 0 <= i < old(build_data).rooms->0@.len() ==> {
                &&& (#[trigger] old(build_data).rooms->0@[i]).x1 + 1 < old(build_data).width
                &&& old(build_data).rooms->0@[i].y1 + 1 < old(build_data).height
            },
        ensures
            final(build_data).wf(),
            final(build_data).same_but_tiles(*old(build_data)),
            forall|a: int, b: int| #![trigger final(build_data).map.tile(a, b)] final(build_data).map.on_map(a, b) ==> {
                ||| final(build_data).map.tile(a, b) == old(build_data).map.tile(a, b)
                ||| final(build_data).map.tile(a, b) == TileType::Wall
                    && exists|i: int| 0 <= i < old(build_data).rooms->0@.len() && room_corner(#[trigger] old(build_data).rooms->0@[i], a, b)
            },
            agrees(final(build_data).map, rounded_rooms(tiles_of(old(build_data).map), old(build_data).width as int,
                old(build_data).height as int, old(build_data).rooms->0@)),
    {
        let ghost b0 = *build_data;
        let ghost m0 = b0.map;
        let rooms = match &build_data.rooms {
            Some(r) => r.clone(),
            None => Vec::new(),
        };
        let ghost rs = rooms@;
        assert(rs == b0.rooms->0@);
        let mut r: usize = 0;
        while r < rooms.len()
            invariant
                build_data.wf(),
                build_data.same_but_tiles(b0),
                rs == rooms@,
                rs == b0.rooms->0@,
                rs.len() > 0 ==> b0.width >= 2 && b0.height >= 2,
                forall|k: int| 0 <= k < rs.len() ==> room_on_map(#[trigger] rs[k], b0.width as int, b0.height as int),
                forall|k: int| 0 <= k < rs.len() ==> (#[trigger] rs[k]).x1 + 1 < b0.width && rs[k].y1 + 1 < b0.height,
                r <= rs.len(),
                forall|a: int, b: int| #![trigger build_data.map.tile(a, b)] build_data.map.on_map(a, b) ==> {
                    ||| build_data.map.tile(a, b) == m0.tile(a, b)
                    ||| build_data.map.tile(a, b) == TileType::Wall
                        && exists|i: int| 0 <= i < r && room_corner(#[trigger] rs[i], a, b)
                },
                agrees(build_data.map, rounded_rooms(tiles_of(m0), b0.width as int, b0.height as int, rs.subrange(0, r as int))),
            decreases rs.len() - r,
        {
            let room = rooms[r];
            assert(room_on_map(rs[r as int], b0.width as int, b0.height as int));
            let ghost before = build_data.map;
            let ghost w = b0.width as int;
            let ghost h = b0.height as int;
            let ghost t0 = rounded_rooms(tiles_of(m0), w, h, rs.subrange(0, r as int));
            let ghost t1 = filled(t0, w, h, room.x1 + 1, room.y1 + 1);
            let ghost t2 = filled(t1, w, h, room.x2 as int, room.y1 + 1);
            let ghost t3 = filled(t2, w, h, room.x1 + 1, room.y2 as int);
            let ghost m_1 = build_data.map;
            fill_if_corner(&mut build_data.map, (room.x1 + 1) as usize, (room.y1 + 1) as usize);
            proof { lemma_fill_agrees(m_1, build_data.map, t0, room.x1 + 1, room.y1 + 1); }
            let ghost m_2 = build_data.map;
            fill_if_corner(&mut build_data.map, room.x2 as usize, (room.y1 + 1) as usize);
            proof { lemma_fill_agrees(m_2, build_data.map, t1, room.x2 as int, room.y1 + 1); }
            let ghost m_3 = build_data.map;
            fill_if_corner(&mut build_data.map, (room.x1 + 1) as usize, room.y2 as usize);
            proof { lemma_fill_agrees(m_3, build_data.map, t2, room.x1 + 1, room.y2 as int); }
            let ghost m_4 = build_data.map;
            fill_if_corner(&mut build_data.map, room.x2 as usize, room.y2 as usize);
            proof {
                lemma_fill_agrees(m_4, build_data.map, t3, room.x2 as int, room.y2 as int);
                assert(rs.subrange(0, r + 1).drop_last() =~= rs.subrange(0, r as int));
                assert(rs.subrange(0, r + 1).last() == room);
            }
            build_data.take_snapshot();
            proof {
                assert forall|a: int, b: int| #![trigger build_data.map.tile(a, b)] build_data.map.on_map(a, b) implies {
                    ||| build_data.map.tile(a, b) == m0.tile(a, b)
                    ||| build_data.map.tile(a, b) == TileType::Wall
                        && exists|i: int| 0 <= i < r + 1 && room_corner(#[trigger] rs[i], a, b)
                } by {
                    assert(before.tile(a, b) == before.tile(a, b));
                    if build_data.map.tile(a, b) != before.tile(a, b) {
                        assert(room_corner(rs[r as int], a, b));
                    }
                }
            }
            r = r + 1;
        }
        assert(rs.subrange(0, rs.len() as int) =~= rs);
    }
}

} // verus!
