use vstd::prelude::*;

use crate::components::Position;
use crate::map::TileType;
use crate::map_builders::common::draw_corridor;
use crate::map_builders::{room_on_map, BuilderMap};
use crate::random_tables::RandomTable;
use crate::rect::{spec_center, Rect};
use crate::rng::{new_rng, roll_dice};
use crate::spawner::spawn_room;

verus! {

/// A rectangle is split again only while half its side exceeds this.
pub const MIN_ROOM_SIZE: i32 = 10;

/// `inner` lies within `outer`.
pub open spec fn rect_within(inner: Rect, outer: Rect) -> bool {
    outer.x1 <= inner.x1 && inner.x2 <= outer.x2 && outer.y1 <= inner.y1 && inner.y2 <= outer.y2
}

/// A rectangle has ordered corners, no circle, and at least one tile to each side.
pub open spec fn solid_rect(r: Rect) -> bool {
    &&& r.wf()
    &&& r.radius_doubled is None
    &&& r.x2 - r.x1 >= 1
    &&& r.y2 - r.y1 >= 1
}

/// The builder that divides the map into rooms like the inside of a building.
pub struct BspInteriorBuilder {}

impl BspInteriorBuilder {
    /// A new interior builder.
    pub fn new() -> (b: Box<BspInteriorBuilder>) {
        Box::new(BspInteriorBuilder {})
    }

    /// Splits `rect` in two, across or down as a four-sided die says (across on one or two),
    /// into halves one apart, and splits each half again while half the split side exceeds
    /// `MIN_ROOM_SIZE`. The last rectangle of the list (the one being split) is dropped and
    /// the pieces are added after the rest; every piece lies within `rect`.
    pub fn add_subrects(rects: &mut Vec<Rect>, rect: Rect, rng: &mut bracket_lib::random::RandomNumberGenerator)
        requires
            rect.wf(),
            rect.x2 - rect.x1 >= 4,
            rect.y2 - rect.y1 >= 4,
        ensures
            ({
                let kept = if old(rects)@.len() > 0 { (old(rects)@.len() - 1) as int } else { 0int };
                &&& final(rects)@.len() >= kept + 2
                &&& final(rects)@.subrange(0, kept) == old(rects)@.subrange(0, kept)
                &&& forall|i: int| kept <= i < final(rects)@.len() ==> solid_rect(#[trigger] final(rects)@[i])
                    && rect_within(final(rects)@[i], rect)
            }),
        decreases (rect.x2 - rect.x1) + (rect.y2 - rect.y1),
    {
        let ghost r0 = rects@;
        if rects.len() > 0 {
            rects.remove(rects.len() - 1);
        }
        let ghost kept = rects@;
        assert(kept =~= if r0.len() > 0 { r0.subrange(0, r0.len() - 1) } else { r0 });
        let width = rect.x2 - rect.x1;
        let height = rect.y2 - rect.y1;
        let half_width = if width / 2 > 1 { width / 2 } else { 1 };
        let half_height = if height / 2 > 1 { height / 2 } else { 1 };
        let split = roll_dice(rng, 1, 4);
        if split <= 2 {
            let h1 = Rect::new(rect.x1, rect.y1, half_width - 1, height);
            rects.push(h1);
            assert(rects@.subrange(0, kept.len() as int) =~= kept);
            let ghost pushed = rects@;
            if half_width > MIN_ROOM_SIZE {
                Self::add_subrects(rects, h1, rng);
                assert(rects@.subrange(0, kept.len() as int) =~= pushed.subrange(0, kept.len() as int));
            }
            let ghost mid = rects@;
            let h2 = Rect::new(rect.x1 + half_width, rect.y1, half_width, height);
            rects.push(h2);
            assert(rects@.subrange(0, mid.len() as int) =~= mid);
            let ghost pushed2 = rects@;
            if half_width > MIN_ROOM_SIZE {
                Self::add_subrects(rects, h2, rng);
                assert(rects@.subrange(0, mid.len() as int) =~= pushed2.subrange(0, mid.len() as int));
            }
            proof {
                lemma_pieces(r0, kept, mid, rects@, rect, h1, h2);
            }
        } else {
            let v1 = Rect::new(rect.x1, rect.y1, width, half_height - 1);
            rects.push(v1);
            assert(rects@.subrange(0, kept.len() as int) =~= kept);
            let ghost pushed = rects@;
            if half_height > MIN_ROOM_SIZE {
                Self::add_subrects(rects, v1, rng);
                assert(rects@.subrange(0, kept.len() as int) =~= pushed.subrange(0, kept.len() as int));
            }
            let ghost mid = rects@;
            let v2 = Rect::new(rect.x1, rect.y1 + half_height, width, half_height);
            rects.push(v2);
            assert(rects@.subrange(0, mid.len() as int) =~= mid);
            let ghost pushed2 = rects@;
            if half_height > MIN_ROOM_SIZE {
                Self::add_subrects(rects, v2, rng);
                assert(rects@.subrange(0, mid.len() as int) =~= pushed2.subrange(0, mid.len() as int));
            }
            proof {
                lemma_pieces(r0, kept, mid, rects@, rect, v1, v2);
            }
        }
    }
}

/// Gluing the two halves' pieces gives what `add_subrects` promises.
proof fn lemma_pieces(r0: Seq<Rect>, kept: Seq<Rect>, mid: Seq<Rect>, fin: Seq<Rect>, rect: Rect, a: Rect, b: Rect)
    requires
        kept == (if r0.len() > 0 { r0.subrange(0, r0.len() - 1) } else { r0 }),
        solid_rect(a) && rect_within(a, rect),
        solid_rect(b) && rect_within(b, rect),
        mid.len() >= kept.len() + 1,
        mid.subrange(0, kept.len() as int) == kept,
        forall|i: int| kept.len() <= i < mid.len() ==> solid_rect(#[trigger] mid[i]) && rect_within(mid[i], rect),
        fin.len() >= mid.len() + 1,
        fin.subrange(0, mid.len() as int) == mid,
        forall|i: int| mid.len() <= i < fin.len() ==> solid_rect(#[trigger] fin[i]) && rect_within(fin[i], rect),
    ensures
        ({
            let k = if r0.len() > 0 { (r0.len() - 1) as int } else { 0int };
            &&& fin.len() >= k + 2
            &&& fin.subrange(0, k) == r0.subrange(0, k)
            &&& forall|i: int| k <= i < fin.len() ==> solid_rect(#[trigger] fin[i]) && rect_within(fin[i], rect)
        }),
{
    let k = if r0.len() > 0 { (r0.len() - 1) as int } else { 0int };
    assert(kept.len() == k);
    assert(fin.subrange(0, k) =~= r0.subrange(0, k)) by {
        assert forall|i: int| 0 <= i < k implies fin[i] == r0[i] by {
            assert(fin.subrange(0, mid.len() as int)[i] == mid[i]);
            assert(mid.subrange(0, k)[i] == kept[i]);
        }
    }
    assert forall|i: int| k <= i < fin.len() implies solid_rect(#[trigger] fin[i]) && rect_within(fin[i], rect) by {
        if i < mid.len() {
            assert(fin.subrange(0, mid.len() as int)[i] == mid[i]);
        }
    }
}

/// `(x, y)` is inside room `r` (not its top or left edge) and inside the map's outer frame.
pub open spec fn interior_floor(r: Rect, w: int, h: int, x: int, y: int) -> bool {
    r.x1 < x <= r.x2 && r.y1 < y <= r.y2 && 0 < x < w - 1 && 0 < y < h - 1
}

impl BspInteriorBuilder {
    /// Floors the inside of room `r` within the map's outer frame.
    fn floor_room(build_data: &mut BuilderMap, r: Rect)
        requires
            old(build_data).wf(),
            r.wf(),
        ensures
            final(build_data).wf(),
            final(build_data).same_but_tiles(*old(build_data)),
            forall|x: int, y: int| #![trigger final(build_data).map.tile(x, y)] final(build_data).map.on_map(x, y) ==>
                final(build_data).map.tile(x, y) == if interior_floor(r, old(build_data).width as int, old(build_data).height as int, x, y) {
                    TileType::Floor
                } else {
                    old(build_data).map.tile(x, y)
                },
    {
        let ghost b0 = *build_data;
        let w = build_data.width;
        let h = build_data.height;
        let mut y = r.y1 + 1;
        while y <= r.y2
            invariant
                build_data.wf(),
                build_data.same_but_tiles(b0),
                w == b0.width && h == b0.height,
                r.wf(),
                r.y1 + 1 <= y <= r.y2 + 1,
                forall|a: int, b: int| #![trigger build_data.map.tile(a, b)] build_data.map.on_map(a, b) ==>
                    build_data.map.tile(a, b) == if interior_floor(r, w as int, h as int, a, b) && b < y { TileType::Floor } else { b0.map.tile(a, b) },
            decreases r.y2 + 1 - y,
        {
            let mut x = r.x1 + 1;
            while x <= r.x2
                invariant
                    build_data.wf(),
                    build_data.same_but_tiles(b0),
                    w == b0.width && h == b0.height,
                    r.wf(),
                    r.y1 + 1 <= y <= r.y2,
                    r.x1 + 1 <= x <= r.x2 + 1,
                    forall|a: int, b: int| #![trigger build_data.map.tile(a, b)] build_data.map.on_map(a, b) ==>
                        build_data.map.tile(a, b) == if interior_floor(r, w as int, h as int, a, b) && (b < y || (b == y && a < x)) {
                            TileType::Floor
                        } else {
                            b0.map.tile(a, b)
                        },
                decreases r.x2 + 1 - x,
            {
                if x > 0 && x < w - 1 && y > 0 && y < h - 1 {
                    build_data.map.set_tile(x as usize, y as usize, TileType::Floor);
                }
                x = x + 1;
            }
            y = y + 1;
        }
    }

    /// Divides the map (but its outer frame) into rooms (see `add_subrects`, with a fresh
    /// generator, as the game does), floors their insides, joins each room to the next by a
    /// corridor between random tiles of the two, puts the stairs in the centre of the last
    /// room and the start in the centre of the first, and spawns in every room but the first.
    pub fn build(&mut self, _rng: &mut bracket_lib::random::RandomNumberGenerator, build_data: &mut BuilderMap, table: &RandomTable)
        requires
            old(build_data).wf(),
            old(build_data).width >= 6,
            old(build_data).height >= 6,
            -1_000_000_000 <= old(build_data).map.depth <= 1_000_000_000,
            table.spec_total() < i32::MAX,
        ensures
            final(build_data).wf(),
            final(build_data).map.same_frame(old(build_data).map),
            final(build_data).corridors == old(build_data).corridors,
            final(build_data).width == old(build_data).width,
            final(build_data).height == old(build_data).height,
            final(build_data).spawn_list@.subrange(0, old(build_data).spawn_list@.len() as int) == old(build_data).spawn_list@,
            final(build_data).rooms matches Some(rs) && {
                &&& rs@.len() >= 2
                &&& forall|i: int| 0 <= i < rs@.len() ==> solid_rect(#[trigger] rs@[i])
                    && 1 <= rs@[i].x1 && rs@[i].x2 <= old(build_data).width - 1 && 1 <= rs@[i].y1 && rs@[i].y2 <= old(build_data).height - 1
                &&& final(build_data).starting_position == Some(Position {
                    x: spec_center(rs@[0]).0 as i32, y: spec_center(rs@[0]).1 as i32 })
                &&& final(build_data).map.tile(spec_center(rs@.last()).0, spec_center(rs@.last()).1) == TileType::DownStairs
                &&& forall|x: int, y: int| #![trigger final(build_data).map.tile(x, y)] final(build_data).map.on_map(x, y)
                    && !(x == spec_center(rs@.last()).0 && y == spec_center(rs@.last()).1) ==>
                    final(build_data).map.tile(x, y) == old(build_data).map.tile(x, y) || final(build_data).map.tile(x, y) == TileType::Floor
            },
    {
        let ghost b0 = *build_data;
        let mut rng = new_rng();
        let w = build_data.map.width;
        let h = build_data.map.height;
        let mut rects: Vec<Rect> = Vec::new();
        let first = Rect::new(1, 1, w - 2, h - 2);
        rects.push(first);
        Self::add_subrects(&mut rects, first, &mut rng);
        let rooms = rects;
        let mut i: usize = 0;
        while i < rooms.len()
            invariant
                build_data.wf(),
                build_data.same_but_tiles(b0),
                w == b0.width && h == b0.height,
                i <= rooms@.len(),
                forall|x: int, y: int| #![trigger build_data.map.tile(x, y)] build_data.map.on_map(x, y) ==>
                    build_data.map.tile(x, y) == b0.map.tile(x, y) || build_data.map.tile(x, y) == TileType::Floor,
                forall|k: int| 0 <= k < rooms@.len() ==> solid_rect(#[trigger] rooms@[k]) && rect_within(rooms@[k], first),
            decreases rooms@.len() - i,
        {
            assert(solid_rect(rooms@[i as int]));
            Self::floor_room(build_data, rooms[i]);
            build_data.take_snapshot();
            i = i + 1;
        }
        assert(rooms@.len() >= 2);
        let n1 = rooms.len() - 1;
        let mut i: usize = 0;
        while i < n1
            invariant
                n1 == rooms@.len() - 1,
                i <= n1,
                build_data.wf(),
                build_data.same_but_tiles(b0),
                w == b0.width && h == b0.height,
                forall|x: int, y: int| #![trigger build_data.map.tile(x, y)] build_data.map.on_map(x, y) ==>
                    build_data.map.tile(x, y) == b0.map.tile(x, y) || build_data.map.tile(x, y) == TileType::Floor,
                forall|k: int| 0 <= k < rooms@.len() ==> solid_rect(#[trigger] rooms@[k]) && rect_within(rooms@[k], first),
                first.x1 == 1 && first.y1 == 1 && first.x2 == w - 1 && first.y2 == h - 1,
            decreases rooms@.len() - i,
        {
            let room = rooms[i];
            let next_room = rooms[i + 1];
            assert(solid_rect(rooms@[i as int]) && rect_within(rooms@[i as int], first));
            assert(solid_rect(rooms@[i + 1]) && rect_within(rooms@[i + 1], first));
            let start_x = room.x1 + (roll_dice(&mut rng, 1, room.x2 - room.x1) - 1);
            let start_y = room.y1 + (roll_dice(&mut rng, 1, room.y2 - room.y1) - 1);
            let end_x = next_room.x1 + (roll_dice(&mut rng, 1, next_room.x2 - next_room.x1) - 1);
            let end_y = next_room.y1 + (roll_dice(&mut rng, 1, next_room.y2 - next_room.y1) - 1);
            draw_corridor(&mut build_data.map, start_x, start_y, end_x, end_y);
            build_data.take_snapshot();
            i = i + 1;
        }
        let last = rooms[rooms.len() - 1];
        assert(solid_rect(rooms@[rooms@.len() - 1]) && rect_within(rooms@[rooms@.len() - 1], first));
        let stairs = last.center();
        build_data.map.set_tile(stairs.0 as usize, stairs.1 as usize, TileType::DownStairs);
        build_data.take_snapshot();
        let start_room = rooms[0];
        assert(solid_rect(rooms@[0]) && rect_within(rooms@[0], first));
        let start = start_room.center();
        build_data.starting_position = Some(Position { x: start.0, y: start.1 });
        let ghost before_spawns = build_data.spawn_list@;
        let ghost mid = *build_data;
        let depth = build_data.map.depth;
        let mut k: usize = 1;
        while k < rooms.len()
            invariant
                mid.wf(),
                build_data.map == mid.map,
                build_data.starting_position == mid.starting_position,
                build_data.rooms == mid.rooms,
                build_data.corridors == mid.corridors,
                build_data.width == mid.width,
                build_data.height == mid.height,
                depth == mid.map.depth,
                -1_000_000_000 <= depth <= 1_000_000_000,
                table.spec_total() < i32::MAX,
                build_data.spawn_list@.len() >= before_spawns.len(),
                build_data.spawn_list@.subrange(0, before_spawns.len() as int) == before_spawns,
                forall|j: int| 0 <= j < rooms@.len() ==> solid_rect(#[trigger] rooms@[j]) && rect_within(rooms@[j], first),
                first.x2 == mid.width - 1 && first.y2 == mid.height - 1,
            decreases rooms@.len() - k,
        {
            assert(solid_rect(rooms@[k as int]) && rect_within(rooms@[k as int], first));
            let ghost sl = build_data.spawn_list@;
            spawn_room(&build_data.map, &mut rng, &rooms[k], depth, table, &mut build_data.spawn_list);
            proof {
                assert(build_data.spawn_list@.subrange(0, before_spawns.len() as int)
                    =~= build_data.spawn_list@.subrange(0, sl.len() as int).subrange(0, before_spawns.len() as int));
            }
            k = k + 1;
        }
        build_data.rooms = Some(rooms);
    }
}

} // verus!
