use vstd::prelude::*;

use crate::map::{GameMap, TileType};
use crate::map_builders::common::{
    apply_horizontal_tunnel, apply_vertical_tunnel, h_tunnel, has_cell, max_i, min_i, v_tunnel,
};
use crate::map_builders::BuilderMap;
use crate::rect::spec_center;
use crate::rng::range;

verus! {

/// Joins each room to the one before it with an L-shaped corridor.
pub struct DoglegCorridors {}

/// The tiles of an L-shaped corridor from `(px, py)` to `(nx, ny)`: along the row first
/// then the column, or the other way round.
pub open spec fn dogleg(px: int, py: int, nx: int, ny: int, row_first: bool, w: int, h: int) -> Seq<(usize, usize)> {
    if row_first {
        h_tunnel(min_i(px, nx), (max_i(px, nx) - min_i(px, nx) + 1) as nat, py, w, h)
            + v_tunnel(min_i(py, ny), (max_i(py, ny) - min_i(py, ny) + 1) as nat, nx, w, h)
    } else {
        v_tunnel(min_i(py, ny), (max_i(py, ny) - min_i(py, ny) + 1) as nat, px, w, h)
            + h_tunnel(min_i(px, nx), (max_i(px, nx) - min_i(px, nx) + 1) as nat, ny, w, h)
    }
}

/// `c` is an L-shaped corridor from `(px, py)` to `(nx, ny)`, one way round or the other.
pub open spec fn is_dogleg(c: Seq<(usize, usize)>, px: int, py: int, nx: int, ny: int, w: int, h: int) -> bool {
    c == dogleg(px, py, nx, ny, true, w, h) || c == dogleg(px, py, nx, ny, false, w, h)
}

/// Some corridor holds `(a, b)`.
pub open spec fn in_corridors(cs: Seq<Vec<(usize, usize)>>, a: int, b: int) -> bool {
    exists|i: int| 0 <= i < cs.len() && has_cell(#[trigger] cs[i]@, a, b)
}

/// Every tile of `new` is floor where some corridor runs and as in `old` elsewhere.
pub open spec fn corridors_carved(old: GameMap, new: GameMap, cs: Seq<Vec<(usize, usize)>>) -> bool {
    forall|x: int, y: int| #![trigger new.tile(x, y)] new.on_map(x, y) ==>
        new.tile(x, y) == if in_corridors(cs, x, y) { TileType::Floor } else { old.tile(x, y) }
}

/// Adding one corridor to the list adds its tiles to the floored ones.
pub proof fn lemma_corridors_push(old: GameMap, mid: GameMap, new: GameMap, cs: Seq<Vec<(usize, usize)>>, c: Vec<(usize, usize)>)
    requires
        corridors_carved(old, mid, cs),
        new.same_frame(mid),
        forall|x: int, y: int| #![trigger new.tile(x, y)] new.on_map(x, y) ==>
            new.tile(x, y) == if has_cell(c@, x, y) { TileType::Floor } else { mid.tile(x, y) },
    ensures
        corridors_carved(old, new, cs.push(c)),
{
    let cs2 = cs.push(c);
    assert forall|x: int, y: int| #![trigger new.tile(x, y)] new.on_map(x, y) implies
        new.tile(x, y) == if in_corridors(cs2, x, y) { TileType::Floor } else { old.tile(x, y) } by {
        assert(mid.tile(x, y) == mid.tile(x, y));
        if has_cell(c@, x, y) {
            assert(has_cell(cs2[cs.len() as int]@, x, y));
        }
        if in_corridors(cs2, x, y) {
            let i = choose|i: int| 0 <= i < cs2.len() && has_cell(#[trigger] cs2[i]@, x, y);
            if i < cs.len() {
                assert(cs2[i] == cs[i]);
            }
        }
        if in_corridors(cs, x, y) {
            let i = choose|i: int| 0 <= i < cs.len() && has_cell(#[trigger] cs[i]@, x, y);
            assert(cs2[i] == cs[i]);
        }
    }
}

impl DoglegCorridors {
    /// A dogleg corridor builder.
    pub fn new() -> (b: Box<DoglegCorridors>) {
        Box::new(DoglegCorridors {})
    }

    /// For each room after the first, digs an L-shaped corridor from the centre of the room
    /// before it to its own centre, row first or column first at even odds, and records
    /// the corridors. The map gains exactly the corridors' tiles as floor.
    pub fn corridors(&mut self, rng: &mut bracket_lib::random::RandomNumberGenerator, build_data: &mut BuilderMap)
        requires
            old(build_data).wf(),
            old(build_data).rooms is Some,
        ensures
            final(build_data).wf(),
            final(build_data).map.same_frame(old(build_data).map),
            final(build_data).spawn_list == old(build_data).spawn_list,
            final(build_data).starting_position == old(build_data).starting_position,
            final(build_data).rooms == old(build_data).rooms,
            final(build_data).width == old(build_data).width,
            final(build_data).height == old(build_data).height,
            final(build_data).corridors is Some,
            ({
                let rs = old(build_data).rooms->0@;
                let cs = final(build_data).corridors->0@;
                &&& cs.len() == if rs.len() == 0 { 0 } else { rs.len() - 1 }
                &&& forall|i: int| #![trigger cs[i]] 0 <= i < cs.len() ==> is_dogleg(cs[i]@,
                    spec_center(rs[i]).0, spec_center(rs[i]).1, spec_center(rs[i + 1]).0, spec_center(rs[i + 1]).1,
                    old(build_data).width as int, old(build_data).height as int)
                &&& corridors_carved(old(build_data).map, final(build_data).map, cs)
            }),
    {
        let ghost b0 = *build_data;
        let ghost w = b0.width as int;
        let ghost h = b0.height as int;
        let rooms = match &build_data.rooms {
            Some(r) => r.clone(),
            None => Vec::new(),
        };
        let ghost rs = rooms@;
        assert(rs == b0.rooms->0@);
        let mut corridors: Vec<Vec<(usize, usize)>> = Vec::new();
        assert(corridors_carved(b0.map, build_data.map, corridors@));
        let mut i: usize = 1;
        while i < rooms.len()
            invariant
                build_data.wf(),
                build_data.map.same_frame(b0.map),
                build_data.spawn_list == b0.spawn_list,
                build_data.starting_position == b0.starting_position,
                build_data.rooms == b0.rooms,
                build_data.corridors == b0.corridors,
                build_data.width == b0.width,
                build_data.height == b0.height,
                w == b0.width,
                h == b0.height,
                rs == rooms@,
                rs == b0.rooms->0@,
                forall|k: int| 0 <= k < rs.len() ==> crate::map_builders::room_on_map(#[trigger] rs[k], w, h),
                1 <= i,
                i <= rs.len() || i == 1,
                corridors@.len() == if i == 0 { 0 } else { i - 1 },
                forall|k: int| #![trigger corridors@[k]] 0 <= k < corridors@.len() ==> is_dogleg(corridors@[k]@,
                    spec_center(rs[k]).0, spec_center(rs[k]).1, spec_center(rs[k + 1]).0, spec_center(rs[k + 1]).1, w, h),
                corridors_carved(b0.map, build_data.map, corridors@),
            decreases rs.len() - i,
        {
            let (nx, ny) = rooms[i].center();
            let (px, py) = rooms[i - 1].center();
            let ghost mid = build_data.map;
            let row_first = range(rng, 0, 2) == 1;
            let mut c1: Vec<(usize, usize)>;
            let mut c2: Vec<(usize, usize)>;
            if row_first {
                c1 = apply_horizontal_tunnel(&mut build_data.map, px, nx, py);
                c2 = apply_vertical_tunnel(&mut build_data.map, py, ny, nx);
            } else {
                c1 = apply_vertical_tunnel(&mut build_data.map, py, ny, px);
                c2 = apply_horizontal_tunnel(&mut build_data.map, px, nx, ny);
            }
            let ghost s1 = c1@;
            let ghost s2 = c2@;
            c1.append(&mut c2);
            proof {
                assert(c1@ == s1 + s2);
                assert forall|x: int, y: int| #![trigger build_data.map.tile(x, y)] build_data.map.on_map(x, y) implies
                    build_data.map.tile(x, y) == if has_cell(c1@, x, y) { TileType::Floor } else { mid.tile(x, y) } by {
                    if has_cell(s1, x, y) {
                        let j = choose|j: int| 0 <= j < s1.len() && s1[j] == (x as usize, y as usize);
                        assert(c1@[j] == s1[j]);
                    }
                    if has_cell(s2, x, y) {
                        let j = choose|j: int| 0 <= j < s2.len() && s2[j] == (x as usize, y as usize);
                        assert(c1@[s1.len() + j] == s2[j]);
                    }
                    if has_cell(c1@, x, y) {
                        let j = choose|j: int| 0 <= j < c1@.len() && c1@[j] == (x as usize, y as usize);
                        if j < s1.len() {
                            assert(s1[j] == c1@[j]);
                        } else {
                            assert(s2[j - s1.len()] == c1@[j]);
                        }
                    }
                }
                assert(c1@ == dogleg(spec_center(rs[i - 1]).0, spec_center(rs[i - 1]).1, spec_center(rs[i as int]).0, spec_center(rs[i as int]).1, row_first, w, h));
                lemma_corridors_push(b0.map, mid, build_data.map, corridors@, c1);
            }
            corridors.push(c1);
            build_data.take_snapshot();
            proof {
                assert forall|k: int| #![trigger corridors@[k]] 0 <= k < corridors@.len() implies is_dogleg(corridors@[k]@,
                    spec_center(rs[k]).0, spec_center(rs[k]).1, spec_center(rs[k + 1]).0, spec_center(rs[k + 1]).1, w, h) by {
                    if k == i - 1 {
                        assert(corridors@[k]@ == dogleg(spec_center(rs[k]).0, spec_center(rs[k]).1, spec_center(rs[k + 1]).0, spec_center(rs[k + 1]).1, row_first, w, h));
                    }
                }
            }
            i = i + 1;
        }
        assert(corridors@.len() == if rs.len() == 0 { 0 } else { rs.len() - 1 });
        build_data.corridors = Some(corridors);
    }
}

} // verus!
