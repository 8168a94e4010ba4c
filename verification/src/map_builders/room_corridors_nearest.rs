use vstd::prelude::*;

use crate::map_builders::common::{corridor_path, draw_corridor};
use crate::map_builders::room_corridors_dogleg::{corridors_carved, lemma_corridors_push};
use crate::map_builders::{room_on_map, BuilderMap};
use crate::rect::{spec_center, Rect};

verus! {

/// Joins each room to the nearest room not yet joined.
pub struct NearestCorridors {}

/// The squared distance between the centres of two rooms.
pub open spec fn centre_distance(a: Rect, b: Rect) -> int {
    let (ax, ay) = spec_center(a);
    let (bx, by) = spec_center(b);
    (ax - bx) * (ax - bx) + (ay - by) * (ay - by)
}

/// Among the rooms after `i` and before `k`, the first one nearest to room `i`.
pub open spec fn nearest_later(rs: Seq<Rect>, i: int, k: int) -> int
    decreases k - i,
{
    if k <= i + 2 {
        i + 1
    } else {
        let m = nearest_later(rs, i, k - 1);
        if centre_distance(rs[i], rs[k - 1]) < centre_distance(rs[i], rs[m]) { k - 1 } else { m }
    }
}

proof fn lemma_nearest_later_range(rs: Seq<Rect>, i: int, k: int)
    requires
        0 <= i,
        i + 2 <= k,
    ensures
        i < nearest_later(rs, i, k) < k,
    decreases k - i,
{
    if k > i + 2 {
        lemma_nearest_later_range(rs, i, k - 1);
    }
}

fn centre_distance_exec(a: &Rect, b: &Rect) -> (d: i64)
    requires
        a.wf(),
        b.wf(),
    ensures
        d == centre_distance(*a, *b),
{
    let ac = a.center();
    let bc = b.center();
    let dx = ac.0 as i64 - bc.0 as i64;
    let dy = ac.1 as i64 - bc.1 as i64;
    assert(0 <= dx * dx <= 1_000_000_000_000 && 0 <= dy * dy <= 1_000_000_000_000) by (nonlinear_arith)
        requires -1_000_000 <= dx <= 1_000_000, -1_000_000 <= dy <= 1_000_000;
    dx * dx + dy * dy
}

impl NearestCorridors {
    /// A nearest-neighbour corridor builder.
    pub fn new() -> (b: Box<NearestCorridors>) {
        Box::new(NearestCorridors {})
    }

    /// Goes through the rooms in order; each room that has a room not yet joined besides
    /// itself gets a corridor from its centre to the centre of the nearest such room (the
    /// first on ties), and is then joined. As every earlier room is joined by then, room
    /// `i` leads to the nearest of the rooms after it, and the last room to none. The map
    /// gains exactly the corridors' tiles as floor.
    pub fn corridors(&mut self, build_data: &mut BuilderMap)
        requires
            old(build_data).wf(),
            old(build_data).rooms is Some,
        ensures
            final(build_data).wf(),
            final(build_data).map.same_frame(old(build_data).map),
            final(build_data).spawn_list == old(build_data).spawn_list,
            final(build_data).starting_position == old(build_data).starting_position,
            final(build_data).rooms == old(build_data).rooms,
            final(build_data).width == old(build_data).width,
            final(build_data).height == old(build_data).height,
            final(build_data).corridors is Some,
            ({
                let rs = old(build_data).rooms->0@;
                let cs = final(build_data).corridors->0@;
                &&& cs.len() == if rs.len() == 0 { 0 } else { rs.len() - 1 }
                &&& forall|i: int| #![trigger cs[i]] 0 <= i < cs.len() ==> cs[i]@ == corridor_path(
                    spec_center(rs[i]).0, spec_center(rs[i]).1,
                    spec_center(rs[nearest_later(rs, i, rs.len() as int)]).0, spec_center(rs[nearest_later(rs, i, rs.len() as int)]).1)
                &&& corridors_carved(old(build_data).map, final(build_data).map, cs)
            }),
    {
        let ghost b0 = *build_data;
        let rooms = match &build_data.rooms {
            Some(r) => r.clone(),
            None => Vec::new(),
        };
        let ghost rs = rooms@;
        assert(rs == b0.rooms->0@);
        let n = rooms.len();
        let mut connected: Vec<bool> = Vec::new();
        let mut z: usize = 0;
        while z < n
            invariant
                z <= n,
                connected@.len() == z,
                forall|j: int| 0 <= j < z ==> !(#[trigger] connected@[j]),
            decreases n - z,
        {
            connected.push(false);
            z = z + 1;
        }
        let mut corridors: Vec<Vec<(usize, usize)>> = Vec::new();
        assert(corridors_carved(b0.map, build_data.map, corridors@));
        let mut i: usize = 0;
        while i < n
            invariant
                build_data.wf(),
                build_data.map.same_frame(b0.map),
                build_data.spawn_list == b0.spawn_list,
                build_data.starting_position == b0.starting_position,
                build_data.rooms == b0.rooms,
                build_data.corridors == b0.corridors,
                build_data.width == b0.width,
                build_data.height == b0.height,
                rs == rooms@,
                rs == b0.rooms->0@,
                n == rs.len(),
                forall|k: int| 0 <= k < rs.len() ==> room_on_map(#[trigger] rs[k], b0.width as int, b0.height as int),
                i <= n,
                connected@.len() == n,
                forall|j: int| 0 <= j < n ==> (#[trigger] connected@[j] <==> j < i && j < n - 1),
                corridors@.len() == if i < n { i as int } else if n == 0 { 0 } else { n - 1 },
                forall|k: int| #![trigger corridors@[k]] 0 <= k < corridors@.len() ==> corridors@[k]@ == corridor_path(
                    spec_center(rs[k]).0, spec_center(rs[k]).1,
                    spec_center(rs[nearest_later(rs, k, n as int)]).0, spec_center(rs[nearest_later(rs, k, n as int)]).1),
                corridors_carved(b0.map, build_data.map, corridors@),
            decreases n - i,
        {
            let room_center = rooms[i].center();
            let mut best: usize = 0;
            let mut best_d: i64 = 0;
            let mut found = false;
            let mut j: usize = 0;
            while j < n
                invariant
                    rs == rooms@,
                    n == rs.len(),
                    forall|k: int| 0 <= k < rs.len() ==> room_on_map(#[trigger] rs[k], b0.width as int, b0.height as int),
                    i < n,
                    j <= n,
                    connected@.len() == n,
                    forall|q: int| 0 <= q < n ==> (#[trigger] connected@[q] <==> q < i && q < n - 1),
                    found <==> j > i + 1,
                    found ==> best == nearest_later(rs, i as int, j as int),
                    found ==> best_d == centre_distance(rs[i as int], rs[best as int]),
                    found ==> i < best < j,
                decreases n - j,
            {
                if i != j && !connected[j] {
                    let d = centre_distance_exec(&rooms[i], &rooms[j]);
                    if !found || d < best_d {
                        best = j;
                        best_d = d;
                    }
                    found = true;
                    proof {
                        if j > i + 1 {
                            lemma_nearest_later_range(rs, i as int, j as int);
                        }
                    }
                }
                j = j + 1;
            }
            if found {
                let dest_center = rooms[best].center();
                let ghost mid = build_data.map;
                let corridor = draw_corridor(&mut build_data.map, room_center.0, room_center.1, dest_center.0, dest_center.1);
                proof {
                    lemma_corridors_push(b0.map, mid, build_data.map, corridors@, corridor);
                }
                connected.set(i, true);
                let ghost old_c = corridors@;
                corridors.push(corridor);
                build_data.take_snapshot();
                proof {
                    assert forall|k: int| #![trigger corridors@[k]] 0 <= k < corridors@.len() implies corridors@[k]@ == corridor_path(
                        spec_center(rs[k]).0, spec_center(rs[k]).1,
                        spec_center(rs[nearest_later(rs, k, n as int)]).0, spec_center(rs[nearest_later(rs, k, n as int)]).1) by {
                        if k < i {
                            assert(corridors@[k] == old_c[k]);
                        }
                    }
                }
            }
            i = i + 1;
        }
        build_data.corridors = Some(corridors);
    }
}

} // verus!
