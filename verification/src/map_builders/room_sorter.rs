use vstd::prelude::*;

use crate::map_builders::BuilderMap;
use crate::rect::{spec_center, Rect};

verus! {

/// The order rooms are put in: by left edge, right edge, top edge, bottom edge, or by
/// how near their centre is to the map's.
#[derive(PartialEq, Eq, Copy, Clone, Debug, Structural)]
pub enum RoomSort {
    LEFTMOST,
    RIGHTMOST,
    TOPMOST,
    BOTTOMMOST,
    CENTRAL,
}

/// Sorts the rooms found so far.
pub struct RoomSorter {
    pub sort_by: RoomSort,
}

/// What a room is sorted by: one of its edges, or the squared distance from its centre to
/// `(cx, cy)`.
pub open spec fn room_key(mode: RoomSort, r: Rect, cx: int, cy: int) -> int {
    match mode {
        RoomSort::LEFTMOST => r.x1 as int,
        RoomSort::RIGHTMOST => r.x2 as int,
        RoomSort::TOPMOST => r.y1 as int,
        RoomSort::BOTTOMMOST => r.y2 as int,
        RoomSort::CENTRAL => {
            let (rx, ry) = spec_center(r);
            (rx - cx) * (rx - cx) + (ry - cy) * (ry - cy)
        },
    }
}

/// The rooms are in order of their key.
pub open spec fn sorted_by_key(s: Seq<Rect>, mode: RoomSort, cx: int, cy: int) -> bool {
    forall|a: int, b: int| 0 <= a <= b < s.len() ==> room_key(mode, #[trigger] s[a], cx, cy) <= room_key(mode, #[trigger] s[b], cx, cy)
}

/// `r` put into `s` after every room whose key is no greater than its own (found from the
/// end), as an insertion sort that keeps equal keys in order does.
pub open spec fn insert_by_key(s: Seq<Rect>, r: Rect, mode: RoomSort, cx: int, cy: int) -> Seq<Rect>
    decreases s.len(),
{
    if s.len() == 0 || room_key(mode, s.last(), cx, cy) <= room_key(mode, r, cx, cy) {
        s.push(r)
    } else {
        insert_by_key(s.drop_last(), r, mode, cx, cy).push(s.last())
    }
}

/// The rooms sorted by key, rooms with equal keys in the order they came.
pub open spec fn stable_sorted(s: Seq<Rect>, mode: RoomSort, cx: int, cy: int) -> Seq<Rect>
    decreases s.len(),
{
    if s.len() == 0 {
        s
    } else {
        insert_by_key(stable_sorted(s.drop_last(), mode, cx, cy), s.last(), mode, cx, cy)
    }
}

/// In rooms sorted by key, inserting before the first room with a greater key is what
/// `insert_by_key` does.
proof fn lemma_insert_at_first_greater(s: Seq<Rect>, p: int, r: Rect, mode: RoomSort, cx: int, cy: int)
    requires
        sorted_by_key(s, mode, cx, cy),
        0 <= p <= s.len(),
        forall|j: int| 0 <= j < p ==> room_key(mode, #[trigger] s[j], cx, cy) <= room_key(mode, r, cx, cy),
        p < s.len() ==> room_key(mode, s[p], cx, cy) > room_key(mode, r, cx, cy),
    ensures
        s.insert(p, r) == insert_by_key(s, r, mode, cx, cy),
    decreases s.len(),
{
    if s.len() == 0 {
        assert(s.insert(p, r) =~= s.push(r));
    } else if room_key(mode, s.last(), cx, cy) <= room_key(mode, r, cx, cy) {
        if p < s.len() {
            assert(room_key(mode, s[p], cx, cy) <= room_key(mode, s[s.len() - 1], cx, cy));
        }
        assert(s.insert(p, r) =~= s.push(r));
    } else {
        if p == s.len() {
            assert(room_key(mode, s[s.len() - 1], cx, cy) <= room_key(mode, r, cx, cy));
        }
        let t = s.drop_last();
        assert(sorted_by_key(t, mode, cx, cy)) by {
            assert forall|a: int, b: int| 0 <= a <= b < t.len() implies
                room_key(mode, #[trigger] t[a], cx, cy) <= room_key(mode, #[trigger] t[b], cx, cy) by {
                assert(t[a] == s[a] && t[b] == s[b]);
            }
        }
        assert forall|j: int| 0 <= j < p implies room_key(mode, #[trigger] t[j], cx, cy) <= room_key(mode, r, cx, cy) by {
            assert(t[j] == s[j]);
        }
        if p < t.len() {
            assert(t[p] == s[p]);
        }
        lemma_insert_at_first_greater(t, p, r, mode, cx, cy);
        assert(s.insert(p, r) =~= t.insert(p, r).push(s.last()));
    }
}

/// The key of a well-formed room, exactly as [`room_key`].
pub fn key_of(mode: RoomSort, r: &Rect, cx: i32, cy: i32) -> (k: i64)
    requires
        r.wf(),
        0 <= cx <= 1_000_000,
        0 <= cy <= 1_000_000,
    ensures
        k == room_key(mode, *r, cx as int, cy as int),
{
    match mode {
        RoomSort::LEFTMOST => r.x1 as i64,
        RoomSort::RIGHTMOST => r.x2 as i64,
        RoomSort::TOPMOST => r.y1 as i64,
        RoomSort::BOTTOMMOST => r.y2 as i64,
        RoomSort::CENTRAL => {
            let c = r.center();
            let dx = c.0 as i64 - cx as i64;
            let dy = c.1 as i64 - cy as i64;
            assert(0 <= dx * dx <= 1_000_000_000_000 && 0 <= dy * dy <= 1_000_000_000_000) by (nonlinear_arith)
                requires -1_000_000 <= dx <= 1_000_000, -1_000_000 <= dy <= 1_000_000;
            dx * dx + dy * dy
        },
    }
}

/// The rooms in order of their key; rooms with equal keys keep their order. The result
/// holds the same rooms, each as often as before.
pub fn sort_rooms(rooms: &Vec<Rect>, mode: RoomSort, cx: i32, cy: i32) -> (sorted: Vec<Rect>)
    requires
        forall|i: int| 0 <= i < rooms@.len() ==> (#[trigger] rooms@[i]).wf(),
        0 <= cx <= 1_000_000,
        0 <= cy <= 1_000_000,
    ensures
        sorted@.to_multiset() == rooms@.to_multiset(),
        sorted@.len() == rooms@.len(),
        sorted_by_key(sorted@, mode, cx as int, cy as int),
        sorted@ == stable_sorted(rooms@, mode, cx as int, cy as int),
{
    let mut sorted: Vec<Rect> = Vec::new();
    let mut i: usize = 0;
    assert(rooms@.subrange(0, 0) =~= sorted@);
    while i < rooms.len()
        invariant
            forall|j: int| 0 <= j < rooms@.len() ==> (#[trigger] rooms@[j]).wf(),
            forall|j: int| 0 <= j < sorted@.len() ==> (#[trigger] sorted@[j]).wf(),
            0 <= cx <= 1_000_000,
            0 <= cy <= 1_000_000,
            i <= rooms@.len(),
            sorted@.len() == i,
            sorted@.to_multiset() == rooms@.subrange(0, i as int).to_multiset(),
            sorted_by_key(sorted@, mode, cx as int, cy as int),
            sorted@ == stable_sorted(rooms@.subrange(0, i as int), mode, cx as int, cy as int),
        decreases rooms@.len() - i,
    {
        let r = rooms[i];
        let k = key_of(mode, &r, cx, cy);
        let mut p: usize = 0;
        while p < sorted.len() && key_of(mode, &sorted[p], cx, cy) <= k
            invariant
                forall|j: int| 0 <= j < sorted@.len() ==> (#[trigger] sorted@[j]).wf(),
                0 <= cx <= 1_000_000,
                0 <= cy <= 1_000_000,
                p <= sorted@.len(),
                forall|j: int| 0 <= j < p ==> room_key(mode, #[trigger] sorted@[j], cx as int, cy as int) <= k,
            decreases sorted@.len() - p,
        {
            p = p + 1;
        }
        let ghost before = sorted@;
        proof {
            if p < before.len() {
                assert(room_key(mode, before[p as int], cx as int, cy as int) > k);
            }
            lemma_insert_at_first_greater(before, p as int, r, mode, cx as int, cy as int);
            assert(rooms@.subrange(0, i + 1).drop_last() =~= rooms@.subrange(0, i as int));
        }
        sorted.insert(p, r);
        proof {
            assert(rooms@.subrange(0, i + 1) =~= rooms@.subrange(0, i as int).push(r));
            vstd::seq_lib::to_multiset_build(rooms@.subrange(0, i as int), r);
            vstd::seq_lib::to_multiset_insert(before, p as int, r);
            assert forall|a: int, b: int| 0 <= a <= b < sorted@.len() implies
                room_key(mode, #[trigger] sorted@[a], cx as int, cy as int) <= room_key(mode, #[trigger] sorted@[b], cx as int, cy as int) by {
                if p < before.len() {
                    assert(room_key(mode, before[p as int], cx as int, cy as int) > k);
                }
                if a < p && b > p {
                    assert(sorted@[a] == before[a]);
                    assert(sorted@[b] == before[b - 1]);
                } else if a < p && b == p {
                    assert(sorted@[a] == before[a]);
                } else if a == p && b > p {
                    assert(sorted@[b] == before[b - 1]);
                    assert(room_key(mode, before[p as int], cx as int, cy as int) <= room_key(mode, before[b - 1], cx as int, cy as int));
                } else if a > p {
                    assert(sorted@[a] == before[a - 1]);
                    assert(sorted@[b] == before[b - 1]);
                } else if b < p {
                    assert(sorted@[a] == before[a]);
                    assert(sorted@[b] == before[b]);
                }
            }
            assert forall|j: int| 0 <= j < sorted@.len() implies (#[trigger] sorted@[j]).wf() by {
                if j < p {
                    assert(sorted@[j] == before[j]);
                } else if j > p {
                    assert(sorted@[j] == before[j - 1]);
                }
            }
        }
        i = i + 1;
    }
    assert(rooms@.subrange(0, rooms@.len() as int) =~= rooms@);
    sorted
}

impl RoomSorter {
    /// Sorts rooms by their top edge.
    pub fn topmost() -> (b: Box<RoomSorter>)
        ensures
            b.sort_by == RoomSort::TOPMOST,
    {
        Box::new(RoomSorter { sort_by: RoomSort::TOPMOST })
    }

    /// Sorts rooms by their bottom edge.
    pub fn bottommost() -> (b: Box<RoomSorter>)
        ensures
            b.sort_by == RoomSort::BOTTOMMOST,
    {
        Box::new(RoomSorter { sort_by: RoomSort::BOTTOMMOST })
    }

    /// Sorts rooms by their left edge.
    pub fn leftmost() -> (b: Box<RoomSorter>)
        ensures
            b.sort_by == RoomSort::LEFTMOST,
    {
        Box::new(RoomSorter { sort_by: RoomSort::LEFTMOST })
    }

    /// Sorts rooms by their right edge.
    pub fn rightmost() -> (b: Box<RoomSorter>)
        ensures
            b.sort_by == RoomSort::RIGHTMOST,
    {
        Box::new(RoomSorter { sort_by: RoomSort::RIGHTMOST })
    }

    /// Sorts rooms by how near their centre is to the map's.
    pub fn central() -> (b: Box<RoomSorter>)
        ensures
            b.sort_by == RoomSort::CENTRAL,
    {
        Box::new(RoomSorter { sort_by: RoomSort::CENTRAL })
    }

    /// Puts the rooms in the builder's order; nothing else changes.
    pub fn sorter(&mut self, build_data: &mut BuilderMap)
        requires
            old(build_data).wf(),
            old(build_data).rooms is Some,
        ensures
            final(build_data).wf(),
            final(build_data).map == old(build_data).map,
            final(build_data).spawn_list == old(build_data).spawn_list,
            final(build_data).starting_position == old(build_data).starting_position,
            final(build_data).corridors == old(build_data).corridors,
            final(build_data).history == old(build_data).history,
            final(build_data).width == old(build_data).width,
            final(build_data).height == old(build_data).height,
            final(build_data).rooms is Some,
            final(build_data).rooms->0@.to_multiset() == old(build_data).rooms->0@.to_multiset(),
            sorted_by_key(final(build_data).rooms->0@, old(self).sort_by, old(build_data).map.width / 2, old(build_data).map.height / 2),
            final(build_data).rooms->0@ == stable_sorted(old(build_data).rooms->0@, old(self).sort_by,
                old(build_data).map.width / 2, old(build_data).map.height / 2),
    {
        broadcast use vstd::seq_lib::to_multiset_contains;
        let cx = build_data.map.width / 2;
        let cy = build_data.map.height / 2;
        let sorted = match &build_data.rooms {
            Some(rooms) => sort_rooms(rooms, self.sort_by, cx, cy),
            None => Vec::new(),
        };
        let ghost old_rooms = build_data.rooms->0@;
        build_data.rooms = Some(sorted);
        proof {
            assert forall|i: int| 0 <= i < sorted@.len() implies
                crate::map_builders::room_on_map(#[trigger] sorted@[i], build_data.width as int, build_data.height as int) by {
                assert(sorted@.to_multiset().count(sorted@[i]) > 0);
                assert(old_rooms.contains(sorted@[i]));
            }
        }
    }
}

} // verus!
