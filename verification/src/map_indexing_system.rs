use vstd::prelude::*;

use crate::components::Position;
use crate::map::{grid_set, grid_wf, GameMap, TileType};
use crate::run_state::EntityId;

verus! {

/// Something with a position: who it is, where, and whether it blocks its tile.
#[derive(PartialEq, Eq, Copy, Clone, Debug, Structural)]
pub struct Placed {
    pub entity: EntityId,
    pub pos: Position,
    pub blocks: bool,
}

/// The entities standing on `(x, y)`, in order.
pub open spec fn ids_at(things: Seq<Placed>, x: int, y: int) -> Seq<EntityId>
    decreases things.len(),
{
    if things.len() == 0 {
        Seq::empty()
    } else {
        let t = things.last();
        let prev = ids_at(things.drop_last(), x, y);
        if t.pos.x == x && t.pos.y == y { prev.push(t.entity) } else { prev }
    }
}

/// Some blocking thing stands on `(x, y)`.
pub open spec fn blocker_at(things: Seq<Placed>, x: int, y: int) -> bool {
    exists|i: int| 0 <= i < things.len() && #[trigger] things[i].blocks && things[i].pos.x == x && things[i].pos.y == y
}

/// Appends `v` to cell `(x, y)` of a grid of lists.
fn push_at(g: &mut Vec<Vec<Vec<EntityId>>>, x: usize, y: usize, v: EntityId)
    requires
        x < old(g)@.len(),
        y < old(g)@[x as int]@.len(),
    ensures
        final(g)@.len() == old(g)@.len(),
        forall|i: int| 0 <= i < old(g)@.len() && i != x ==> #[trigger] final(g)@[i] == old(g)@[i],
        final(g)@[x as int]@.len() == old(g)@[x as int]@.len(),
        forall|j: int| 0 <= j < old(g)@[x as int]@.len() && j != y ==> #[trigger] final(g)@[x as int]@[j] == old(g)@[x as int]@[j],
        final(g)@[x as int]@[y as int]@ == old(g)@[x as int]@[y as int]@.push(v),
{
    let mut col: Vec<Vec<EntityId>> = Vec::new();
    std::mem::swap(&mut col, &mut g[x]);
    let mut cell: Vec<EntityId> = Vec::new();
    std::mem::swap(&mut cell, &mut col[y]);
    cell.push(v);
    col.set(y, cell);
    g.set(x, col);
}

/// The system that records which tiles are blocked and who stands where.
pub struct MapIndexingSystem {}

impl MapIndexingSystem {
    /// Marks walls and the tiles of blocking things as blocked, and lists, for every tile,
    /// the things standing on it in order.
    pub fn index(map: &mut GameMap, things: &Vec<Placed>) -> (content: Vec<Vec<Vec<EntityId>>>)
        requires
            old(map).wf(),
            forall|i: int| 0 <= i < things@.len() ==> old(map).on_map((#[trigger] things@[i]).pos.x as int, things@[i].pos.y as int),
        ensures
            final(map).wf(),
            final(map).tiles == old(map).tiles,
            final(map).width == old(map).width,
            final(map).height == old(map).height,
            final(map).revealed_tiles == old(map).revealed_tiles,
            final(map).visible_tiles == old(map).visible_tiles,
            forall|x: int, y: int| #![trigger final(map).blocked@[x]@[y]] final(map).on_map(x, y) ==>
                final(map).blocked@[x]@[y] == (old(map).tile(x, y) == TileType::Wall || blocker_at(things@, x, y)),
            grid_wf(content@, old(map).width as int, old(map).height as int),
            forall|x: int, y: int| #![trigger content@[x]@[y]] old(map).on_map(x, y) ==> content@[x]@[y]@ == ids_at(things@, x, y),
    {
        map.populate_blocked();
        let w = map.width as usize;
        let h = map.height as usize;
        let mut content: Vec<Vec<Vec<EntityId>>> = Vec::new();
        let mut i: usize = 0;
        while i < w
            invariant
                i <= w,
                content@.len() == i,
                forall|x: int| 0 <= x < i ==> (#[trigger] content@[x])@.len() == h,
                forall|x: int, y: int| 0 <= x < i && 0 <= y < h ==> (#[trigger] content@[x]@[y])@.len() == 0,
            decreases w - i,
        {
            let mut col: Vec<Vec<EntityId>> = Vec::new();
            let mut j: usize = 0;
            while j < h
                invariant
                    j <= h,
                    col@.len() == j,
                    forall|y: int| 0 <= y < j ==> (#[trigger] col@[y])@.len() == 0,
                decreases h - j,
            {
                col.push(Vec::new());
                j = j + 1;
            }
            content.push(col);
            i = i + 1;
        }
        let ghost m0 = *map;
        let mut k: usize = 0;
        while k < things.len()
            invariant
                map.wf(),
                m0.wf(),
                map.tiles == m0.tiles,
                map.width == m0.width,
                map.height == m0.height,
                map.revealed_tiles == m0.revealed_tiles,
                map.visible_tiles == m0.visible_tiles,
                map.depth == m0.depth,
                map.bloodstains == m0.bloodstains,
                w == map.width && h == map.height,
                forall|j: int| 0 <= j < things@.len() ==> m0.on_map((#[trigger] things@[j]).pos.x as int, things@[j].pos.y as int),
                k <= things@.len(),
                grid_wf(content@, w as int, h as int),
                forall|x: int, y: int| #![trigger content@[x]@[y]] m0.on_map(x, y) ==> content@[x]@[y]@ == ids_at(things@.subrange(0, k as int), x, y),
                forall|x: int, y: int| #![trigger map.blocked@[x]@[y]] map.on_map(x, y) ==>
                    map.blocked@[x]@[y] == (m0.blocked@[x]@[y] || blocker_at(things@.subrange(0, k as int), x, y)),
            decreases things@.len() - k,
        {
            let t = things[k];
            let (x, y) = (t.pos.x as usize, t.pos.y as usize);
            let ghost pre = things@.subrange(0, k as int);
            let ghost post = things@.subrange(0, k + 1);
            proof {
                assert(post.drop_last() =~= pre);
                assert(post.last() == t);
            }
            if t.blocks {
                let ghost before = map.blocked@;
                grid_set(&mut map.blocked, x, y, true);
                proof {
                    assert forall|a: int| 0 <= a < map.width implies (#[trigger] map.blocked@[a])@.len() == map.height by {
                        if a != x { assert(map.blocked@[a] == before[a]); }
                    }
                    assert forall|a: int, b: int| #![trigger map.blocked@[a]@[b]] map.on_map(a, b) implies
                        map.blocked@[a]@[b] == (m0.blocked@[a]@[b] || blocker_at(post, a, b)) by {
                        if a != x { assert(map.blocked@[a] == before[a]); }
                        if blocker_at(pre, a, b) {
                            let j = choose|j: int| 0 <= j < pre.len() && #[trigger] pre[j].blocks && pre[j].pos.x == a && pre[j].pos.y == b;
                            assert(post[j] == pre[j]);
                        }
                        if a == x && b == y {
                            assert(post[k as int].blocks);
                        }
                        if blocker_at(post, a, b) && !(a == x && b == y) {
                            let j = choose|j: int| 0 <= j < post.len() && #[trigger] post[j].blocks && post[j].pos.x == a && post[j].pos.y == b;
                            assert(j < k);
                            assert(pre[j] == post[j]);
                        }
                    }
                }
            } else {
                proof {
                    assert forall|a: int, b: int| #![trigger map.blocked@[a]@[b]] map.on_map(a, b) implies
                        map.blocked@[a]@[b] == (m0.blocked@[a]@[b] || blocker_at(post, a, b)) by {
                        if blocker_at(pre, a, b) {
                            let j = choose|j: int| 0 <= j < pre.len() && #[trigger] pre[j].blocks && pre[j].pos.x == a && pre[j].pos.y == b;
                            assert(post[j] == pre[j]);
                        }
                        if blocker_at(post, a, b) {
                            let j = choose|j: int| 0 <= j < post.len() && #[trigger] post[j].blocks && post[j].pos.x == a && post[j].pos.y == b;
                            assert(j < k);
                            assert(pre[j] == post[j]);
                        }
                    }
                }
            }
            let ghost cbefore = content@;
            push_at(&mut content, x, y, t.entity);
            proof {
                assert forall|a: int| 0 <= a < w implies (#[trigger] content@[a])@.len() == h by {
                    if a != x { assert(content@[a] == cbefore[a]); }
                }
                assert forall|a: int, b: int| #![trigger content@[a]@[b]] m0.on_map(a, b) implies content@[a]@[b]@ == ids_at(post, a, b) by {
                    if a != x {
                        assert(content@[a] == cbefore[a]);
                    } else if b != y {
                        assert(content@[a]@[b] == cbefore[a]@[b]);
                    }
                }
            }
            k = k + 1;
        }
        proof {
            assert(things@.subrange(0, things@.len() as int) =~= things@);
        }
        content
    }
}

} // verus!
