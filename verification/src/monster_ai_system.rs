use vstd::prelude::*;

use crate::components::Position;
use crate::map::{grid_set, grid_wf, GameMap};

verus! {

/// What a monster does on its turn.
#[derive(PartialEq, Eq, Copy, Clone, Debug, Structural)]
pub enum MonsterPlan {
    /// It is confused and loses the turn; this many confused turns are left (none left: it
    /// recovers).
    Confused { turns_left: i32 },
    /// It stands next to the player and attacks.
    Attack,
    /// It sees the player and heads for them along a path.
    Chase,
    /// It does nothing.
    Idle,
}

/// The player is within reach: at most one step away, diagonals included (a straight-line
/// distance under one and a half).
pub open spec fn within_reach(pos: Position, player: Position) -> bool {
    (pos.x - player.x) * (pos.x - player.x) + (pos.y - player.y) * (pos.y - player.y) <= 2
}

/// The AI of monsters that hunt the player.
pub struct MonsterAI {}

impl MonsterAI {
    /// A monster's choice for its turn: a confused monster loses the turn and is confused one
    /// turn less; otherwise it attacks when within reach, chases when it sees the player,
    /// and else stays idle.
    pub fn plan(confusion: Option<i32>, pos: Position, player: Position, sees_player: bool) -> (p: MonsterPlan)
        requires
            confusion matches Some(t) ==> t > i32::MIN,
            -10_000 <= pos.x <= 10_000 && -10_000 <= pos.y <= 10_000,
            -10_000 <= player.x <= 10_000 && -10_000 <= player.y <= 10_000,
        ensures
            p == match confusion {
                Some(t) => MonsterPlan::Confused { turns_left: (t - 1) as i32 },
                None => if within_reach(pos, player) {
                    MonsterPlan::Attack
                } else if sees_player {
                    MonsterPlan::Chase
                } else {
                    MonsterPlan::Idle
                },
            },
    {
        match confusion {
            Some(t) => MonsterPlan::Confused { turns_left: t - 1 },
            None => {
                let dx = (pos.x - player.x) as i64;
                let dy = (pos.y - player.y) as i64;
                proof {
                    assert(-20_000 <= dx <= 20_000 && -20_000 <= dy <= 20_000);
                    assert(dx * dx >= 0 && dy * dy >= 0) by (nonlinear_arith);
                    assert(dx * dx <= 400_000_000 && dy * dy <= 400_000_000) by (nonlinear_arith)
                        requires -20_000 <= dx <= 20_000, -20_000 <= dy <= 20_000;
                }
                if dx * dx + dy * dy <= 2 {
                    MonsterPlan::Attack
                } else if sees_player {
                    MonsterPlan::Chase
                } else {
                    MonsterPlan::Idle
                }
            },
        }
    }

    /// Where a chasing monster steps to for the path's second tile `step` (a tile index): the
    /// game reads the index back as column `step / width` and row `step % width`. The new
    /// tile becomes blocked.
    pub fn chase_step(map: &mut GameMap, pos: &mut Position, step: usize)
        requires
            old(map).wf(),
            old(map).on_map((step as int / (old(map).width as int)) as int, (step as int % (old(map).width as int)) as int),
        ensures
            final(pos).x == step as int / (old(map).width as int),
            final(pos).y == step as int % (old(map).width as int),
            final(map).wf(),
            final(map).tiles == old(map).tiles,
            final(map).width == old(map).width,
            final(map).height == old(map).height,
            final(map).revealed_tiles == old(map).revealed_tiles,
            final(map).visible_tiles == old(map).visible_tiles,
            forall|a: int, b: int| #![trigger final(map).blocked@[a]@[b]] final(map).on_map(a, b) ==>
                final(map).blocked@[a]@[b] == (old(map).blocked@[a]@[b] || (a == final(pos).x && b == final(pos).y)),
    {
        let w = map.width as usize;
        let nx = step / w;
        let ny = step % w;
        pos.x = nx as i32;
        pos.y = ny as i32;
        let ghost before = map.blocked@;
        grid_set(&mut map.blocked, nx, ny, true);
        proof {
            assert forall|a: int| 0 <= a < map.width implies (#[trigger] map.blocked@[a])@.len() == map.height by {
                if a != nx { assert(map.blocked@[a] == before[a]); }
            }
            assert(grid_wf(map.blocked@, map.width as int, map.height as int));
            assert forall|a: int, b: int| #![trigger map.blocked@[a]@[b]] map.on_map(a, b) implies
                map.blocked@[a]@[b] == (before[a]@[b] || (a == nx && b == ny)) by {
                if a != nx { assert(map.blocked@[a] == before[a]); }
            }
        }
    }
}

} // verus!
