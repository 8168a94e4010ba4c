use vstd::prelude::*;
use vstd::string::StringExecFns;

use crate::components::Position;
use crate::map::{grid_set, grid_wf, GameMap};
use crate::rng::roll_dice;

verus! {

/// The tile a wanderer at `(x, y)` heads for on a roll of `roll` (one to five): west, east,
/// north, south, or staying put.
pub open spec fn wander_target(x: int, y: int, roll: int) -> (int, int) {
    if roll == 1 {
        (x - 1, y)
    } else if roll == 2 {
        (x + 1, y)
    } else if roll == 3 {
        (x, y - 1)
    } else if roll == 4 {
        (x, y + 1)
    } else {
        (x, y)
    }
}

/// A wanderer's step: each of the rolls one to four heads for a different one of the four
/// tiles that share a side with its own (west, east, north, south in that order), and any
/// other roll keeps it where it is.
pub proof fn lemma_wander_steps(x: int, y: int)
    ensures
        wander_target(x, y, 1) == (x - 1, y),
        wander_target(x, y, 2) == (x + 1, y),
        wander_target(x, y, 3) == (x, y - 1),
        wander_target(x, y, 4) == (x, y + 1),
        forall|r1: int, r2: int| 1 <= r1 <= 4 && 1 <= r2 <= 4 && r1 != r2 ==> #[trigger] wander_target(x, y, r1) != #[trigger] wander_target(x, y, r2),
        forall|r: int| !(1 <= r <= 4) ==> #[trigger] wander_target(x, y, r) == (x, y),
{
}

/// The tile lies inside the map's outer frame.
pub open spec fn inside_frame(m: GameMap, x: int, y: int) -> bool {
    0 < x < m.width - 1 && 0 < y < m.height - 1
}

/// The AI of townsfolk who wander about and now and then say something.
pub struct BystanderAI {}

impl BystanderAI {
    /// What the bystander says for a roll of `chance` on a six-sided die and a roll of
    /// `index_roll` for the quip: on a one, the quip at `index_roll - 1` is said and taken off
    /// the list; otherwise nothing is said and the list stays.
    pub fn say_quip(quips: &mut Vec<String>, chance: i32, index_roll: i32) -> (said: Option<String>)
        requires
            1 <= index_roll <= old(quips)@.len(),
        ensures
            chance != 1 ==> said is None && final(quips)@ == old(quips)@,
            chance == 1 ==> said == Some(old(quips)@[index_roll - 1]) && final(quips)@ == old(quips)@.remove(index_roll - 1),
    {
        if chance == 1 {
            let i = (index_roll - 1) as usize;
            let q = quips.remove(i);
            Some(q)
        } else {
            None
        }
    }

    /// Whether the bystander says something this turn, and what: when it has quips left and
    /// sees the player, a six-sided die is rolled and, on a one, a quip drawn from its list
    /// (see `say_quip`) is said and taken off it.
    pub fn pick_quip(rng: &mut bracket_lib::random::RandomNumberGenerator, quips: &mut Vec<String>, sees_player: bool) -> (said: Option<String>)
        requires
            old(quips)@.len() < i32::MAX,
        ensures
            (old(quips)@.len() == 0 || !sees_player) ==> said is None,
            said is None ==> final(quips)@ == old(quips)@,
            said matches Some(q) ==> exists|i: int| 0 <= i < old(quips)@.len() && old(quips)@[i] == q
                && final(quips)@ == old(quips)@.remove(i),
    {
        if quips.len() > 0 && sees_player {
            let chance = roll_dice(rng, 1, 6);
            let n = quips.len();
            let index_roll: i32 = if chance == 1 && n > 1 { roll_dice(rng, 1, n as i32) } else { 1 };
            Self::say_quip(quips, chance, index_roll)
        } else {
            None
        }
    }

    /// Moves a bystander at `pos` one step the way `move_roll` says (see `wander_target`),
    /// when that tile is inside the map's frame and not blocked; the blocked tiles follow
    /// it. Whether it moved comes back.
    pub fn wander(map: &mut GameMap, pos: &mut Position, move_roll: i32) -> (moved: bool)
        requires
            old(map).wf(),
            old(map).on_map(old(pos).x as int, old(pos).y as int),
        ensures
            ({
                let (tx, ty) = wander_target(old(pos).x as int, old(pos).y as int, move_roll as int);
                &&& moved == (inside_frame(*old(map), tx, ty) && !old(map).blocked@[tx]@[ty])
                &&& moved ==> final(pos).x == tx && final(pos).y == ty
                &&& !moved ==> *final(pos) == *old(pos) && *final(map) == *old(map)
                &&& moved ==> forall|a: int, b: int| #![trigger final(map).blocked@[a]@[b]] final(map).on_map(a, b) ==>
                    final(map).blocked@[a]@[b] == if a == tx && b == ty {
                        true
                    } else if a == old(pos).x && b == old(pos).y {
                        false
                    } else {
                        old(map).blocked@[a]@[b]
                    }
            }),
            final(map).wf(),
            final(map).tiles == old(map).tiles,
            final(map).width == old(map).width,
            final(map).height == old(map).height,
            final(map).depth == old(map).depth,
            final(map).revealed_tiles == old(map).revealed_tiles,
            final(map).visible_tiles == old(map).visible_tiles,
            final(map).bloodstains == old(map).bloodstains,
    {
        let mut x = pos.x;
        let mut y = pos.y;
        if move_roll == 1 {
            x = x - 1;
        } else if move_roll == 2 {
            x = x + 1;
        } else if move_roll == 3 {
            y = y - 1;
        } else if move_roll == 4 {
            y = y + 1;
        }
        if x > 0 && x < map.width - 1 && y > 0 && y < map.height - 1 {
            if !map.blocked[x as usize][y as usize] {
                let ghost before = map.blocked@;
                grid_set(&mut map.blocked, pos.x as usize, pos.y as usize, false);
                let ghost mid = map.blocked@;
                proof {
                    assert forall|a: int| 0 <= a < map.width implies (#[trigger] mid[a])@.len() == map.height by {
                        if a != pos.x { assert(mid[a] == before[a]); }
                    }
                }
                pos.x = x;
                pos.y = y;
                grid_set(&mut map.blocked, x as usize, y as usize, true);
                proof {
                    assert forall|a: int| 0 <= a < map.width implies (#[trigger] map.blocked@[a])@.len() == map.height by {
                        if a != x { assert(map.blocked@[a] == mid[a]); }
                    }
                    assert(grid_wf(map.blocked@, map.width as int, map.height as int));
                    assert forall|a: int, b: int| #![trigger map.blocked@[a]@[b]] map.on_map(a, b) implies
                        map.blocked@[a]@[b] == if a == x && b == y { true } else if a == old(pos).x && b == old(pos).y {
                            false
                        } else {
                            before[a]@[b]
                        } by {
                        if a != x { assert(map.blocked@[a] == mid[a]); }
                        if a != old(pos).x { assert(mid[a] == before[a]); }
                    }
                }
                return true;
            }
        }
        false
    }

    /// One turn of a bystander: perhaps a quip (see `pick_quip`), then a roll of a five-sided
    /// die for its step (see `wander`).
    pub fn take_turn(rng: &mut bracket_lib::random::RandomNumberGenerator, map: &mut GameMap, pos: &mut Position,
        quips: &mut Vec<String>, sees_player: bool) -> (r: (Option<String>, bool))
        requires
            old(map).wf(),
            old(map).on_map(old(pos).x as int, old(pos).y as int),
            old(quips)@.len() < i32::MAX,
        ensures
            final(map).wf(),
            final(map).tiles == old(map).tiles,
            (old(quips)@.len() == 0 || !sees_player) ==> r.0 is None,
            r.0 is None ==> final(quips)@ == old(quips)@,
            r.0 matches Some(q) ==> exists|i: int| 0 <= i < old(quips)@.len() && old(quips)@[i] == q
                && final(quips)@ == old(quips)@.remove(i),
            exists|roll: int| #![trigger wander_target(old(pos).x as int, old(pos).y as int, roll)] 1 <= roll <= 5 && ({
                let (tx, ty) = wander_target(old(pos).x as int, old(pos).y as int, roll);
                &&& r.1 == (inside_frame(*old(map), tx, ty) && !old(map).blocked@[tx]@[ty])
                &&& r.1 ==> final(pos).x == tx && final(pos).y == ty
                &&& !r.1 ==> *final(pos) == *old(pos)
            }),
    {
        let said = Self::pick_quip(rng, quips, sees_player);
        let roll = roll_dice(rng, 1, 5);
        let moved = Self::wander(map, pos, roll);
        assert(1 <= roll as int <= 5);
        (said, moved)
    }
}

/// The line the log shows when a bystander called `name` says `quip`.
pub fn quip_line(name: &str, quip: &str) -> (line: String)
    ensures
        line@ == name@ + " says \""@ + quip@ + "\""@,
{
    String::from_str(name).concat(" says \"").concat(quip).concat("\"")
}

} // verus!
