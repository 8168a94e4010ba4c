use vstd::prelude::*;

use crate::components::Position;
use crate::hunger_system::HungerState;
use crate::map::GameMap;
use crate::run_state::{EntityId, RunState};

verus! {

/// The keys the player's turn tells apart.
#[derive(PartialEq, Eq, Copy, Clone, Debug, Structural)]
pub enum PlayerKey {
    Left,
    Right,
    Up,
    Down,
    H,
    J,
    K,
    L,
    Y,
    U,
    N,
    B,
    Space,
    G,
    I,
    D,
    Escape,
    Period,
    R,
    Other,
}

/// What the player asked for.
#[derive(PartialEq, Eq, Copy, Clone, Debug, Structural)]
pub enum PlayerCommand {
    Nothing,
    Move { dx: i32, dy: i32 },
    SkipTurn,
    PickUp,
    ShowInventory,
    ShowDropItem,
    SaveGame,
    Descend,
    ShowRemoveItem,
}

/// The command a key stands for: arrows and `hjkl` move straight, `yubn` diagonally,
/// space waits, `g` picks up, `i` and `d` open the inventory and the drop list, `r` the
/// list of equipment, `.` goes down stairs and Escape saves.
pub open spec fn key_command(key: Option<PlayerKey>) -> PlayerCommand {
    match key {
        None => PlayerCommand::Nothing,
        Some(k) => match k {
            PlayerKey::Left | PlayerKey::H => PlayerCommand::Move { dx: -1i32, dy: 0 },
            PlayerKey::Right | PlayerKey::L => PlayerCommand::Move { dx: 1, dy: 0 },
            PlayerKey::Up | PlayerKey::K => PlayerCommand::Move { dx: 0, dy: -1i32 },
            PlayerKey::Down | PlayerKey::J => PlayerCommand::Move { dx: 0, dy: 1 },
            PlayerKey::Y => PlayerCommand::Move { dx: -1i32, dy: -1i32 },
            PlayerKey::U => PlayerCommand::Move { dx: 1, dy: -1i32 },
            PlayerKey::N => PlayerCommand::Move { dx: 1, dy: 1 },
            PlayerKey::B => PlayerCommand::Move { dx: -1i32, dy: 1 },
            PlayerKey::Space => PlayerCommand::SkipTurn,
            PlayerKey::G => PlayerCommand::PickUp,
            PlayerKey::I => PlayerCommand::ShowInventory,
            PlayerKey::D => PlayerCommand::ShowDropItem,
            PlayerKey::Escape => PlayerCommand::SaveGame,
            PlayerKey::Period => PlayerCommand::Descend,
            PlayerKey::R => PlayerCommand::ShowRemoveItem,
            PlayerKey::Other => PlayerCommand::Nothing,
        },
    }
}

/// The command the key pressed this frame (if any) stands for.
pub fn player_command(key: Option<PlayerKey>) -> (c: PlayerCommand)
    ensures
        c == key_command(key),
{
    match key {
        None => PlayerCommand::Nothing,
        Some(k) => match k {
            PlayerKey::Left | PlayerKey::H => PlayerCommand::Move { dx: -1, dy: 0 },
            PlayerKey::Right | PlayerKey::L => PlayerCommand::Move { dx: 1, dy: 0 },
            PlayerKey::Up | PlayerKey::K => PlayerCommand::Move { dx: 0, dy: -1 },
            PlayerKey::Down | PlayerKey::J => PlayerCommand::Move { dx: 0, dy: 1 },
            PlayerKey::Y => PlayerCommand::Move { dx: -1, dy: -1 },
            PlayerKey::U => PlayerCommand::Move { dx: 1, dy: -1 },
            PlayerKey::N => PlayerCommand::Move { dx: 1, dy: 1 },
            PlayerKey::B => PlayerCommand::Move { dx: -1, dy: 1 },
            PlayerKey::Space => PlayerCommand::SkipTurn,
            PlayerKey::G => PlayerCommand::PickUp,
            PlayerKey::I => PlayerCommand::ShowInventory,
            PlayerKey::D => PlayerCommand::ShowDropItem,
            PlayerKey::Escape => PlayerCommand::SaveGame,
            PlayerKey::Period => PlayerCommand::Descend,
            PlayerKey::R => PlayerCommand::ShowRemoveItem,
            PlayerKey::Other => PlayerCommand::Nothing,
        },
    }
}

/// `c` is a move by `(dx, dy)`.
pub open spec fn moves_by(c: PlayerCommand, dx: int, dy: int) -> bool {
    c matches PlayerCommand::Move { dx: mx, dy: my } && mx == dx && my == dy
}

/// The keys that move the player, and how they relate: rows grow downwards, so up (and
/// `k`) steps to `y - 1` and right (and `l`) to `x + 1`; `h`, `j`, `k`, `l` do what left,
/// down, up and right do; down is the opposite of up and left of right; each diagonal
/// (`y` up-left, `u` up-right, `n` down-right, `b` down-left) is the sum of its two
/// straight steps, and opposite diagonals undo each other. Every move is one step to one of
/// the eight neighbouring tiles.
pub proof fn lemma_movement_keys()
    ensures
        moves_by(key_command(Some(PlayerKey::Up)), 0, -1),
        moves_by(key_command(Some(PlayerKey::Right)), 1, 0),
        key_command(Some(PlayerKey::K)) == key_command(Some(PlayerKey::Up)),
        key_command(Some(PlayerKey::J)) == key_command(Some(PlayerKey::Down)),
        key_command(Some(PlayerKey::H)) == key_command(Some(PlayerKey::Left)),
        key_command(Some(PlayerKey::L)) == key_command(Some(PlayerKey::Right)),
        forall|dx: int, dy: int| #[trigger] moves_by(key_command(Some(PlayerKey::Up)), dx, dy)
            <==> moves_by(key_command(Some(PlayerKey::Down)), -dx, -dy),
        forall|dx: int, dy: int| #[trigger] moves_by(key_command(Some(PlayerKey::Right)), dx, dy)
            <==> moves_by(key_command(Some(PlayerKey::Left)), -dx, -dy),
        forall|dx: int, dy: int| #[trigger] moves_by(key_command(Some(PlayerKey::Y)), dx, dy)
            <==> moves_by(key_command(Some(PlayerKey::N)), -dx, -dy),
        forall|dx: int, dy: int| #[trigger] moves_by(key_command(Some(PlayerKey::U)), dx, dy)
            <==> moves_by(key_command(Some(PlayerKey::B)), -dx, -dy),
        moves_by(key_command(Some(PlayerKey::Y)), -1, -1),
        moves_by(key_command(Some(PlayerKey::U)), 1, -1),
        moves_by(key_command(Some(PlayerKey::N)), 1, 1),
        moves_by(key_command(Some(PlayerKey::B)), -1, 1),
        forall|k: PlayerKey| #[trigger] key_command(Some(k)) is Move ==> {
            let c = key_command(Some(k));
            &&& -1 <= c->dx <= 1
            &&& -1 <= c->dy <= 1
            &&& (c->dx != 0 || c->dy != 0)
        },
{
}

/// The state a command leads to: no command keeps waiting, the menus open, Escape saves,
/// going down needs stairs underfoot, and everything else spends the player's turn.
pub fn command_state(c: PlayerCommand, on_stairs: bool) -> (s: RunState)
    ensures
        s == match c {
            PlayerCommand::Nothing => RunState::AwaitingInput,
            PlayerCommand::ShowInventory => RunState::ShowInventory,
            PlayerCommand::ShowDropItem => RunState::ShowDropItem,
            PlayerCommand::SaveGame => RunState::SaveGame,
            PlayerCommand::ShowRemoveItem => RunState::ShowRemoveItem,
            PlayerCommand::Descend => if on_stairs { RunState::NextLevel } else { RunState::PlayerTurn },
            _ => RunState::PlayerTurn,
        },
{
    match c {
        PlayerCommand::Nothing => RunState::AwaitingInput,
        PlayerCommand::ShowInventory => RunState::ShowInventory,
        PlayerCommand::ShowDropItem => RunState::ShowDropItem,
        PlayerCommand::SaveGame => RunState::SaveGame,
        PlayerCommand::ShowRemoveItem => RunState::ShowRemoveItem,
        PlayerCommand::Descend => if on_stairs { RunState::NextLevel } else { RunState::PlayerTurn },
        _ => RunState::PlayerTurn,
    }
}

/// The player's hit points after waiting a turn (see `skip_turn_hp`).
pub open spec fn rested_hp(hp: int, max_hp: int, monster_in_view: bool, hunger: Option<HungerState>) -> int {
    let can_heal = !monster_in_view && !(hunger == Some(HungerState::Hungry) || hunger == Some(HungerState::Starving));
    if can_heal { if hp + 1 < max_hp { hp + 1 } else { max_hp } } else { hp }
}

/// Waiting heals only in peace and on a full enough stomach: with a monster in view, or
/// when hungry or starving, the hit points stay as they are; otherwise a wounded player
/// gets back exactly one, and never more than the most.
pub proof fn lemma_rest_heals_one(hp: int, max_hp: int, monster_in_view: bool, hunger: Option<HungerState>)
    ensures
        monster_in_view ==> rested_hp(hp, max_hp, monster_in_view, hunger) == hp,
        hunger == Some(HungerState::Hungry) || hunger == Some(HungerState::Starving) ==> rested_hp(hp, max_hp, monster_in_view, hunger) == hp,
        !monster_in_view && (hunger is None || hunger == Some(HungerState::Normal) || hunger == Some(HungerState::WellFed)) ==> {
            &&& hp < max_hp ==> rested_hp(hp, max_hp, monster_in_view, hunger) == hp + 1
            &&& hp >= max_hp ==> rested_hp(hp, max_hp, monster_in_view, hunger) == max_hp
        },
{
}

/// The player's hit points after waiting a turn: one more, up to the most, unless a monster
/// is in view or the player is hungry or starving.
pub fn skip_turn_hp(hp: i32, max_hp: i32, monster_in_view: bool, hunger: Option<HungerState>) -> (r: i32)
    requires
        hp < i32::MAX,
    ensures
        r == rested_hp(hp as int, max_hp as int, monster_in_view, hunger),
{
    let mut can_heal = !monster_in_view;
    if can_heal {
        match hunger {
            Some(HungerState::Hungry) | Some(HungerState::Starving) => can_heal = false,
            _ => {},
        }
    }
    if can_heal {
        if hp + 1 < max_hp { hp + 1 } else { max_hp }
    } else {
        hp
    }
}

/// Something standing on the tile the player steps towards: whether it can be fought, and
/// whether it is a door.
#[derive(PartialEq, Eq, Copy, Clone, Debug, Structural)]
pub struct TileOccupant {
    pub entity: EntityId,
    pub fights: bool,
    pub door: bool,
}

/// What a step of the player comes to: an attack, doors opened on the way, and the new
/// position if the player moves.
#[derive(PartialEq, Eq, Clone, Debug)]
pub struct MovePlan {
    pub attack: Option<EntityId>,
    pub doors_opened: Vec<EntityId>,
    pub new_position: Option<Position>,
}

/// The index of the first occupant that can be fought, if any.
pub open spec fn first_fighter(c: Seq<TileOccupant>) -> Option<int>
    decreases c.len(),
{
    if c.len() == 0 {
        None
    } else {
        match first_fighter(c.drop_last()) {
            Some(i) => Some(i),
            None => if c.last().fights { Some(c.len() - 1) } else { None },
        }
    }
}

/// The doors among occupants, in order.
pub open spec fn doors_in(c: Seq<TileOccupant>) -> Seq<EntityId>
    decreases c.len(),
{
    if c.len() == 0 {
        Seq::empty()
    } else if c.last().door && !c.last().fights {
        doors_in(c.drop_last()).push(c.last().entity)
    } else {
        doors_in(c.drop_last())
    }
}

/// Plans a step of the player at `pos` by `(dx, dy)`: nothing happens when the tile is not
/// inside the map's edge; otherwise the occupants are met in order, and the first that can
/// be fought is attacked (ending the step), doors before it are opened, and when nobody is
/// fought and the tile is not blocked, the player moves there.
pub fn plan_player_move(map: &GameMap, pos: Position, dx: i32, dy: i32, contents: &Vec<TileOccupant>) -> (plan: MovePlan)
    requires
        map.wf(),
        -1 <= dx <= 1,
        -1 <= dy <= 1,
        i32::MIN < pos.x < i32::MAX,
        i32::MIN < pos.y < i32::MAX,
    ensures
        ({
            let (tx, ty) = (pos.x + dx, pos.y + dy);
            if !map.spec_in_bounds(tx, ty) {
                plan.attack is None && plan.doors_opened@.len() == 0 && plan.new_position is None
            } else {
                match first_fighter(contents@) {
                    Some(i) => plan.attack == Some(contents@[i].entity) && plan.doors_opened@ == doors_in(contents@.subrange(0, i))
                        && plan.new_position is None,
                    None => plan.attack is None && plan.doors_opened@ == doors_in(contents@)
                        && plan.new_position == if map.blocked@[tx]@[ty] { None } else { Some(Position { x: tx as i32, y: ty as i32 }) },
                }
            }
        }),
{
    let tx = pos.x + dx;
    let ty = pos.y + dy;
    let mut doors: Vec<EntityId> = Vec::new();
    if !map.is_tile_in_bounds(tx, ty) {
        return MovePlan { attack: None, doors_opened: doors, new_position: None };
    }
    let mut i: usize = 0;
    while i < contents.len()
        invariant
            map.wf(),
            tx == pos.x + dx,
            ty == pos.y + dy,
            map.spec_in_bounds(tx as int, ty as int),
            i <= contents@.len(),
            first_fighter(contents@.subrange(0, i as int)) is None,
            doors@ == doors_in(contents@.subrange(0, i as int)),
        decreases contents@.len() - i,
    {
        let o = contents[i];
        proof {
            assert(contents@.subrange(0, i + 1).drop_last() =~= contents@.subrange(0, i as int));
        }
        if o.fights {
            proof {
                lemma_first_fighter_prefix(contents@, i as int);
                assert(o == contents@[i as int]);
                assert(map.spec_in_bounds(tx as int, ty as int));
            }
            return MovePlan { attack: Some(o.entity), doors_opened: doors, new_position: None };
        }
        if o.door {
            doors.push(o.entity);
        }
        i = i + 1;
    }
    assert(contents@.subrange(0, contents@.len() as int) =~= contents@);
    if !map.blocked[tx as usize][ty as usize] {
        let x = if tx < 0 { 0 } else { tx };
        let x = if map.width - 1 < x { map.width - 1 } else { x };
        let y = if ty < 0 { 0 } else { ty };
        let y = if map.height - 1 < y { map.height - 1 } else { y };
        MovePlan { attack: None, doors_opened: doors, new_position: Some(Position { x, y }) }
    } else {
        MovePlan { attack: None, doors_opened: doors, new_position: None }
    }
}

/// When no occupant before `i` can be fought and the one at `i` can, it is the first.
proof fn lemma_first_fighter_prefix(c: Seq<TileOccupant>, i: int)
    requires
        0 <= i < c.len(),
        first_fighter(c.subrange(0, i)) is None,
        c[i].fights,
    ensures
        first_fighter(c) == Some(i),
    decreases c.len(),
{
    if c.len() == i + 1 {
        assert(c.drop_last() =~= c.subrange(0, i));
    } else {
        assert(c.drop_last().subrange(0, i) =~= c.subrange(0, i));
        lemma_first_fighter_prefix(c.drop_last(), i);
    }
}

/// The item the player picks up at `pos`: of the items lying there, the last listed.
pub open spec fn item_to_pick_up(items: Seq<(EntityId, Position)>, pos: Position) -> Option<EntityId>
    decreases items.len(),
{
    if items.len() == 0 {
        None
    } else if items.last().1 == pos {
        Some(items.last().0)
    } else {
        item_to_pick_up(items.drop_last(), pos)
    }
}

/// The item lying where the player stands, if any (see `item_to_pick_up`); with none the
/// game says there is nothing to pick up.
pub fn get_item(items: &Vec<(EntityId, Position)>, pos: Position) -> (r: Option<EntityId>)
    ensures
        r == item_to_pick_up(items@, pos),
        r is None <==> forall|i: int| 0 <= i < items@.len() ==> (#[trigger] items@[i]).1 != pos,
{
    let mut found: Option<EntityId> = None;
    let mut i: usize = 0;
    while i < items.len()
        invariant
            i <= items@.len(),
            found == item_to_pick_up(items@.subrange(0, i as int), pos),
            found is None <==> forall|j: int| 0 <= j < i ==> (#[trigger] items@[j]).1 != pos,
        decreases items@.len() - i,
    {
        let (item, at) = items[i];
        proof {
            assert(items@.subrange(0, i + 1).drop_last() =~= items@.subrange(0, i as int));
        }
        if at == pos {
            found = Some(item);
        }
        i = i + 1;
    }
    proof {
        assert(items@.subrange(0, items@.len() as int) =~= items@);
    }
    found
}

} // verus!
