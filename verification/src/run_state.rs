use vstd::prelude::*;

use crate::components::Position;
use crate::gui::{GameOverResult, ItemMenuResult, MainMenuResult, MainMenuSelection};
use crate::map::{grid_set, grid_wf, GameMap};
use crate::map_builders::SHOW_MAPGEN_VISUALIZATION;

verus! {

/// An entity of the game world, by its index.
pub type EntityId = u32;

/// What the game is doing this frame.
#[derive(PartialEq, Eq, Copy, Clone, Debug, Structural)]
pub enum RunState {
    AwaitingInput,
    PreRun,
    PlayerTurn,
    MonsterTurn,
    ShowInventory,
    ShowDropItem,
    ShowTargeting { range: i32, item: EntityId },
    MainMenu { menu_selection: MainMenuSelection },
    SaveGame,
    NextLevel,
    ShowRemoveItem,
    GameOver,
    MagicMapReveal { row: i32 },
    MapGeneration,
}

/// What the frame's outside work reported back to the game loop.
#[derive(PartialEq, Eq, Copy, Clone, Debug, Structural)]
pub enum TickInput {
    /// Nothing was asked of the outside this frame.
    Nothing,
    /// The map-generation replay timer ran out on this frame.
    MapGenTimer { elapsed: bool },
    /// The main menu's answer.
    Menu { answer: MainMenuResult },
    /// The state the player's key press leads to.
    PlayerInput { next: RunState },
    /// The turn's systems ran; whether one of them asked for the map to be revealed.
    SystemsRan { magic_map: bool },
    /// An item list's answer: the item picked, and, for use, the item's range if it is
    /// aimed.
    ItemMenu { result: ItemMenuResult, item: Option<EntityId>, ranged: Option<i32> },
    /// The targeting screen's answer: the tile aimed at.
    Target { result: ItemMenuResult, target: Option<Position> },
    /// The game-over screen's answer.
    GameOverScreen { choice: GameOverResult },
}

/// What the game loop is to do once the frame's decision is made.
#[derive(PartialEq, Eq, Copy, Clone, Debug, Structural)]
pub enum TickAction {
    Nothing,
    LoadGame,
    Quit,
    UseItem { item: EntityId, target: Option<Position> },
    DropItem { item: EntityId },
    UnequipItem { item: EntityId },
    SaveGame,
    GotoNextLevel,
    GameOverCleanup,
    RevealRow { row: i32 },
}

/// The replay of map generation: the state to go to when it is over, the snapshot being
/// shown, and how many there are.
#[derive(PartialEq, Eq, Copy, Clone, Debug, Structural)]
pub struct MapGenReplay {
    pub next_state: RunState,
    pub index: usize,
    pub history_len: usize,
}

/// The outcome of a frame: the next state, the work to do, and the replay position.
#[derive(PartialEq, Eq, Copy, Clone, Debug, Structural)]
pub struct TickOutcome {
    pub next: RunState,
    pub action: TickAction,
    pub replay_index: usize,
}

/// Whether the game's systems run in this state before its decision is made.
pub open spec fn spec_runs_systems(s: RunState) -> bool {
    s is PreRun || s is PlayerTurn || s is MonsterTurn
}

/// Whether the game's systems run in this state before its decision is made (then the
/// loop hands the decision `SystemsRan`).
pub fn runs_systems(s: RunState) -> (r: bool)
    ensures
        r == spec_runs_systems(s),
{
    match s {
        RunState::PreRun | RunState::PlayerTurn | RunState::MonsterTurn => true,
        _ => false,
    }
}

/// The outcome of an item list: cancelling goes back to waiting for input, no answer stays,
/// and a choice makes `chosen` of the item and ends the player's turn.
pub open spec fn item_menu_outcome(s: RunState, result: ItemMenuResult, chosen: TickAction, index: usize) -> TickOutcome {
    match result {
        ItemMenuResult::Cancel => TickOutcome { next: RunState::AwaitingInput, action: TickAction::Nothing, replay_index: index },
        ItemMenuResult::NoResponse => TickOutcome { next: s, action: TickAction::Nothing, replay_index: index },
        ItemMenuResult::Selected => TickOutcome { next: RunState::PlayerTurn, action: chosen, replay_index: index },
    }
}

/// The frame's decision: from the state and what the outside reported, the next state and
/// the work to do. A report that does not belong to the state changes nothing.
pub open spec fn transition(s: RunState, input: TickInput, replay: MapGenReplay, map_height: i32) -> TickOutcome {
    let stay = TickOutcome { next: s, action: TickAction::Nothing, replay_index: replay.index };
    match s {
        RunState::MapGeneration => match input {
            TickInput::MapGenTimer { elapsed } => {
                let index = if elapsed { (replay.index + 1) as usize } else { replay.index };
                let done = !SHOW_MAPGEN_VISUALIZATION || (elapsed && index >= replay.history_len);
                TickOutcome { next: if done { replay.next_state } else { s }, action: TickAction::Nothing, replay_index: index }
            },
            _ => stay,
        },
        RunState::MainMenu { .. } => match input {
            TickInput::Menu { answer } => match answer {
                MainMenuResult::NoSelection { selected } => TickOutcome {
                    next: RunState::MainMenu { menu_selection: selected }, action: TickAction::Nothing, replay_index: replay.index },
                MainMenuResult::Selected { selected } => match selected {
                    MainMenuSelection::NewGame => TickOutcome { next: RunState::PreRun, action: TickAction::Nothing, replay_index: replay.index },
                    MainMenuSelection::LoadGame => TickOutcome { next: RunState::AwaitingInput, action: TickAction::LoadGame, replay_index: replay.index },
                    MainMenuSelection::Quit => TickOutcome { next: s, action: TickAction::Quit, replay_index: replay.index },
                },
            },
            _ => stay,
        },
        RunState::PreRun | RunState::MonsterTurn => match input {
            TickInput::SystemsRan { .. } => TickOutcome { next: RunState::AwaitingInput, action: TickAction::Nothing, replay_index: replay.index },
            _ => stay,
        },
        RunState::AwaitingInput => match input {
            TickInput::PlayerInput { next } => TickOutcome { next, action: TickAction::Nothing, replay_index: replay.index },
            _ => stay,
        },
        RunState::PlayerTurn => match input {
            TickInput::SystemsRan { magic_map } => TickOutcome {
                next: if magic_map { RunState::MagicMapReveal { row: 0 } } else { RunState::MonsterTurn },
                action: TickAction::Nothing, replay_index: replay.index },
            _ => stay,
        },
        RunState::ShowInventory => match input {
            TickInput::ItemMenu { result, item, ranged } => match result {
                ItemMenuResult::Selected => match item {
                    Some(it) => match ranged {
                        Some(range) => TickOutcome { next: RunState::ShowTargeting { range, item: it }, action: TickAction::Nothing, replay_index: replay.index },
                        None => item_menu_outcome(s, result, TickAction::UseItem { item: it, target: None }, replay.index),
                    },
                    None => stay,
                },
                _ => item_menu_outcome(s, result, TickAction::Nothing, replay.index),
            },
            _ => stay,
        },
        RunState::ShowDropItem => match input {
            TickInput::ItemMenu { result, item, .. } => match (result, item) {
                (ItemMenuResult::Selected, Some(it)) => item_menu_outcome(s, result, TickAction::DropItem { item: it }, replay.index),
                (ItemMenuResult::Selected, None) => stay,
                _ => item_menu_outcome(s, result, TickAction::Nothing, replay.index),
            },
            _ => stay,
        },
        RunState::ShowRemoveItem => match input {
            TickInput::ItemMenu { result, item, .. } => match (result, item) {
                (ItemMenuResult::Selected, Some(it)) => item_menu_outcome(s, result, TickAction::UnequipItem { item: it }, replay.index),
                (ItemMenuResult::Selected, None) => stay,
                _ => item_menu_outcome(s, result, TickAction::Nothing, replay.index),
            },
            _ => stay,
        },
        RunState::ShowTargeting { range, item } => match input {
            TickInput::Target { result, target } => item_menu_outcome(s, result, TickAction::UseItem { item, target }, replay.index),
            _ => stay,
        },
        RunState::SaveGame => TickOutcome {
            next: RunState::MainMenu { menu_selection: MainMenuSelection::LoadGame }, action: TickAction::SaveGame, replay_index: replay.index },
        RunState::NextLevel => TickOutcome { next: RunState::PreRun, action: TickAction::GotoNextLevel, replay_index: replay.index },
        RunState::GameOver => match input {
            TickInput::GameOverScreen { choice: GameOverResult::QuitToMenu } => TickOutcome {
                next: RunState::MainMenu { menu_selection: MainMenuSelection::NewGame }, action: TickAction::GameOverCleanup, replay_index: replay.index },
            _ => stay,
        },
        RunState::MagicMapReveal { row } => TickOutcome {
            next: if row == map_height - 1 { RunState::MonsterTurn } else { RunState::MagicMapReveal { row: (row + 1) as i32 } },
            action: TickAction::RevealRow { row },
            replay_index: replay.index,
        },
    }
}

/// What a frame needs: a reveal works on a row of the map, and the replay counter has room.
pub open spec fn tick_ready(s: RunState, replay: MapGenReplay, map_height: i32) -> bool {
    &&& s matches RunState::MagicMapReveal { row } ==> 0 <= row < map_height
    &&& s is MapGeneration ==> replay.index < usize::MAX
}

/// Decides a frame of the game loop. While the map's generation is replayed, each time the
/// timer runs out the next snapshot is shown, and after the last one (or at once, when
/// generation is not shown step by step) the loop goes on to the state after the replay.
pub fn tick(s: RunState, input: TickInput, replay: MapGenReplay, map_height: i32) -> (out: TickOutcome)
    requires
        tick_ready(s, replay, map_height),
    ensures
        out == transition(s, input, replay, map_height),
{
    let stay = TickOutcome { next: s, action: TickAction::Nothing, replay_index: replay.index };
    match s {
        RunState::MapGeneration => match input {
            TickInput::MapGenTimer { elapsed } => {
                let mut next = s;
                if !SHOW_MAPGEN_VISUALIZATION {
                    next = replay.next_state;
                }
                let mut index = replay.index;
                if elapsed {
                    index = index + 1;
                    if index >= replay.history_len {
                        next = replay.next_state;
                    }
                }
                TickOutcome { next, action: TickAction::Nothing, replay_index: index }
            },
            _ => stay,
        },
        RunState::MainMenu { .. } => match input {
            TickInput::Menu { answer } => match answer {
                MainMenuResult::NoSelection { selected } => TickOutcome {
                    next: RunState::MainMenu { menu_selection: selected }, action: TickAction::Nothing, replay_index: replay.index },
                MainMenuResult::Selected { selected } => match selected {
                    MainMenuSelection::NewGame => TickOutcome { next: RunState::PreRun, action: TickAction::Nothing, replay_index: replay.index },
                    MainMenuSelection::LoadGame => TickOutcome { next: RunState::AwaitingInput, action: TickAction::LoadGame, replay_index: replay.index },
                    MainMenuSelection::Quit => TickOutcome { next: s, action: TickAction::Quit, replay_index: replay.index },
                },
            },
            _ => stay,
        },
        RunState::PreRun | RunState::MonsterTurn => match input {
            TickInput::SystemsRan { .. } => TickOutcome { next: RunState::AwaitingInput, action: TickAction::Nothing, replay_index: replay.index },
            _ => stay,
        },
        RunState::AwaitingInput => match input {
            TickInput::PlayerInput { next } => TickOutcome { next, action: TickAction::Nothing, replay_index: replay.index },
            _ => stay,
        },
        RunState::PlayerTurn => match input {
            TickInput::SystemsRan { magic_map } => {
                let next = if magic_map { RunState::MagicMapReveal { row: 0 } } else { RunState::MonsterTurn };
                TickOutcome { next, action: TickAction::Nothing, replay_index: replay.index }
            },
            _ => stay,
        },
        RunState::ShowInventory => match input {
            TickInput::ItemMenu { result, item, ranged } => match result {
                ItemMenuResult::Cancel => TickOutcome { next: RunState::AwaitingInput, action: TickAction::Nothing, replay_index: replay.index },
                ItemMenuResult::NoResponse => stay,
                ItemMenuResult::Selected => match item {
                    Some(it) => match ranged {
                        Some(range) => TickOutcome { next: RunState::ShowTargeting { range, item: it }, action: TickAction::Nothing, replay_index: replay.index },
                        None => TickOutcome { next: RunState::PlayerTurn, action: TickAction::UseItem { item: it, target: None }, replay_index: replay.index },
                    },
                    None => stay,
                },
            },
            _ => stay,
        },
        RunState::ShowDropItem => match input {
            TickInput::ItemMenu { result, item, .. } => match result {
                ItemMenuResult::Cancel => TickOutcome { next: RunState::AwaitingInput, action: TickAction::Nothing, replay_index: replay.index },
                ItemMenuResult::NoResponse => stay,
                ItemMenuResult::Selected => match item {
                    Some(it) => TickOutcome { next: RunState::PlayerTurn, action: TickAction::DropItem { item: it }, replay_index: replay.index },
                    None => stay,
                },
            },
            _ => stay,
        },
        RunState::ShowRemoveItem => match input {
            TickInput::ItemMenu { result, item, .. } => match result {
                ItemMenuResult::Cancel => TickOutcome { next: RunState::AwaitingInput, action: TickAction::Nothing, replay_index: replay.index },
                ItemMenuResult::NoResponse => stay,
                ItemMenuResult::Selected => match item {
                    Some(it) => TickOutcome { next: RunState::PlayerTurn, action: TickAction::UnequipItem { item: it }, replay_index: replay.index },
                    None => stay,
                },
            },
            _ => stay,
        },
        RunState::ShowTargeting { range, item } => match input {
            TickInput::Target { result, target } => match result {
                ItemMenuResult::Cancel => TickOutcome { next: RunState::AwaitingInput, action: TickAction::Nothing, replay_index: replay.index },
                ItemMenuResult::NoResponse => stay,
                ItemMenuResult::Selected => TickOutcome { next: RunState::PlayerTurn, action: TickAction::UseItem { item, target }, replay_index: replay.index },
            },
            _ => stay,
        },
        RunState::SaveGame => TickOutcome {
            next: RunState::MainMenu { menu_selection: MainMenuSelection::LoadGame }, action: TickAction::SaveGame, replay_index: replay.index },
        RunState::NextLevel => TickOutcome { next: RunState::PreRun, action: TickAction::GotoNextLevel, replay_index: replay.index },
        RunState::GameOver => match input {
            TickInput::GameOverScreen { choice } => match choice {
                GameOverResult::QuitToMenu => TickOutcome {
                    next: RunState::MainMenu { menu_selection: MainMenuSelection::NewGame }, action: TickAction::GameOverCleanup, replay_index: replay.index },
                GameOverResult::NoSelection => stay,
            },
            _ => stay,
        },
        RunState::MagicMapReveal { row } => {
            let next = if row == map_height - 1 { RunState::MonsterTurn } else { RunState::MagicMapReveal { row: row + 1 } };
            TickOutcome { next, action: TickAction::RevealRow { row }, replay_index: replay.index }
        },
    }
}

/// Marks every tile of row `row` as revealed.
pub fn reveal_row(map: &mut GameMap, row: i32)
    requires
        old(map).wf(),
        0 <= row < old(map).height,
    ensures
        final(map).wf(),
        final(map).tiles == old(map).tiles,
        final(map).width == old(map).width,
        final(map).height == old(map).height,
        final(map).depth == old(map).depth,
        final(map).visible_tiles == old(map).visible_tiles,
        final(map).blocked == old(map).blocked,
        forall|x: int, y: int| 0 <= x < final(map).width && 0 <= y < final(map).height ==>
            #[trigger] final(map).revealed_tiles@[x]@[y] == (y == row || old(map).revealed_tiles@[x]@[y]),
{
    let ghost m0 = *map;
    let mut x: i32 = 0;
    while x < map.width
        invariant
            m0.wf(),
            0 <= row < m0.height,
            map.tiles == m0.tiles,
            map.width == m0.width,
            map.height == m0.height,
            map.depth == m0.depth,
            map.visible_tiles == m0.visible_tiles,
            map.blocked == m0.blocked,
            map.bloodstains == m0.bloodstains,
            grid_wf(map.revealed_tiles@, map.width as int, map.height as int),
            0 <= x <= map.width,
            forall|a: int, b: int| 0 <= a < map.width && 0 <= b < map.height ==>
                #[trigger] map.revealed_tiles@[a]@[b] == ((a < x && b == row) || m0.revealed_tiles@[a]@[b]),
        decreases map.width - x,
    {
        let ghost before = map.revealed_tiles@;
        grid_set(&mut map.revealed_tiles, x as usize, row as usize, true);
        proof {
            assert forall|a: int| 0 <= a < map.width implies (#[trigger] map.revealed_tiles@[a])@.len() == map.height by {
                if a != x {
                    assert(map.revealed_tiles@[a] == before[a]);
                }
            }
            assert forall|a: int, b: int| 0 <= a < map.width && 0 <= b < map.height implies
                #[trigger] map.revealed_tiles@[a]@[b] == ((a < x + 1 && b == row) || m0.revealed_tiles@[a]@[b]) by {
                if a != x {
                    assert(map.revealed_tiles@[a] == before[a]);
                }
            }
        }
        x = x + 1;
    }
}

/// The states a run of frames passes through when every frame reports `input`.
pub open spec fn run_frames(s: RunState, input: TickInput, replay: MapGenReplay, map_height: i32, n: nat) -> RunState
    decreases n,
{
    if n == 0 {
        s
    } else {
        run_frames(transition(s, input, replay, map_height).next, input, replay, map_height, (n - 1) as nat)
    }
}

/// The turn cycle and the menus: after the first run of the systems and after the monsters'
/// turn the game waits for input; a key press leads where the player asked; an item list
/// that is cancelled goes back to waiting, one left unanswered stays open, and a chosen
/// item to drop or take off is dropped or taken off and ends the player's turn; saving
/// returns to the main menu with loading highlighted; going down starts a new level; a
/// frame that reports nothing changes nothing where the game waits on something.
pub proof fn lemma_turn_cycle(magic_map: bool, next: RunState, item: EntityId, ranged: Option<i32>, replay: MapGenReplay, map_height: i32)
    ensures
        transition(RunState::PreRun, TickInput::SystemsRan { magic_map }, replay, map_height).next == RunState::AwaitingInput,
        transition(RunState::MonsterTurn, TickInput::SystemsRan { magic_map }, replay, map_height).next == RunState::AwaitingInput,
        transition(RunState::AwaitingInput, TickInput::PlayerInput { next }, replay, map_height).next == next,
        forall|s: RunState| (s is ShowInventory || s is ShowDropItem || s is ShowRemoveItem) ==> {
            &&& #[trigger] transition(s, TickInput::ItemMenu { result: ItemMenuResult::Cancel, item: Some(item), ranged }, replay, map_height).next
                == RunState::AwaitingInput
            &&& transition(s, TickInput::ItemMenu { result: ItemMenuResult::NoResponse, item: Some(item), ranged }, replay, map_height).next == s
        },
        transition(RunState::ShowDropItem, TickInput::ItemMenu { result: ItemMenuResult::Selected, item: Some(item), ranged }, replay, map_height)
            == (TickOutcome { next: RunState::PlayerTurn, action: TickAction::DropItem { item }, replay_index: replay.index }),
        transition(RunState::ShowRemoveItem, TickInput::ItemMenu { result: ItemMenuResult::Selected, item: Some(item), ranged }, replay, map_height)
            == (TickOutcome { next: RunState::PlayerTurn, action: TickAction::UnequipItem { item }, replay_index: replay.index }),
        transition(RunState::SaveGame, TickInput::Nothing, replay, map_height)
            == (TickOutcome { next: RunState::MainMenu { menu_selection: MainMenuSelection::LoadGame }, action: TickAction::SaveGame,
                replay_index: replay.index }),
        transition(RunState::NextLevel, TickInput::Nothing, replay, map_height)
            == (TickOutcome { next: RunState::PreRun, action: TickAction::GotoNextLevel, replay_index: replay.index }),
        forall|s: RunState| !(s is SaveGame || s is NextLevel || s is MagicMapReveal || s is MapGeneration) ==>
            #[trigger] transition(s, TickInput::Nothing, replay, map_height)
                == (TickOutcome { next: s, action: TickAction::Nothing, replay_index: replay.index }),
{
}

/// A player turn is followed by the monsters' turn, unless an item asked for the map to be
/// revealed; then the reveal starts at the top row.
pub proof fn lemma_player_turn_then_monsters(magic_map: bool, replay: MapGenReplay, map_height: i32)
    ensures
        transition(RunState::PlayerTurn, TickInput::SystemsRan { magic_map }, replay, map_height).next
            == if magic_map { RunState::MagicMapReveal { row: 0 } } else { RunState::MonsterTurn },
{
}

/// A reveal started at row `row` reveals one row per frame, and once the bottom row of a map
/// `map_height` high is done the monsters get their turn: after `map_height - row` frames.
pub proof fn lemma_magic_map_reveals_all_rows(row: i32, map_height: i32, input: TickInput, replay: MapGenReplay)
    requires
        0 <= row < map_height,
    ensures
        run_frames(RunState::MagicMapReveal { row }, input, replay, map_height, (map_height - row) as nat) == RunState::MonsterTurn,
        forall|k: int| 0 <= k < map_height - row ==> #[trigger] transition(
            run_frames(RunState::MagicMapReveal { row }, input, replay, map_height, k as nat), input, replay, map_height).action
            == (TickAction::RevealRow { row: (row + k) as i32 }),
    decreases map_height - row,
{
    if row < map_height - 1 {
        lemma_magic_map_reveals_all_rows((row + 1) as i32, map_height, input, replay);
        assert forall|k: int| 0 <= k < map_height - row implies #[trigger] transition(
            run_frames(RunState::MagicMapReveal { row }, input, replay, map_height, k as nat), input, replay, map_height).action
            == (TickAction::RevealRow { row: (row + k) as i32 }) by {
            if k > 0 {
                assert(run_frames(RunState::MagicMapReveal { row }, input, replay, map_height, k as nat)
                    == run_frames(RunState::MagicMapReveal { row: (row + 1) as i32 }, input, replay, map_height, (k - 1) as nat));
                assert(transition(run_frames(RunState::MagicMapReveal { row: (row + 1) as i32 }, input, replay, map_height, (k - 1) as nat),
                    input, replay, map_height).action == (TickAction::RevealRow { row: (row + 1 + (k - 1)) as i32 }));
            }
        }
        assert(run_frames(RunState::MagicMapReveal { row }, input, replay, map_height, (map_height - row) as nat)
            == run_frames(RunState::MagicMapReveal { row: (row + 1) as i32 }, input, replay, map_height, (map_height - (row + 1)) as nat));
    } else {
        assert(run_frames(RunState::MonsterTurn, input, replay, map_height, 0) == RunState::MonsterTurn);
        assert forall|k: int| 0 <= k < map_height - row implies #[trigger] transition(
            run_frames(RunState::MagicMapReveal { row }, input, replay, map_height, k as nat), input, replay, map_height).action
            == (TickAction::RevealRow { row: (row + k) as i32 }) by {
            assert(k == 0);
        }
    }
}

/// Leaving the game-over screen always goes back to the main menu, with a new game
/// highlighted, after the world is cleaned up.
pub proof fn lemma_game_over_returns_to_menu(replay: MapGenReplay, map_height: i32)
    ensures
        transition(RunState::GameOver, TickInput::GameOverScreen { choice: GameOverResult::QuitToMenu }, replay, map_height)
            == (TickOutcome { next: RunState::MainMenu { menu_selection: MainMenuSelection::NewGame }, action: TickAction::GameOverCleanup,
                replay_index: replay.index }),
{
}

/// What a change of level needs to know of a thing: who it is, whether it is the player,
/// whose pack it is in, and who has it equipped.
#[derive(PartialEq, Eq, Copy, Clone, Debug, Structural)]
pub struct Belonging {
    pub entity: EntityId,
    pub is_player: bool,
    pub in_backpack_of: Option<EntityId>,
    pub equipped_by: Option<EntityId>,
}

/// A thing goes with the player to the next level: the player, and what the player carries
/// or wears.
pub open spec fn goes_along(b: Belonging, player: EntityId) -> bool {
    b.is_player || b.in_backpack_of == Some(player) || b.equipped_by == Some(player)
}

/// The things left behind on a change of level, in order.
pub open spec fn left_behind(things: Seq<Belonging>, player: EntityId) -> Seq<EntityId>
    decreases things.len(),
{
    if things.len() == 0 {
        Seq::empty()
    } else if goes_along(things.last(), player) {
        left_behind(things.drop_last(), player)
    } else {
        left_behind(things.drop_last(), player).push(things.last().entity)
    }
}

/// The entities to delete when the player goes down a level (see `left_behind`).
pub fn entities_to_remove_on_level_change(things: &Vec<Belonging>, player: EntityId) -> (r: Vec<EntityId>)
    ensures
        r@ == left_behind(things@, player),
{
    let mut r: Vec<EntityId> = Vec::new();
    let mut i: usize = 0;
    while i < things.len()
        invariant
            i <= things@.len(),
            r@ == left_behind(things@.subrange(0, i as int), player),
        decreases things@.len() - i,
    {
        let b = things[i];
        proof {
            assert(things@.subrange(0, i + 1).drop_last() =~= things@.subrange(0, i as int));
        }
        let keep = b.is_player || b.in_backpack_of == Some(player) || b.equipped_by == Some(player);
        if !keep {
            r.push(b.entity);
        }
        i = i + 1;
    }
    proof {
        assert(things@.subrange(0, things@.len() as int) =~= things@);
    }
    r
}

} // verus!
