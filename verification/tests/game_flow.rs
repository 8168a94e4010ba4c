use rusty_roguelike::components::Position;
use rusty_roguelike::gui::{
    capture_item_options_selection, game_over, main_menu, ranged_target, target_cells, GameOverResult, ItemMenuResult, MainMenuResult, MainMenuSelection,
    MenuKey, OptionKey,
};
use rusty_roguelike::map::GameMap;
use rusty_roguelike::run_state::{
    entities_to_remove_on_level_change, reveal_row, runs_systems, tick, Belonging, MapGenReplay, RunState, TickAction, TickInput,
};

fn replay() -> MapGenReplay {
    MapGenReplay { next_state: RunState::MainMenu { menu_selection: MainMenuSelection::NewGame }, index: 0, history_len: 3 }
}

#[test]
fn escape_in_menu_chooses_quit() {
    let r = main_menu(Some(MainMenuSelection::LoadGame), Some(MenuKey::Escape), true);
    assert_eq!(r, MainMenuResult::Selected { selected: MainMenuSelection::Quit });
}

#[test]
fn menu_skips_load_without_save() {
    let down = main_menu(Some(MainMenuSelection::NewGame), Some(MenuKey::Down), false);
    assert_eq!(down, MainMenuResult::NoSelection { selected: MainMenuSelection::Quit });
    let up = main_menu(Some(MainMenuSelection::Quit), Some(MenuKey::Up), false);
    assert_eq!(up, MainMenuResult::NoSelection { selected: MainMenuSelection::NewGame });
}

#[test]
fn menu_moves_through_load_with_save() {
    let down = main_menu(Some(MainMenuSelection::NewGame), Some(MenuKey::Down), true);
    assert_eq!(down, MainMenuResult::NoSelection { selected: MainMenuSelection::LoadGame });
    let up = main_menu(Some(MainMenuSelection::LoadGame), Some(MenuKey::Up), true);
    assert_eq!(up, MainMenuResult::NoSelection { selected: MainMenuSelection::NewGame });
    let wrap = main_menu(Some(MainMenuSelection::NewGame), Some(MenuKey::Up), true);
    assert_eq!(wrap, MainMenuResult::NoSelection { selected: MainMenuSelection::Quit });
}

#[test]
fn menu_return_and_idle() {
    assert_eq!(
        main_menu(Some(MainMenuSelection::LoadGame), Some(MenuKey::Return), true),
        MainMenuResult::Selected { selected: MainMenuSelection::LoadGame }
    );
    assert_eq!(
        main_menu(Some(MainMenuSelection::Quit), None, true),
        MainMenuResult::NoSelection { selected: MainMenuSelection::Quit }
    );
    assert_eq!(main_menu(None, Some(MenuKey::Return), true), MainMenuResult::NoSelection { selected: MainMenuSelection::NewGame });
}

#[test]
fn item_list_answers() {
    assert_eq!(capture_item_options_selection(None, 3), (ItemMenuResult::NoResponse, None));
    assert_eq!(capture_item_options_selection(Some(OptionKey::Escape), 3), (ItemMenuResult::Cancel, None));
    assert_eq!(capture_item_options_selection(Some(OptionKey::Letter(2)), 3), (ItemMenuResult::Selected, Some(2)));
    assert_eq!(capture_item_options_selection(Some(OptionKey::Letter(3)), 3), (ItemMenuResult::NoResponse, None));
    assert_eq!(capture_item_options_selection(Some(OptionKey::Letter(-1)), 3), (ItemMenuResult::NoResponse, None));
}

#[test]
fn game_over_screen() {
    assert_eq!(game_over(false), GameOverResult::NoSelection);
    assert_eq!(game_over(true), GameOverResult::QuitToMenu);
    let out = tick(RunState::GameOver, TickInput::GameOverScreen { choice: GameOverResult::QuitToMenu }, replay(), 50);
    assert_eq!(out.next, RunState::MainMenu { menu_selection: MainMenuSelection::NewGame });
    assert_eq!(out.action, TickAction::GameOverCleanup);
}

#[test]
fn player_turn_leads_to_monsters_or_reveal() {
    assert!(runs_systems(RunState::PlayerTurn));
    assert!(!runs_systems(RunState::AwaitingInput));
    let a = tick(RunState::PlayerTurn, TickInput::SystemsRan { magic_map: false }, replay(), 50);
    assert_eq!(a.next, RunState::MonsterTurn);
    let b = tick(RunState::PlayerTurn, TickInput::SystemsRan { magic_map: true }, replay(), 50);
    assert_eq!(b.next, RunState::MagicMapReveal { row: 0 });
    let c = tick(RunState::MonsterTurn, TickInput::SystemsRan { magic_map: false }, replay(), 50);
    assert_eq!(c.next, RunState::AwaitingInput);
}

#[test]
fn magic_map_reveals_every_row_then_monsters_move() {
    let mut map = GameMap::with_size(1, 4, 3);
    let mut s = RunState::MagicMapReveal { row: 0 };
    let mut frames = 0;
    while let RunState::MagicMapReveal { .. } = s {
        let out = tick(s, TickInput::Nothing, replay(), map.height);
        if let TickAction::RevealRow { row } = out.action {
            reveal_row(&mut map, row);
        } else {
            panic!("a reveal frame reveals a row");
        }
        s = out.next;
        frames += 1;
    }
    assert_eq!(frames, 3);
    assert_eq!(s, RunState::MonsterTurn);
    for x in 0..4 {
        for y in 0..3 {
            assert!(map.revealed_tiles[x][y]);
        }
    }
}

#[test]
fn inventory_choices() {
    let s = RunState::ShowInventory;
    let ranged = tick(s, TickInput::ItemMenu { result: ItemMenuResult::Selected, item: Some(7), ranged: Some(6) }, replay(), 50);
    assert_eq!(ranged.next, RunState::ShowTargeting { range: 6, item: 7 });
    let drink = tick(s, TickInput::ItemMenu { result: ItemMenuResult::Selected, item: Some(7), ranged: None }, replay(), 50);
    assert_eq!(drink.next, RunState::PlayerTurn);
    assert_eq!(drink.action, TickAction::UseItem { item: 7, target: None });
    let cancel = tick(s, TickInput::ItemMenu { result: ItemMenuResult::Cancel, item: None, ranged: None }, replay(), 50);
    assert_eq!(cancel.next, RunState::AwaitingInput);
    let aim = tick(
        RunState::ShowTargeting { range: 6, item: 7 },
        TickInput::Target { result: ItemMenuResult::Selected, target: Some(Position { x: 3, y: 4 }) },
        replay(),
        50,
    );
    assert_eq!(aim.action, TickAction::UseItem { item: 7, target: Some(Position { x: 3, y: 4 }) });
    let drop = tick(RunState::ShowDropItem, TickInput::ItemMenu { result: ItemMenuResult::Selected, item: Some(2), ranged: None }, replay(), 50);
    assert_eq!(drop.action, TickAction::DropItem { item: 2 });
    let remove = tick(RunState::ShowRemoveItem, TickInput::ItemMenu { result: ItemMenuResult::Selected, item: Some(5), ranged: None }, replay(), 50);
    assert_eq!(remove.action, TickAction::UnequipItem { item: 5 });
}

#[test]
fn menu_choices_and_saving() {
    let m = RunState::MainMenu { menu_selection: MainMenuSelection::NewGame };
    let load = tick(m, TickInput::Menu { answer: MainMenuResult::Selected { selected: MainMenuSelection::LoadGame } }, replay(), 50);
    assert_eq!((load.next, load.action), (RunState::AwaitingInput, TickAction::LoadGame));
    let new = tick(m, TickInput::Menu { answer: MainMenuResult::Selected { selected: MainMenuSelection::NewGame } }, replay(), 50);
    assert_eq!(new.next, RunState::PreRun);
    let quit = tick(m, TickInput::Menu { answer: MainMenuResult::Selected { selected: MainMenuSelection::Quit } }, replay(), 50);
    assert_eq!(quit.action, TickAction::Quit);
    let save = tick(RunState::SaveGame, TickInput::Nothing, replay(), 50);
    assert_eq!(save.next, RunState::MainMenu { menu_selection: MainMenuSelection::LoadGame });
    assert_eq!(save.action, TickAction::SaveGame);
    let next = tick(RunState::NextLevel, TickInput::Nothing, replay(), 50);
    assert_eq!((next.next, next.action), (RunState::PreRun, TickAction::GotoNextLevel));
}

#[test]
fn map_generation_goes_straight_on() {
    let out = tick(RunState::MapGeneration, TickInput::MapGenTimer { elapsed: true }, replay(), 50);
    assert_eq!(out.next, RunState::MainMenu { menu_selection: MainMenuSelection::NewGame });
    assert_eq!(out.replay_index, 1);
    let idle = tick(RunState::MapGeneration, TickInput::MapGenTimer { elapsed: false }, replay(), 50);
    assert_eq!(idle.replay_index, 0);
}

#[test]
fn a_report_out_of_place_changes_nothing() {
    let out = tick(RunState::AwaitingInput, TickInput::SystemsRan { magic_map: true }, replay(), 50);
    assert_eq!(out.next, RunState::AwaitingInput);
    assert_eq!(out.action, TickAction::Nothing);
}

#[test]
fn the_player_takes_only_what_it_carries_and_wears_downstairs() {
    let thing = |entity: u32, is_player: bool, pack: Option<u32>, worn: Option<u32>| Belonging {
        entity,
        is_player,
        in_backpack_of: pack,
        equipped_by: worn,
    };
    let things = vec![
        thing(0, true, None, None),
        thing(1, false, None, None),
        thing(2, false, Some(0), None),
        thing(3, false, None, Some(0)),
        thing(4, false, Some(7), None),
        thing(5, false, None, Some(7)),
    ];
    assert_eq!(entities_to_remove_on_level_change(&things, 0), vec![1, 4, 5]);
}

#[test]
fn aiming_keeps_tiles_in_range_and_inside_the_frame() {
    let player = Position { x: 10, y: 10 };
    let bounds = (0, 69, 0, 65);
    let visible = vec![
        Position { x: 10, y: 10 },
        Position { x: 13, y: 14 },
        Position { x: 14, y: 14 },
        Position { x: 1, y: 10 },
        Position { x: 10, y: 7 },
    ];
    let cells = target_cells(&visible, player, 5, bounds);
    assert_eq!(cells, vec![Position { x: 10, y: 10 }, Position { x: 13, y: 14 }, Position { x: 10, y: 7 }]);
    assert!(target_cells(&visible, player, -1, bounds).is_empty());
}

#[test]
fn a_click_chooses_a_target_or_cancels() {
    let cells = vec![Position { x: 3, y: 3 }, Position { x: 4, y: 3 }];
    assert_eq!(ranged_target(&cells, Position { x: 4, y: 3 }, true), (ItemMenuResult::Selected, Some(Position { x: 4, y: 3 })));
    assert_eq!(ranged_target(&cells, Position { x: 4, y: 3 }, false), (ItemMenuResult::NoResponse, None));
    assert_eq!(ranged_target(&cells, Position { x: 9, y: 9 }, true), (ItemMenuResult::Cancel, None));
    assert_eq!(ranged_target(&cells, Position { x: 9, y: 9 }, false), (ItemMenuResult::NoResponse, None));
}
