use bracket_lib::random::RandomNumberGenerator;
use rusty_roguelike::bystander_ai_system::{quip_line, BystanderAI};
use rusty_roguelike::camera::{draws_tile, entity_screen_position, get_screen_bounds, VIEWPORT_X, VIEWPORT_Y};
use rusty_roguelike::components::Position;
use rusty_roguelike::damage_system::{dropped_equipment, fate, remains_name, DamageSystem, Fate, Pool, Pools};
use rusty_roguelike::hunger_system::{clock_runs, HungerClock, HungerEvent, HungerState, HungerSystem};
use rusty_roguelike::inventory_system::{
    blast_tiles_in_bounds, feed, healed_hp, items_to_unequip, plan_item_use, use_targets, EquipmentSlot, EquippedItem, ItemEffects,
    equip_item, ItemHold, Wearing,
};
use rusty_roguelike::map::{GameMap, TileType};
use rusty_roguelike::map_indexing_system::{MapIndexingSystem, Placed};
use rusty_roguelike::melee_combat_system::{melee_outcome, MeleeBonuses, MeleeCombatSystem, MeleeOutcome};
use rusty_roguelike::monster_ai_system::{MonsterAI, MonsterPlan};
use rusty_roguelike::player::{command_state, get_item, plan_player_move, player_command, skip_turn_hp, PlayerCommand, PlayerKey, TileOccupant};
use rusty_roguelike::run_state::RunState;
use rusty_roguelike::trigger_system::{TileThing, TriggerSystem};

fn open_map(w: i32, h: i32) -> GameMap {
    let mut m = GameMap::with_size(1, w, h);
    for x in 0..w as usize {
        for y in 0..h as usize {
            m.tiles[x][y] = TileType::Floor;
        }
    }
    m
}

#[test]
fn meals_follow_the_hunger_rule() {
    assert_eq!(HungerSystem::calculate_new_hunger_state(150, HungerState::Normal, 100), (HungerState::WellFed, 50));
    assert_eq!(HungerSystem::calculate_new_hunger_state(50, HungerState::Normal, 100), (HungerState::Normal, 150));
    assert_eq!(HungerSystem::calculate_new_hunger_state(10, HungerState::WellFed, 100), (HungerState::WellFed, 20));
    assert_eq!(HungerSystem::calculate_new_hunger_state(5, HungerState::WellFed, 3), (HungerState::WellFed, 8));
    assert_eq!(HungerSystem::calculate_new_hunger_state(150, HungerState::Starving, 100), (HungerState::Hungry, 50));
    assert_eq!(HungerSystem::calculate_new_hunger_state(150, HungerState::Hungry, 100), (HungerState::Normal, 50));
}

#[test]
fn hunger_clock_runs_down() {
    let mut c = HungerClock { state: HungerState::WellFed, hunger_points: 5 };
    assert_eq!(HungerSystem::tick_clock(&mut c), HungerEvent::Nothing);
    assert_eq!(c.hunger_points, 4);
    let mut c = HungerClock { state: HungerState::WellFed, hunger_points: 1 };
    assert_eq!(HungerSystem::tick_clock(&mut c), HungerEvent::NoLongerWellFed);
    assert_eq!(c, HungerClock { state: HungerState::Normal, hunger_points: 200 });
    let mut c = HungerClock { state: HungerState::Starving, hunger_points: 1 };
    assert_eq!(HungerSystem::tick_clock(&mut c), HungerEvent::StarvationDamage);
    assert_eq!(c, HungerClock { state: HungerState::Starving, hunger_points: 200 });
    assert!(clock_runs(true, false, true));
    assert!(!clock_runs(true, false, false));
    assert!(clock_runs(false, true, false));
}

#[test]
fn eating_moves_the_clock() {
    let mut c = HungerClock { state: HungerState::Hungry, hunger_points: 180 };
    feed(&mut c, 50);
    assert_eq!(c, HungerClock { state: HungerState::Normal, hunger_points: 30 });
}

fn bonuses() -> MeleeBonuses {
    MeleeBonuses { might: 1, melee_skill: 2, well_fed: true, quickness: 0, defense_skill: 3 }
}

#[test]
fn melee_rule_values() {
    assert_eq!(melee_outcome(bonuses(), 1, 4), MeleeOutcome::Miss);
    assert_eq!(melee_outcome(bonuses(), 20, 4), MeleeOutcome::Hit { damage: 9 });
    // 9 + 1 + 2 + 1 = 13 > 13 is false: no damage.
    assert_eq!(melee_outcome(bonuses(), 9, 2), MeleeOutcome::NoDamage);
    assert_eq!(melee_outcome(bonuses(), 10, 2), MeleeOutcome::Hit { damage: 7 });
    let weak = MeleeBonuses { might: -10, melee_skill: 0, well_fed: false, quickness: 0, defense_skill: 0 };
    assert_eq!(melee_outcome(weak, 20, 1), MeleeOutcome::Hit { damage: 0 });
}

#[test]
fn melee_with_dice_stays_in_range() {
    let mut rng = RandomNumberGenerator::seeded(7);
    let mut seen_hit = false;
    let mut seen_other = false;
    let mut damages = Vec::new();
    for _ in 0..200 {
        match MeleeCombatSystem::resolve(&mut rng, bonuses()) {
            MeleeOutcome::Hit { damage } => {
                seen_hit = true;
                assert!((6..=9).contains(&damage));
                if !damages.contains(&damage) {
                    damages.push(damage);
                }
            }
            _ => seen_other = true,
        }
    }
    assert!(seen_hit && seen_other);
    assert!(damages.len() > 1);
}

#[test]
fn healing_is_capped() {
    assert_eq!(healed_hp(10, 30, 8), 18);
    assert_eq!(healed_hp(25, 30, 8), 30);
}

#[test]
fn equipping_takes_off_the_same_slot() {
    let eq = vec![
        EquippedItem { item: 1, owner: 9, slot: EquipmentSlot::Melee },
        EquippedItem { item: 2, owner: 9, slot: EquipmentSlot::Shield },
        EquippedItem { item: 3, owner: 4, slot: EquipmentSlot::Melee },
    ];
    assert_eq!(items_to_unequip(&eq, 9, EquipmentSlot::Melee), vec![1]);
    let fx = ItemEffects {
        equip_slot: Some(EquipmentSlot::Shield),
        food: None,
        heal: None,
        damage: None,
        confusion: None,
        magic_mapper: false,
        consumable: false,
    };
    let plan = plan_item_use(fx, vec![9], &eq);
    assert_eq!(plan.unequip, vec![2]);
    assert_eq!(plan.equip_by, Some(9));
    assert!(!plan.destroy_item);
}

#[test]
fn item_targets() {
    assert_eq!(use_targets(5, None, &vec![vec![1, 2]]), vec![5]);
    assert_eq!(use_targets(5, Some(Position { x: 1, y: 1 }), &vec![vec![1, 2], vec![], vec![3]]), vec![1, 2, 3]);
    let map = GameMap::with_size(1, 10, 10);
    let tiles = vec![Position { x: 0, y: 3 }, Position { x: 4, y: 4 }, Position { x: 10, y: 2 }, Position { x: 5, y: 5 }];
    assert_eq!(blast_tiles_in_bounds(&map, &tiles), vec![Position { x: 4, y: 4 }, Position { x: 5, y: 5 }]);
}

#[test]
fn damage_and_experience() {
    let mut p = Pools { hit_points: Pool { current: 10, max: 10 }, mana: Pool { current: 0, max: 0 }, xp: 0, level: 2 };
    let xp = DamageSystem::apply_damage(&mut p, &vec![(4, true), (7, true), (3, false), (1, true)]);
    assert_eq!(p.hit_points.current, -5);
    // The second and the fourth blow land with the victim below one hit point.
    assert_eq!(xp, 400);
    let mut player = Pools { hit_points: Pool { current: 10, max: 10 }, mana: Pool { current: 0, max: 0 }, xp: 900, level: 1 };
    player.hit_points.current = 3;
    assert!(DamageSystem::gain_xp(&mut player, 200, 40, 12));
    assert_eq!((player.xp, player.level), (1100, 2));
    assert_eq!(player.hit_points, Pool { current: 40, max: 40 });
    assert_eq!(player.mana, Pool { current: 12, max: 12 });
    player.hit_points.current = 5;
    assert!(!DamageSystem::gain_xp(&mut player, 100, 99, 99));
    assert_eq!(player.hit_points, Pool { current: 5, max: 40 });
    assert_eq!(player.mana, Pool { current: 12, max: 12 });
    assert_eq!(fate(0, true), Fate::GameOver);
    assert_eq!(fate(0, false), Fate::Remains);
    assert_eq!(fate(1, false), Fate::Alive);
}

#[test]
fn keys_and_commands() {
    assert_eq!(player_command(Some(PlayerKey::H)), PlayerCommand::Move { dx: -1, dy: 0 });
    assert_eq!(player_command(Some(PlayerKey::N)), PlayerCommand::Move { dx: 1, dy: 1 });
    assert_eq!(player_command(Some(PlayerKey::Other)), PlayerCommand::Nothing);
    assert_eq!(player_command(None), PlayerCommand::Nothing);
    assert_eq!(command_state(PlayerCommand::Descend, false), RunState::PlayerTurn);
    assert_eq!(command_state(PlayerCommand::Descend, true), RunState::NextLevel);
    assert_eq!(command_state(PlayerCommand::SaveGame, false), RunState::SaveGame);
    assert_eq!(command_state(PlayerCommand::Nothing, false), RunState::AwaitingInput);
}

#[test]
fn waiting_heals_when_safe() {
    assert_eq!(skip_turn_hp(5, 10, false, Some(HungerState::Normal)), 6);
    assert_eq!(skip_turn_hp(10, 10, false, None), 10);
    assert_eq!(skip_turn_hp(5, 10, true, None), 5);
    assert_eq!(skip_turn_hp(5, 10, false, Some(HungerState::Hungry)), 5);
}

#[test]
fn stepping_attacks_opens_and_moves() {
    let map = open_map(10, 10);
    let here = Position { x: 4, y: 4 };
    let fight = vec![
        TileOccupant { entity: 1, fights: false, door: true },
        TileOccupant { entity: 2, fights: true, door: false },
        TileOccupant { entity: 3, fights: false, door: true },
    ];
    let plan = plan_player_move(&map, here, 1, 0, &fight);
    assert_eq!(plan.attack, Some(2));
    assert_eq!(plan.doors_opened, vec![1]);
    assert_eq!(plan.new_position, None);
    let plan = plan_player_move(&map, here, 1, 0, &vec![]);
    assert_eq!(plan.new_position, Some(Position { x: 5, y: 4 }));
    let edge = plan_player_move(&map, Position { x: 1, y: 4 }, -1, 0, &vec![]);
    assert_eq!(edge.new_position, None);
}

#[test]
fn bystanders_wander_and_block() {
    let mut map = open_map(10, 10);
    let mut pos = Position { x: 4, y: 4 };
    map.blocked[4][4] = true;
    assert!(BystanderAI::wander(&mut map, &mut pos, 2));
    assert_eq!(pos, Position { x: 5, y: 4 });
    assert!(map.blocked[5][4]);
    assert!(!map.blocked[4][4]);
    map.blocked[5][3] = true;
    assert!(!BystanderAI::wander(&mut map, &mut pos, 3));
    assert_eq!(pos, Position { x: 5, y: 4 });
    assert!(!BystanderAI::wander(&mut map, &mut pos, 5));
}

#[test]
fn bystanders_quip_only_when_seeing_the_player() {
    let mut rng = RandomNumberGenerator::seeded(3);
    let mut quips = vec!["Hello".to_string(), "Nice day".to_string()];
    for _ in 0..50 {
        assert_eq!(BystanderAI::pick_quip(&mut rng, &mut quips, false), None);
    }
    assert_eq!(quips.len(), 2);
    let mut said = 0;
    for _ in 0..200 {
        if let Some(q) = BystanderAI::pick_quip(&mut rng, &mut quips, true) {
            assert!(q == "Hello" || q == "Nice day");
            said += 1;
        }
    }
    assert_eq!(said, 2);
    assert!(quips.is_empty());
}

#[test]
fn traps_spare_their_own() {
    let things = vec![
        TileThing { entity: 1, entry_trigger: true, damage: Some(6), single_activation: true },
        TileThing { entity: 2, entry_trigger: false, damage: None, single_activation: false },
        TileThing { entity: 3, entry_trigger: true, damage: None, single_activation: false },
    ];
    let t = TriggerSystem::triggered(1, &things);
    assert_eq!(t.len(), 1);
    assert_eq!(t[0].trap, 3);
    let t = TriggerSystem::triggered(9, &things);
    assert_eq!(t.len(), 2);
    assert_eq!((t[0].trap, t[0].damage, t[0].spent), (1, Some(6), true));
}

#[test]
fn indexing_lists_who_stands_where() {
    let mut map = open_map(6, 6);
    map.tiles[0][0] = TileType::Wall;
    let things = vec![
        Placed { entity: 10, pos: Position { x: 2, y: 2 }, blocks: false },
        Placed { entity: 11, pos: Position { x: 2, y: 2 }, blocks: true },
        Placed { entity: 12, pos: Position { x: 3, y: 1 }, blocks: false },
    ];
    let content = MapIndexingSystem::index(&mut map, &things);
    assert_eq!(content[2][2], vec![10, 11]);
    assert_eq!(content[3][1], vec![12]);
    assert!(content[1][1].is_empty());
    assert!(map.blocked[2][2]);
    assert!(!map.blocked[3][1]);
    assert!(map.blocked[0][0]);
}

#[test]
fn camera_centres_on_the_player() {
    let (min_x, max_x, min_y, max_y) = get_screen_bounds(Position { x: 50, y: 40 });
    assert_eq!((min_x, max_x, min_y, max_y), (16, 16 + VIEWPORT_X, 8, 8 + VIEWPORT_Y));
    assert_eq!(entity_screen_position(Position { x: 20, y: 10 }, min_x, min_y, 100, 73), Some((4, 2)));
    assert_eq!(entity_screen_position(Position { x: 16, y: 10 }, min_x, min_y, 100, 73), None);
    assert!(draws_tile(3, 3, 10, 10, false, true));
    assert!(!draws_tile(3, 3, 10, 10, false, false));
    assert!(!draws_tile(10, 3, 10, 10, true, true));
}

#[test]
fn monsters_choose() {
    let p = Position { x: 5, y: 5 };
    assert_eq!(MonsterAI::plan(Some(3), Position { x: 6, y: 6 }, p, true), MonsterPlan::Confused { turns_left: 2 });
    assert_eq!(MonsterAI::plan(None, Position { x: 6, y: 6 }, p, false), MonsterPlan::Attack);
    assert_eq!(MonsterAI::plan(None, Position { x: 7, y: 5 }, p, true), MonsterPlan::Chase);
    assert_eq!(MonsterAI::plan(None, Position { x: 7, y: 5 }, p, false), MonsterPlan::Idle);
    let mut map = open_map(10, 10);
    let mut pos = Position { x: 1, y: 1 };
    MonsterAI::chase_step(&mut map, &mut pos, 23);
    assert_eq!(pos, Position { x: 2, y: 3 });
    assert!(map.blocked[2][3]);
}

#[test]
fn the_dead_leave_remains() {
    assert_eq!(remains_name("Rat"), "Remains of Rat".to_string());
    assert_eq!(remains_name(""), "Remains of ".to_string());
}

#[test]
fn the_dead_drop_what_they_wore_where_they_fell() {
    let equipped = vec![
        EquippedItem { item: 10, owner: 1, slot: EquipmentSlot::Melee },
        EquippedItem { item: 11, owner: 2, slot: EquipmentSlot::Melee },
        EquippedItem { item: 12, owner: 1, slot: EquipmentSlot::Shield },
        EquippedItem { item: 13, owner: 0, slot: EquipmentSlot::Shield },
    ];
    let victims = vec![(2, Position { x: 5, y: 6 }), (1, Position { x: 1, y: 2 })];
    let drops = dropped_equipment(&victims, &equipped);
    assert_eq!(
        drops,
        vec![(11, Position { x: 5, y: 6 }), (10, Position { x: 1, y: 2 }), (12, Position { x: 1, y: 2 })]
    );
    assert!(dropped_equipment(&Vec::new(), &equipped).is_empty());
}

#[test]
fn picking_up_takes_the_last_item_listed_underfoot() {
    let here = Position { x: 3, y: 4 };
    let items = vec![(5, here), (6, Position { x: 1, y: 1 }), (7, here), (8, Position { x: 4, y: 3 })];
    assert_eq!(get_item(&items, here), Some(7));
    assert_eq!(get_item(&items, Position { x: 9, y: 9 }), None);
    assert_eq!(get_item(&Vec::new(), here), None);
}

#[test]
fn bystanders_are_quoted_by_name() {
    assert_eq!(quip_line("Bartender", "Drink up!"), "Bartender says \"Drink up!\"".to_string());
}

#[test]
fn a_one_says_the_rolled_quip_and_drops_it() {
    let mut quips = vec!["Hello".to_string(), "Nice day".to_string(), "Hmm".to_string()];
    assert_eq!(BystanderAI::say_quip(&mut quips, 1, 2), Some("Nice day".to_string()));
    assert_eq!(quips, vec!["Hello".to_string(), "Hmm".to_string()]);
}

#[test]
fn any_other_chance_roll_says_nothing() {
    let mut quips = vec!["Hello".to_string(), "Nice day".to_string()];
    for chance in 2..=6 {
        assert_eq!(BystanderAI::say_quip(&mut quips, chance, 1), None);
    }
    assert_eq!(quips.len(), 2);
}

#[test]
fn equipping_puts_the_old_item_in_the_backpack() {
    let worn = Some(Wearing { owner: 1, slot: EquipmentSlot::Melee });
    let mut holds = vec![
        ItemHold { item: 10, carried_by: None, worn },
        ItemHold { item: 11, carried_by: Some(1), worn: None },
        ItemHold { item: 12, carried_by: None, worn: Some(Wearing { owner: 1, slot: EquipmentSlot::Shield }) },
        ItemHold { item: 13, carried_by: None, worn: Some(Wearing { owner: 2, slot: EquipmentSlot::Melee }) },
    ];
    equip_item(&mut holds, 11, 1, EquipmentSlot::Melee);
    assert_eq!(holds[0], ItemHold { item: 10, carried_by: Some(1), worn: None });
    assert_eq!(holds[1], ItemHold { item: 11, carried_by: None, worn });
    assert_eq!(holds[2].worn, Some(Wearing { owner: 1, slot: EquipmentSlot::Shield }));
    assert_eq!(holds[3].worn, Some(Wearing { owner: 2, slot: EquipmentSlot::Melee }));
}
