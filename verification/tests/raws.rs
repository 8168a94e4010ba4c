use rusty_roguelike::random_tables::{EntityType, RandomTable};
use rusty_roguelike::raws::item_structs::Weapon;
use rusty_roguelike::raws::rawmaster::{get_spawn_table_for_depth, parse_dice_string, SpawnTableEntry};
use rusty_roguelike::raws::mob_structs::{mob_stats, MobStats, MobTemplate};
use rusty_roguelike::gui::{attribute_words, AttributeWord};
use rusty_roguelike::themes::{tile_glyph, wall_glyph};
use rusty_roguelike::map::{GameMap, TileType};

#[test]
fn dice_strings() {
    assert_eq!(parse_dice_string("1d8+1"), (1, 8, 1));
    assert_eq!(parse_dice_string("2d6"), (2, 6, 0));
    assert_eq!(parse_dice_string("3d4-2"), (3, 4, -2));
    assert_eq!(parse_dice_string(""), (1, 4, 0));
    assert_eq!(parse_dice_string("nothing"), (1, 4, 0));
    assert_eq!(parse_dice_string("deals 10d12+5 damage"), (10, 12, 5));
    assert_eq!(parse_dice_string("1d8+3 2d6"), (2, 6, 3));
    assert_eq!(parse_dice_string("1d+2"), (1, 4, 0));
    assert_eq!(parse_dice_string("12d6+"), (12, 6, 0));
}

#[test]
fn weapon_holds_its_dice() {
    let w = Weapon { range: "melee".to_string(), attribute: "Might".to_string(), base_damage: "1d8".to_string(), hit_bonus: 0 };
    assert_eq!(parse_dice_string(&w.base_damage), (1, 8, 0));
}

#[test]
fn spawn_table_by_depth() {
    let entries = vec![
        SpawnTableEntry { kind: EntityType::Rat, weight: 10, min_depth: 0, max_depth: 100, add_map_depth_to_weight: false },
        SpawnTableEntry { kind: EntityType::Ogur, weight: 1, min_depth: 2, max_depth: 100, add_map_depth_to_weight: true },
        SpawnTableEntry { kind: EntityType::Spectre, weight: 5, min_depth: 5, max_depth: 100, add_map_depth_to_weight: false },
    ];
    let t = get_spawn_table_for_depth(&entries, 3);
    // Rat 10, Ogur 1 + 3: a roll of 11 to 13 picks the Ogur; a roll that uses up the
    // rat's weight exactly picks nothing.
    assert_eq!(t.pick(9), EntityType::Rat);
    assert_eq!(t.pick(10), EntityType::Nothing);
    assert_eq!(t.pick(11), EntityType::Ogur);
    assert_eq!(t.pick(13), EntityType::Ogur);
    let shallow = get_spawn_table_for_depth(&entries, 1);
    assert_eq!(shallow.pick(9), EntityType::Rat);
    let _empty = RandomTable::new();
}

#[test]
fn mob_stats_fill_in_defaults() {
    let t = MobTemplate {
        might: Some(14),
        fitness: None,
        quickness: None,
        intelligence: Some(8),
        level: None,
        melee: Some(3),
        defense: None,
        magic: None,
        attack_dice: vec!["1d6+2".to_string(), "2d4".to_string()],
    };
    let s = mob_stats(&t);
    assert_eq!(s, MobStats {
        might: 14, fitness: 11, quickness: 11, intelligence: 8, level: 1, melee: 3, defense: 1, magic: 1,
        attacks: vec![(1, 6, 2), (2, 4, 0)],
    });
}

#[test]
fn tooltip_words_follow_the_bonuses() {
    assert_eq!(attribute_words(0, 0, 0, 0), vec![]);
    assert_eq!(attribute_words(-1, 2, 1, -3), vec![AttributeWord::Weak, AttributeWord::Agile, AttributeWord::Healthy, AttributeWord::Dumb]);
    assert_eq!(AttributeWord::Clumsy.text(), "Clumsy. ");
}

#[test]
fn tiles_have_their_glyphs() {
    assert_eq!(tile_glyph(TileType::Floor, 1), '.');
    assert_eq!(tile_glyph(TileType::Floor, 2), '"');
    assert_eq!(tile_glyph(TileType::Wall, 2), '\u{2663}');
    assert_eq!(tile_glyph(TileType::DownStairs, 5), '>');
    let mut m = GameMap::with_size(1, 5, 5);
    assert_eq!(wall_glyph(&m, 0, 2), 35);
    assert_eq!(wall_glyph(&m, 2, 2), 9);
    m.revealed_tiles[2][1] = true;
    m.revealed_tiles[3][2] = true;
    assert_eq!(wall_glyph(&m, 2, 2), 200);
}
