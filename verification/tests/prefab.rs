use rusty_roguelike::map::{GameMap, TileType};
use rusty_roguelike::map_builders::prefab_builder::prefab_levels::PrefabLevel;
use rusty_roguelike::map_builders::prefab_builder::prefab_rooms::{checkerboard, chickfila, trap, well};
use bracket_lib::prelude::XpFile;
use rusty_roguelike::map_builders::prefab_builder::{apply_room_vaults, load_ascii_map, read_ascii_to_vec, rex_image, vault_positions, PrefabBuilder};
use rusty_roguelike::map_builders::BuilderMap;
use rusty_roguelike::random_tables::EntityType;

fn fresh(width: i32, height: i32) -> BuilderMap {
    BuilderMap {
        spawn_list: Vec::new(),
        map: GameMap::with_size(1, width, height),
        starting_position: None,
        rooms: None,
        corridors: None,
        history: Vec::new(),
        width,
        height,
    }
}

#[test]
fn read_ascii_drops_line_breaks() {
    let cells = read_ascii_to_vec("\n#.\r\n@>\n");
    assert_eq!(cells, vec!['#', '.', '@', '>']);
}

#[test]
fn read_ascii_turns_no_break_space_into_space() {
    let cells = read_ascii_to_vec("a\u{a0}b");
    assert_eq!(cells, vec!['a', ' ', 'b']);
}

#[test]
fn ascii_level_is_laid_from_the_corner() {
    let mut bd = fresh(10, 10);
    let level = PrefabLevel { template: "#.@\n>b#", width: 3, height: 2 };
    load_ascii_map(&level, &mut bd);
    assert_eq!(bd.map.tiles[0][0], TileType::Wall);
    assert_eq!(bd.map.tiles[1][0], TileType::Floor);
    assert_eq!(bd.map.tiles[2][0], TileType::Floor);
    assert_eq!(bd.map.tiles[0][1], TileType::DownStairs);
    assert_eq!(bd.map.tiles[1][1], TileType::Floor);
    assert_eq!(bd.map.tiles[2][1], TileType::Wall);
    let start = bd.starting_position.unwrap();
    assert_eq!((start.x, start.y), (2, 0));
    assert_eq!(bd.spawn_list, vec![((1, 1), EntityType::Bisat)]);
}

#[test]
fn vault_positions_need_all_floor() {
    let mut map = GameMap::with_size(1, 8, 8);
    for x in 0..8usize {
        for y in 0..8usize {
            map.tiles[x][y] = TileType::Floor;
        }
    }
    map.tiles[1][1] = TileType::Wall;
    let spots = vault_positions(&map, 2, 2);
    let coords: Vec<(i32, i32)> = spots.iter().map(|p| (p.x, p.y)).collect();
    assert_eq!(coords, vec![(2, 0), (3, 0), (2, 1), (3, 1), (0, 2), (1, 2), (2, 2), (3, 2), (0, 3), (1, 3), (2, 3), (3, 3)]);
}

fn open_floor(depth: i32, width: i32, height: i32) -> BuilderMap {
    let mut bd = fresh(width, height);
    bd.map = GameMap::with_size(depth, width, height);
    for x in 0..width as usize {
        for y in 0..height as usize {
            bd.map.tiles[x][y] = TileType::Floor;
        }
    }
    bd
}

#[test]
fn listed_vaults_have_their_sizes() {
    assert_eq!((trap().width, trap().height), (5, 5));
    assert_eq!((chickfila().width, chickfila().height), (3, 1));
    assert_eq!((checkerboard().width, checkerboard().height), (6, 5));
    assert_eq!((well().width, well().height), (7, 5));
    assert_eq!((well().first_depth, well().last_depth), (0, 100));
}

#[test]
fn a_deep_open_level_gets_at_least_one_vault() {
    for _ in 0..5 {
        let mut bd = open_floor(5, 40, 40);
        apply_room_vaults(&mut bd);
        let walls = bd.map.tiles.iter().flatten().filter(|t| **t == TileType::Wall).count();
        assert!(!bd.spawn_list.is_empty() || walls > 0);
        assert_eq!(bd.map.width, 40);
    }
}

#[test]
fn a_solid_level_gets_no_vault() {
    let mut bd = fresh(30, 30);
    bd.map = GameMap::with_size(5, 30, 30);
    let before = bd.map.tiles.clone();
    apply_room_vaults(&mut bd);
    assert_eq!(bd.map.tiles, before);
    assert!(bd.spawn_list.is_empty());
}

#[test]
fn rex_images_are_decoded_column_by_column() {
    let mut xp = XpFile::new(2, 3);
    xp.layers[0].get_mut(1, 0).unwrap().ch = '#' as u32;
    xp.layers[0].get_mut(0, 2).unwrap().ch = '>' as u32;
    xp.layers[0].get_mut(0, 2).unwrap().fg.r = 200;
    let mut bytes: Vec<u8> = Vec::new();
    xp.write(&mut bytes).unwrap();
    let layers = rex_image(&bytes).unwrap();
    assert_eq!(layers.len(), 1);
    assert_eq!((layers[0].width, layers[0].height), (2, 3));
    assert_eq!(layers[0].glyphs, vec![0, 0, '>' as u32, '#' as u32, 0, 0]);
    assert_eq!(layers[0].fg[2], (200, 0, 0));
    assert_eq!(layers[0].bg.len(), 6);
    assert!(PrefabBuilder::rex_level_from_image(&bytes).is_some());
}

#[test]
fn other_bytes_are_no_rex_image() {
    assert!(rex_image(&vec![1, 2, 3]).is_none());
    assert!(PrefabBuilder::rex_level_from_image(&Vec::new()).is_none());
}
