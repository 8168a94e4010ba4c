use bracket_lib::random::RandomNumberGenerator;
use rusty_roguelike::map::{GameMap, TileType};
use rusty_roguelike::map_builders::bsp_interior::BspInteriorBuilder;
use rusty_roguelike::map_builders::debug_map::DebugMapBuilder;
use rusty_roguelike::map_builders::noise_vegitation::{NoiseBand, NoiseVegitationBuilder};
use rusty_roguelike::map_builders::room_corner_rounding::RoomCornerRounding;
use rusty_roguelike::map_builders::room_exploder::{walk_digger, RoomExploder};
use rusty_roguelike::map_builders::simple_map::SimpleMapBuilder;
use rusty_roguelike::map_builders::town::TownBuilder;
use rusty_roguelike::map_builders::yellow_brick_road::YellowBrickRoad;
use rusty_roguelike::map_builders::{
    forest_builder, level_builder, random_builder, random_initial_builder, BuilderChain, BuilderMap, InitialBuilder, MetaBuilder,
};
use rusty_roguelike::random_tables::{EntityType, RandomTable};
use rusty_roguelike::rect::Rect;

fn fresh(width: i32, height: i32) -> BuilderMap {
    BuilderMap {
        spawn_list: Vec::new(),
        map: GameMap::with_size(1, width, height),
        starting_position: None,
        rooms: None,
        corridors: None,
        history: Vec::new(),
        width,
        height,
    }
}

fn touch(a: &Rect, b: &Rect) -> bool {
    a.x1 <= b.x2 && a.x2 >= b.x1 && a.y1 <= b.y2 && a.y2 >= b.y1
}

#[test]
fn debug_map_opens_all_but_the_frame() {
    let mut bd = fresh(5, 4);
    let mut rng = RandomNumberGenerator::seeded(1);
    DebugMapBuilder::new().build(&mut rng, &mut bd);
    for x in 0..5usize {
        for y in 0..4usize {
            let inner = x >= 1 && x <= 3 && y >= 1 && y <= 2;
            assert_eq!(bd.map.tiles[x][y] == TileType::Floor, inner);
        }
    }
}

#[test]
fn vegetation_grows_on_floor_only() {
    let mut bd = fresh(3, 1);
    bd.map.tiles[0][0] = TileType::Floor;
    bd.map.tiles[1][0] = TileType::Floor;
    bd.map.tiles[2][0] = TileType::Wall;
    let bands = vec![vec![NoiseBand::High], vec![NoiseBand::Low], vec![NoiseBand::High]];
    let mut rng = RandomNumberGenerator::seeded(1);
    NoiseVegitationBuilder::new().build(&mut rng, &mut bd, &bands);
    assert_eq!(bd.map.tiles[0][0], TileType::Moss);
    assert_eq!(bd.map.tiles[1][0], TileType::Grass);
    assert_eq!(bd.map.tiles[2][0], TileType::Wall);
}

#[test]
fn simple_map_rooms_never_touch() {
    let mut rng = RandomNumberGenerator::seeded(11);
    for _ in 0..5 {
        let mut bd = fresh(80, 50);
        SimpleMapBuilder::new().build(&mut rng, &mut bd);
        let rooms = bd.rooms.clone().unwrap();
        assert!(!rooms.is_empty() && rooms.len() <= 30);
        for i in 0..rooms.len() {
            for j in 0..rooms.len() {
                if i != j {
                    assert!(!touch(&rooms[i], &rooms[j]));
                }
            }
        }
        let last = rooms[rooms.len() - 1].center();
        assert_eq!(bd.map.tiles[last.0 as usize][last.1 as usize], TileType::DownStairs);
        let first = rooms[0].center();
        let start = bd.starting_position.unwrap();
        assert_eq!((start.x, start.y), first);
    }
}

#[test]
fn bsp_interior_rooms_fit_inside_the_frame() {
    let mut rng = RandomNumberGenerator::seeded(5);
    let mut bd = fresh(80, 50);
    let table = RandomTable::new().add(EntityType::Rat, 10).add(EntityType::HealthPotion, 5);
    BspInteriorBuilder::new().build(&mut rng, &mut bd, &table);
    let rooms = bd.rooms.clone().unwrap();
    assert!(rooms.len() >= 2);
    for r in rooms.iter() {
        assert!(r.x1 >= 1 && r.x2 <= 79 && r.y1 >= 1 && r.y2 <= 49);
        assert!(r.x2 > r.x1 && r.y2 > r.y1);
    }
    let last = rooms[rooms.len() - 1].center();
    assert_eq!(bd.map.tiles[last.0 as usize][last.1 as usize], TileType::DownStairs);
}

#[test]
fn town_walls_and_buildings() {
    let mut rng = RandomNumberGenerator::seeded(21);
    let mut bd = fresh(80, 50);
    TownBuilder::grass_layer(&mut bd);
    let waves: Vec<i32> = (0..50).map(|y| (y % 21) - 10).collect();
    let ws = TownBuilder::water_and_piers(&mut rng, &mut bd, &waves);
    for y in 0..50usize {
        assert!(ws[y] >= waves[y] + 15 && ws[y] <= waves[y] + 20);
        assert_eq!(bd.map.tiles[0][y], TileType::DeepWater);
        assert_eq!(bd.map.tiles[40][y], TileType::Grass);
    }
    let (mut available, gap) = TownBuilder::town_walls(&mut rng, &mut bd);
    assert!(gap >= 6 && gap <= 46);
    assert_eq!(bd.map.tiles[30][1], TileType::Wall);
    assert_eq!(bd.map.tiles[40][gap as usize], TileType::Road);
    let (buildings, _) = TownBuilder::buildings(&mut rng, &mut bd, &mut available);
    assert_eq!(buildings.len(), 12);
    for (i, a) in buildings.iter().enumerate() {
        assert!(a.2 >= 5 && a.2 <= 12 && a.3 >= 5 && a.3 <= 12);
        for (j, b) in buildings.iter().enumerate() {
            if i != j {
                // No tile of one building is in or next to (across an edge) another.
                let overlap_h = b.0 <= a.0 + a.2 && b.0 + b.2 - 1 >= a.0 - 1 && b.1 <= a.1 + a.3 - 1 && b.1 + b.3 - 1 >= a.1;
                let overlap_v = b.0 <= a.0 + a.2 - 1 && b.0 + b.2 - 1 >= a.0 && b.1 <= a.1 + a.3 && b.1 + b.3 - 1 >= a.1 - 1;
                assert!(!overlap_h && !overlap_v);
            }
        }
    }
    let doors = TownBuilder::add_doors(&mut rng, &mut bd, &buildings, gap);
    assert_eq!(doors.len(), 12);
    for d in doors.iter() {
        assert_eq!(bd.map.tiles[d.0 as usize][d.1 as usize], TileType::Floor);
    }
    assert_eq!(bd.spawn_list.len(), 12);
    assert!(bd.spawn_list.iter().all(|s| s.1 == EntityType::Door));
    let roads = TownBuilder::road_tiles(&bd.map);
    assert!(!roads.is_empty());
    let k = TownBuilder::nearest_road(&roads, doors[0]);
    let best = roads[k];
    let d2 = |r: (i32, i32)| (r.0 - doors[0].0) * (r.0 - doors[0].0) + (r.1 - doors[0].1) * (r.1 - doors[0].1);
    assert!(roads.iter().all(|r| d2(*r) >= d2(best)));
    TownBuilder::finish(&mut bd, &buildings, gap);
    assert_eq!(bd.map.tiles[75][gap as usize], TileType::DownStairs);
    let k = TownBuilder::largest_building(&buildings);
    let pubb = buildings[k];
    let start = bd.starting_position.unwrap();
    assert_eq!((start.x, start.y), (pubb.0 + pubb.2 / 2, pubb.1 + pubb.3 / 2));
}

#[test]
fn largest_building_is_the_first_of_the_largest() {
    let b = vec![(0, 0, 5, 5), (0, 0, 6, 5), (0, 0, 5, 6), (0, 0, 4, 4)];
    assert_eq!(TownBuilder::largest_building(&b), 1);
}

#[test]
fn road_seeks_the_nearest_walkable_tile() {
    let mut map = GameMap::with_size(1, 10, 10);
    map.tiles[2][3] = TileType::Floor;
    map.tiles[8][8] = TileType::Floor;
    assert_eq!(YellowBrickRoad::find_exit(&map, 9, 9), (8, 8));
    assert_eq!(YellowBrickRoad::find_exit(&map, 0, 0), (2, 3));
}

#[test]
fn road_is_laid_around_its_steps() {
    let mut bd = fresh(10, 10);
    bd.map.tiles[5][5] = TileType::DownStairs;
    YellowBrickRoad::lay_road(&mut bd, &vec![44]);
    assert_eq!(bd.map.tiles[4][4], TileType::Road);
    assert_eq!(bd.map.tiles[5][4], TileType::Road);
    assert_eq!(bd.map.tiles[3][4], TileType::Road);
    assert_eq!(bd.map.tiles[4][3], TileType::Road);
    assert_eq!(bd.map.tiles[4][5], TileType::Road);
    assert_eq!(bd.map.tiles[5][5], TileType::DownStairs);
    assert_eq!(bd.map.tiles[5][3], TileType::Wall);
    YellowBrickRoad::lay_stream(&mut bd, &vec![11, 12], (1, 1));
    assert_eq!(bd.map.tiles[1][1], TileType::DownStairs);
}

#[test]
fn chains_end_with_vaults() {
    let mut rng = RandomNumberGenerator::seeded(2);
    for _ in 0..20 {
        let chain = random_builder(3, &mut rng);
        assert!(chain.starter.is_some());
        assert_eq!(chain.builders.last(), Some(&MetaBuilder::Vaults));
        assert_eq!(chain.build_data.map.depth, 3);
    }
    let town = level_builder(1, &mut rng, 100, 73);
    assert_eq!(town.starter, Some(InitialBuilder::Town));
    assert_eq!(town.builders.len(), 2);
    assert_eq!(town.builders[1], MetaBuilder::DistantExit);
    let forest = forest_builder(2, &mut rng, 100, 73);
    assert_eq!(forest.starter, Some(InitialBuilder::CellularAutomata));
    assert_eq!(forest.builders.len(), 6);
    let (first, rooms) = random_initial_builder(&mut rng);
    assert_eq!(rooms, matches!(first, InitialBuilder::BspDungeon | InitialBuilder::BspInterior | InitialBuilder::Simple));
}

#[test]
fn chain_keeps_one_starter() {
    let mut chain = BuilderChain::new(1);
    chain.start_with(InitialBuilder::Maze);
    chain.with(MetaBuilder::CullUnreachable);
    assert_eq!(chain.starter, Some(InitialBuilder::Maze));
    assert_eq!(chain.builders, vec![MetaBuilder::CullUnreachable]);
}

#[test]
fn rounding_walls_the_corners_of_a_room() {
    let mut bd = fresh(10, 10);
    for x in 3..=6usize {
        for y in 3..=6usize {
            bd.map.tiles[x][y] = TileType::Floor;
        }
    }
    bd.rooms = Some(vec![Rect::new(2, 2, 4, 4)]);
    RoomCornerRounding::new().build(&mut bd);
    for x in 0..10usize {
        for y in 0..10usize {
            let inside = (3..=6).contains(&x) && (3..=6).contains(&y);
            let corner = (x == 3 || x == 6) && (y == 3 || y == 6);
            let expected = if inside && !corner { TileType::Floor } else { TileType::Wall };
            assert_eq!(bd.map.tiles[x][y], expected, "tile ({}, {})", x, y);
        }
    }
}

#[test]
fn a_digger_walking_east_stops_two_short_of_the_edge() {
    let mut map = GameMap::with_size(1, 20, 20);
    let dug = walk_digger(&mut map, (5, 5), &vec![2; 20]);
    assert!(dug);
    for x in 5..=18 {
        assert_eq!(map.tiles[x][5], TileType::Floor);
    }
    assert_eq!(map.tiles[19][5], TileType::Wall);
    assert_eq!(map.tiles[4][5], TileType::Wall);
    assert_eq!(map.tiles[5][6], TileType::Wall);
}

#[test]
fn a_digger_staggers_by_each_roll() {
    let mut map = GameMap::with_size(1, 20, 20);
    // north, west, south, east: the last roll moves it but it digs no more.
    let dug = walk_digger(&mut map, (10, 10), &vec![3, 1, 4, 2]);
    assert!(dug);
    assert_eq!(map.tiles[10][10], TileType::Floor);
    assert_eq!(map.tiles[10][9], TileType::Floor);
    assert_eq!(map.tiles[9][9], TileType::Floor);
    assert_eq!(map.tiles[9][10], TileType::Floor);
    assert_eq!(map.tiles[11][10], TileType::Wall);
}

#[test]
fn a_digger_on_floor_digs_no_wall_and_clears_staircases() {
    let mut map = GameMap::with_size(1, 20, 20);
    map.tiles[5][5] = TileType::Floor;
    map.tiles[1][1] = TileType::DownStairs;
    let dug = walk_digger(&mut map, (5, 5), &vec![]);
    assert!(!dug);
    assert_eq!(map.tiles[1][1], TileType::Floor);
    assert_eq!(map.tiles[5][5], TileType::Floor);
    let dug = walk_digger(&mut map, (5, 5), &vec![1]);
    assert!(!dug);
}

#[test]
fn room_exploder_only_adds_floor() {
    let mut bd = fresh(40, 30);
    let room = Rect::new(10, 10, 6, 5);
    for x in 11..=16 {
        for y in 11..=15 {
            bd.map.tiles[x][y] = TileType::Floor;
        }
    }
    bd.rooms = Some(vec![room]);
    let before = bd.map.tiles.clone();
    let mut rng = RandomNumberGenerator::seeded(7);
    RoomExploder::new().build(&mut rng, &mut bd);
    for x in 0..40 {
        for y in 0..30 {
            assert!(bd.map.tiles[x][y] == before[x][y] || bd.map.tiles[x][y] == TileType::Floor);
        }
    }
    assert_eq!(bd.rooms, Some(vec![room]));
}
