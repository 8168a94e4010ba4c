use bracket_lib::random::RandomNumberGenerator;
use rusty_roguelike::components::Position;
use rusty_roguelike::map::{GameMap, TileType};
use rusty_roguelike::map_builders::cellular_automata::CellularAutomataBuilder;
use rusty_roguelike::map_builders::cull_unreachable::{CullUnreachable, UNREACHABLE};
use rusty_roguelike::map_builders::distant_exit::DistantExit;
use rusty_roguelike::map_builders::dla::DLABuilder;
use rusty_roguelike::map_builders::drunkards::DrunkardsWalkBuilder;
use rusty_roguelike::map_builders::maze::MazeBuilder;
use rusty_roguelike::map_builders::room_corridors_nearest::NearestCorridors;
use rusty_roguelike::map_builders::room_sorter::{sort_rooms, RoomSort};
use rusty_roguelike::map_builders::simple_map::SimpleMapBuilder;
use rusty_roguelike::map_builders::voronoi::{distance, DistanceAlgorithm, VoronoiCellBuilder, MAX_SEED_DRAWS};
use rusty_roguelike::map_builders::waveform_collapse::common::{tile_idx_in_chunk, MapChunk};
use rusty_roguelike::map_builders::waveform_collapse::WaveformCollapseBuilder;
use rusty_roguelike::map_builders::waveform_collapse::constraints::{build_patterns, patterns_to_constraints};
use rusty_roguelike::map_builders::waveform_collapse::solver::Solver;
use rusty_roguelike::map_builders::BuilderMap;
use rusty_roguelike::random_tables::{EntityType, RandomTable};
use rusty_roguelike::rect::Rect;

fn fresh(width: i32, height: i32) -> BuilderMap {
    BuilderMap {
        spawn_list: Vec::new(),
        map: GameMap::with_size(1, width, height),
        starting_position: None,
        rooms: None,
        corridors: None,
        history: Vec::new(),
        width,
        height,
    }
}

fn floors(m: &GameMap) -> usize {
    m.tiles.iter().map(|c| c.iter().filter(|t| **t == TileType::Floor).count()).sum()
}

#[test]
fn rectangles() {
    let a = Rect::new(1, 1, 4, 4);
    let b = Rect::new(5, 5, 2, 2);
    let c = Rect::new(6, 6, 2, 2);
    assert!(a.intersect(&b) && b.intersect(&a));
    assert!(!a.intersect(&c) && !c.intersect(&a));
    assert!(a.intersect(&a));
    assert_eq!(a.center(), (3, 3));
    assert_eq!(b.center(), (6, 6));
}

#[test]
fn random_table_picks_by_weight() {
    let t = RandomTable::new().add(EntityType::Rat, 3).add(EntityType::Ogur, 0).add(EntityType::Spectre, 2);
    assert_eq!(t.pick(0), EntityType::Nothing);
    assert_eq!(t.pick(2), EntityType::Rat);
    assert_eq!(t.pick(4), EntityType::Spectre);
    let mut rng = RandomNumberGenerator::seeded(4);
    let mut seen = Vec::new();
    for _ in 0..100 {
        let e = t.roll(&mut rng);
        assert!(e == EntityType::Nothing || e == EntityType::Rat || e == EntityType::Spectre);
        if !seen.contains(&e) {
            seen.push(e);
        }
    }
    assert!(seen.contains(&EntityType::Rat) && seen.contains(&EntityType::Spectre));
    assert_eq!(RandomTable::new().roll(&mut rng), EntityType::Nothing);
    assert_eq!(EntityType::HealthPotion.get_display_name(), "Health Potion");
}

#[test]
fn distances() {
    assert_eq!(distance(DistanceAlgorithm::Pythagoras, 0, 0, 3, 4), 25);
    assert_eq!(distance(DistanceAlgorithm::Manhattan, 0, 0, 3, -4), 7);
    assert_eq!(distance(DistanceAlgorithm::Chebyshev, 1, 1, 3, 7), 6);
}

#[test]
fn rooms_sort_leftmost_first() {
    let rooms = vec![Rect::new(9, 1, 2, 2), Rect::new(1, 5, 2, 2), Rect::new(4, 3, 2, 2)];
    let sorted = sort_rooms(&rooms, RoomSort::LEFTMOST, 40, 25);
    let xs: Vec<i32> = sorted.iter().map(|r| r.x1).collect();
    assert_eq!(xs, vec![1, 4, 9]);
    let sorted = sort_rooms(&rooms, RoomSort::TOPMOST, 40, 25);
    let ys: Vec<i32> = sorted.iter().map(|r| r.y1).collect();
    assert_eq!(ys, vec![1, 3, 5]);
}

#[test]
fn rooms_with_equal_keys_keep_their_order() {
    let rooms = vec![Rect::new(5, 9, 2, 2), Rect::new(1, 7, 2, 2), Rect::new(5, 3, 2, 2), Rect::new(5, 1, 2, 2)];
    let sorted = sort_rooms(&rooms, RoomSort::LEFTMOST, 40, 25);
    let corners: Vec<(i32, i32)> = sorted.iter().map(|r| (r.x1, r.y1)).collect();
    assert_eq!(corners, vec![(1, 7), (5, 9), (5, 3), (5, 1)]);
}

#[test]
fn carvers_only_lay_floor() {
    let mut rng = RandomNumberGenerator::seeded(9);
    let before = fresh(40, 30);
    let mut bd = fresh(40, 30);
    DrunkardsWalkBuilder::open_area().build(&mut rng, &mut bd);
    let mut bd2 = fresh(40, 30);
    DLABuilder::walk_inward().build(&mut rng, &mut bd2);
    for x in 0..40usize {
        for y in 0..30usize {
            assert!(bd.map.tiles[x][y] == before.map.tiles[x][y] || bd.map.tiles[x][y] == TileType::Floor
                || bd.map.tiles[x][y] == TileType::DownStairs);
            assert!(bd2.map.tiles[x][y] == before.map.tiles[x][y] || bd2.map.tiles[x][y] == TileType::Floor);
        }
    }
    assert!(floors(&bd.map) > 0);
    assert!(floors(&bd2.map) > 0);
}

#[test]
fn maze_and_caves_and_cells_open_the_map() {
    let mut rng = RandomNumberGenerator::seeded(12);
    let mut maze = fresh(30, 20);
    MazeBuilder::new().build(&mut rng, &mut maze);
    assert!(floors(&maze.map) > 0);
    let mut caves = fresh(30, 20);
    CellularAutomataBuilder::new().build(&mut rng, &mut caves);
    for x in 0..30usize {
        assert_eq!(caves.map.tiles[x][0], TileType::Wall);
        assert_eq!(caves.map.tiles[x][19], TileType::Wall);
    }
    let mut cells = fresh(30, 20);
    VoronoiCellBuilder::pythagoras().build(&mut rng, &mut cells);
    assert!(floors(&cells.map) > 0);
}

#[test]
fn culling_walls_the_unreachable() {
    let mut bd = fresh(4, 3);
    for x in 0..4usize {
        for y in 0..3usize {
            bd.map.tiles[x][y] = TileType::Floor;
        }
    }
    bd.starting_position = Some(Position { x: 0, y: 0 });
    let mut cull = CullUnreachable::new();
    let start = cull.prepare(&mut bd);
    assert_eq!(start, 0);
    let mut d: Vec<u32> = (0..12).map(|i| (i as f32).to_bits()).collect();
    d[5] = UNREACHABLE;
    cull.cull(&mut bd, &d);
    assert_eq!(bd.map.tiles[1][1], TileType::Wall);
    assert_eq!(bd.map.tiles[2][1], TileType::Floor);
}

#[test]
fn the_exit_goes_farthest_away() {
    let mut bd = fresh(4, 3);
    for x in 0..4usize {
        for y in 0..3usize {
            bd.map.tiles[x][y] = TileType::Floor;
        }
    }
    bd.starting_position = Some(Position { x: 0, y: 0 });
    let mut exit = DistantExit::new();
    exit.prepare(&mut bd);
    let mut d: Vec<u32> = (0..12).map(|i| ((i % 5) as f32).to_bits()).collect();
    d[11] = UNREACHABLE;
    exit.place_exit(&mut bd, &d);
    // Index 4 (x 0, y 1) and index 9 (x 1, y 2) are four away; the first in the scan wins.
    assert_eq!(bd.map.tiles[0][1], TileType::DownStairs);
    assert_eq!(bd.map.tiles[1][2], TileType::Floor);
}

#[test]
fn nearest_corridors_join_rooms() {
    let mut rng = RandomNumberGenerator::seeded(31);
    let mut bd = fresh(80, 50);
    SimpleMapBuilder::new().build(&mut rng, &mut bd);
    let n = bd.rooms.as_ref().unwrap().len();
    NearestCorridors::new().corridors(&mut bd);
    let cs = bd.corridors.as_ref().unwrap();
    assert!(cs.len() <= n);
    for c in cs.iter() {
        for (x, y) in c.iter() {
            assert_eq!(bd.map.tiles[*x][*y], TileType::Floor);
        }
    }
}

#[test]
fn central_attractor_grows_one_cave_from_the_middle() {
    let mut rng = RandomNumberGenerator::seeded(21);
    let mut bd = fresh(40, 30);
    DLABuilder::central_attractor().build(&mut rng, &mut bd);
    let m = &bd.map;
    assert_eq!(m.tiles[20][15], TileType::Floor);
    let mut seen = vec![vec![false; 30]; 40];
    let mut stack = vec![(20usize, 15usize)];
    seen[20][15] = true;
    let mut reached = 0;
    while let Some((x, y)) = stack.pop() {
        reached += 1;
        for (dx, dy) in [(-1i32, 0i32), (1, 0), (0, -1), (0, 1), (-1, -1), (1, -1), (-1, 1), (1, 1)] {
            let (nx, ny) = (x as i32 + dx, y as i32 + dy);
            if nx >= 0 && ny >= 0 && nx < 40 && ny < 30 {
                let (nx, ny) = (nx as usize, ny as usize);
                if !seen[nx][ny] && m.tiles[nx][ny] == TileType::Floor {
                    seen[nx][ny] = true;
                    stack.push((nx, ny));
                }
            }
        }
    }
    assert_eq!(reached, floors(m));
    assert!(reached > 40);
}

#[test]
fn carvers_reach_their_floor_share() {
    let mut rng = RandomNumberGenerator::seeded(5);
    let mut bd = fresh(40, 30);
    let diggers = DrunkardsWalkBuilder::open_area().build(&mut rng, &mut bd);
    assert!(diggers < i32::MAX);
    assert!(floors(&bd.map) >= 600);
    let mut bd2 = fresh(40, 30);
    let attempts = DLABuilder::walk_inward().build(&mut rng, &mut bd2);
    assert!(attempts < i32::MAX);
    assert!(floors(&bd2.map) >= 300);
    let mut small = fresh(4, 4);
    DLABuilder::walk_outward().build(&mut rng, &mut small);
    assert_eq!(small.map.tiles[2][2], TileType::Floor);
    let mut cells = fresh(30, 20);
    assert!(VoronoiCellBuilder::chebyshev().build(&mut rng, &mut cells) < MAX_SEED_DRAWS);
}

fn corridor() -> Vec<TileType> {
    vec![TileType::Wall, TileType::Wall, TileType::Wall, TileType::Floor, TileType::Floor, TileType::Floor, TileType::Wall, TileType::Wall, TileType::Wall]
}

#[test]
fn an_east_west_corridor_fits_itself_on_every_side() {
    let c = patterns_to_constraints(vec![corridor()], 3);
    assert_eq!(c.len(), 1);
    assert!(c[0].has_exits);
    assert_eq!(c[0].exits, [vec![false; 3], vec![false; 3], vec![false, true, false], vec![false, true, false]]);
    assert_eq!(c[0].compatible_with, [vec![0], vec![0], vec![0], vec![0]]);
}

#[test]
fn compatibility_goes_both_ways() {
    let open = vec![TileType::Floor; 9];
    let closed = vec![TileType::Wall; 9];
    let mut north = vec![TileType::Wall; 9];
    north[1] = TileType::Floor;
    let c = patterns_to_constraints(vec![corridor(), open, closed, north], 3);
    let opposite = [1, 0, 3, 2];
    for i in 0..4 {
        for j in 0..4 {
            for d in 0..4 {
                assert_eq!(c[i].compatible_with[d].contains(&j), c[j].compatible_with[opposite[d]].contains(&i));
            }
        }
        for d in 0..4 {
            assert!(c[i].compatible_with[d].contains(&2));
        }
    }
    // The corridor's closed north edge meets the open floor's open south edge: no fit.
    assert!(!c[0].compatible_with[0].contains(&1));
}

#[test]
fn flipping_gives_four_patterns_per_chunk() {
    let mut m = GameMap::with_size(1, 6, 3);
    m.tiles[0][0] = TileType::Floor;
    m.tiles[4][1] = TileType::Floor;
    let ps = build_patterns(&m, 3, true, false);
    assert_eq!(ps.len(), 8);
    let f = TileType::Floor;
    let w = TileType::Wall;
    assert_eq!(ps[0], vec![f, w, w, w, w, w, w, w, w]);
    assert_eq!(ps[1], vec![w, w, f, w, w, w, w, w, w]);
    assert_eq!(ps[2], vec![w, w, w, w, w, w, f, w, w]);
    assert_eq!(ps[3], vec![w, w, w, w, w, w, w, w, f]);
    assert_eq!(ps[4], vec![w, w, w, w, f, w, w, w, w]);
    let plain = build_patterns(&m, 3, false, false);
    assert_eq!(plain, vec![ps[0].clone(), ps[4].clone()]);
}

fn chunk(tile: TileType, compatible: Vec<usize>) -> MapChunk {
    MapChunk {
        pattern: vec![tile; 9],
        exits: [vec![false; 3], vec![false; 3], vec![false; 3], vec![false; 3]],
        has_exits: false,
        compatible_with: [compatible.clone(), compatible.clone(), compatible.clone(), compatible],
    }
}

#[test]
fn the_solver_places_only_chunks_the_neighbour_allows() {
    for seed in 0..20u64 {
        let mut rng = RandomNumberGenerator::seeded(seed);
        let mut map = GameMap::with_size(1, 6, 3);
        let constraints = vec![chunk(TileType::Wall, vec![1]), chunk(TileType::Floor, vec![0, 1])];
        let mut solver = Solver::new(constraints, 3, &map);
        assert!(!solver.iteration(&mut map, &mut rng));
        assert!(!solver.iteration(&mut map, &mut rng));
        assert!(solver.iteration(&mut map, &mut rng));
        let (a, b) = (solver.chunks[0].unwrap(), solver.chunks[1].unwrap());
        assert!(solver.constraints[a].compatible_with[3].contains(&b) || solver.constraints[b].compatible_with[2].contains(&a));
        assert!((a, b) != (0, 0));
        let expected = |c: usize| if c == 0 { TileType::Wall } else { TileType::Floor };
        assert_eq!(map.tiles[0][0], expected(a));
        assert_eq!(map.tiles[5][2], expected(b));
    }
}

#[test]
fn chunk_indices_are_row_major() {
    assert_eq!(tile_idx_in_chunk(8, 3, 2), 19);
    assert_eq!(tile_idx_in_chunk(50000, 7, 0), 7);
    assert_eq!(tile_idx_in_chunk(50000, 4, 1), 50004);
}

#[test]
fn no_patterns_make_no_constraints_at_any_size() {
    assert!(patterns_to_constraints(Vec::new(), 50000).is_empty());
}

#[test]
fn wave_function_collapse_solves_a_map_without_exits() {
    let mut rng = RandomNumberGenerator::seeded(4);
    let mut bd = fresh(17, 17);
    bd.map.tiles[3][3] = TileType::Floor;
    bd.map.tiles[12][4] = TileType::Floor;
    assert!(WaveformCollapseBuilder::new().build(&mut rng, &mut bd));
    for x in 0..17usize {
        for y in 0..17usize {
            let edge = x % 8 == 0 || x % 8 == 7 || y % 8 == 0 || y % 8 == 7 || x >= 16 || y >= 16;
            if edge {
                assert_eq!(bd.map.tiles[x][y], TileType::Wall);
            }
        }
    }
}
