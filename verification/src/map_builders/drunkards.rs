use vstd::prelude::*;

use crate::components::Position;
use crate::map::TileType;
use crate::map_builders::common::{lemma_centers_on_map, paint, replace_tiles, Symmetry};
use crate::map_builders::BuilderMap;
use crate::rng::roll_dice;

verus! {

/// Where each digger starts: always the map's centre, or (after the first) anywhere.
#[derive(PartialEq, Eq, Copy, Clone, Debug, Structural)]
pub enum DrunkSpawnMode {
    StartingPoint,
    Random,
}

/// How the diggers behave: where they start, how many steps each takes, what share of the
/// map (in percent) is to become floor, how wide they dig, and how their strokes mirror.
#[derive(Copy, Clone, Debug)]
pub struct DrunkardSettings {
    pub spawn_mode: DrunkSpawnMode,
    pub dr_lifetime: i32,
    pub floor_percentage: u64,
    pub brush_size: i32,
    pub symmetry: Symmetry,
}

impl DrunkardSettings {
    /// Sizes a digger can work with.
    pub open spec fn wf(&self) -> bool {
        &&& 0 <= self.dr_lifetime
        &&& self.floor_percentage <= 100
        &&& 1 <= self.brush_size <= 1000
    }
}

/// Digs caves with random walkers until enough of the map is floor.
pub struct DrunkardsWalkBuilder {
    pub settings: DrunkardSettings,
}

/// Every tile is as it was or has become floor.
pub open spec fn only_floored(m0: crate::map::GameMap, m: crate::map::GameMap) -> bool {
    forall|a: int, b: int| #![trigger m.tile(a, b)] m.on_map(a, b) ==> m.tile(a, b) == m0.tile(a, b) || m.tile(a, b) == TileType::Floor
}

impl DrunkardsWalkBuilder {
    /// A builder with the given settings.
    pub fn new(settings: DrunkardSettings) -> (b: Box<DrunkardsWalkBuilder>)
        ensures
            b.settings == settings,
    {
        Box::new(DrunkardsWalkBuilder { settings })
    }

    /// Long-lived diggers, all from the centre, until half the map is floor.
    pub fn open_area() -> (b: Box<DrunkardsWalkBuilder>)
        ensures
            b.settings == (DrunkardSettings { spawn_mode: DrunkSpawnMode::StartingPoint, dr_lifetime: 400, floor_percentage: 50, brush_size: 1, symmetry: Symmetry::NoSymmetry }),
    {
        Self::new(DrunkardSettings { spawn_mode: DrunkSpawnMode::StartingPoint, dr_lifetime: 400, floor_percentage: 50, brush_size: 1, symmetry: Symmetry::NoSymmetry })
    }

    /// Long-lived diggers from anywhere, until half the map is floor.
    pub fn open_halls() -> (b: Box<DrunkardsWalkBuilder>)
        ensures
            b.settings == (DrunkardSettings { spawn_mode: DrunkSpawnMode::Random, dr_lifetime: 400, floor_percentage: 50, brush_size: 1, symmetry: Symmetry::NoSymmetry }),
    {
        Self::new(DrunkardSettings { spawn_mode: DrunkSpawnMode::Random, dr_lifetime: 400, floor_percentage: 50, brush_size: 1, symmetry: Symmetry::NoSymmetry })
    }

    /// Short-lived wide diggers from anywhere, until 40% of the map is floor.
    pub fn fat_passages() -> (b: Box<DrunkardsWalkBuilder>)
        ensures
            b.settings == (DrunkardSettings { spawn_mode: DrunkSpawnMode::Random, dr_lifetime: 100, floor_percentage: 40, brush_size: 2, symmetry: Symmetry::NoSymmetry }),
    {
        Self::new(DrunkardSettings { spawn_mode: DrunkSpawnMode::Random, dr_lifetime: 100, floor_percentage: 40, brush_size: 2, symmetry: Symmetry::NoSymmetry })
    }

    /// Short-lived narrow diggers from anywhere, until 40% of the map is floor.
    pub fn winding_passages() -> (b: Box<DrunkardsWalkBuilder>)
        ensures
            b.settings == (DrunkardSettings { spawn_mode: DrunkSpawnMode::Random, dr_lifetime: 100, floor_percentage: 40, brush_size: 1, symmetry: Symmetry::NoSymmetry }),
    {
        Self::new(DrunkardSettings { spawn_mode: DrunkSpawnMode::Random, dr_lifetime: 100, floor_percentage: 40, brush_size: 1, symmetry: Symmetry::NoSymmetry })
    }

    /// Brief diggers mirrored left to right, until 40% of the map is floor.
    pub fn symmetrical_passages() -> (b: Box<DrunkardsWalkBuilder>)
        ensures
            b.settings == (DrunkardSettings { spawn_mode: DrunkSpawnMode::Random, dr_lifetime: 50, floor_percentage: 40, brush_size: 1, symmetry: Symmetry::Horizontal }),
    {
        Self::new(DrunkardSettings { spawn_mode: DrunkSpawnMode::Random, dr_lifetime: 50, floor_percentage: 40, brush_size: 1, symmetry: Symmetry::Horizontal })
    }

    /// Brief wide diggers mirrored both ways, until 40% of the map is floor.
    pub fn crazy_beer_goggles() -> (b: Box<DrunkardsWalkBuilder>)
        ensures
            b.settings == (DrunkardSettings { spawn_mode: DrunkSpawnMode::Random, dr_lifetime: 50, floor_percentage: 40, brush_size: 2, symmetry: Symmetry::Both }),
    {
        Self::new(DrunkardSettings { spawn_mode: DrunkSpawnMode::Random, dr_lifetime: 50, floor_percentage: 40, brush_size: 2, symmetry: Symmetry::Both })
    }

    /// The number of floor tiles the builder aims for on a `w` by `h` map.
    pub open spec fn desired_floor(&self, w: int, h: int) -> int {
        (w * h * self.settings.floor_percentage) / 100
    }

    /// Floors the map's centre, then sends diggers out one after another until the share
    /// of floor is reached: each walks `dr_lifetime` random steps, painting floor where it
    /// goes and staying two tiles inside the edges. Tiles only ever become floor, the
    /// centre is floor. The number of diggers sent comes back; the target is met unless it
    /// is `i32::MAX`.
    pub fn build(&mut self, rng: &mut bracket_lib::random::RandomNumberGenerator, build_data: &mut BuilderMap) -> (diggers: i32)
        requires
            old(self).settings.wf(),
            old(build_data).wf(),
            old(build_data).map.width >= 4,
            old(build_data).map.height >= 4,
        ensures
            final(build_data).wf(),
            final(build_data).same_but_tiles(*old(build_data)),
            only_floored(old(build_data).map, final(build_data).map),
            final(build_data).map.tile(old(build_data).map.width / 2, old(build_data).map.height / 2) == TileType::Floor,
            final(build_data).map.floor_count() >= old(self).desired_floor(old(build_data).map.width as int, old(build_data).map.height as int)
                || diggers == i32::MAX,
    {
        let ghost b0 = *build_data;
        let ghost m0 = b0.map;
        let w = build_data.map.width;
        let h = build_data.map.height;
        let starting_position = Position { x: w / 2, y: h / 2 };
        build_data.map.set_tile(starting_position.x as usize, starting_position.y as usize, TileType::Floor);
        let total_tiles = w as u64 * h as u64;
        proof {
            assert(total_tiles * self.settings.floor_percentage <= 100 * total_tiles) by (nonlinear_arith)
                requires self.settings.floor_percentage <= 100;
        }
        let desired_floor_tiles = total_tiles * self.settings.floor_percentage / 100;
        let mut floor_tile_count = build_data.map.get_total_floor_tiles() as u64;
        let mut digger_count: i32 = 0;
        while floor_tile_count < desired_floor_tiles && digger_count < i32::MAX
            invariant
                self.settings.wf(),
                build_data.wf(),
                build_data.same_but_tiles(b0),
                w == build_data.map.width,
                h == build_data.map.height,
                w >= 4,
                h >= 4,
                starting_position.x == w / 2,
                starting_position.y == h / 2,
                desired_floor_tiles == self.desired_floor(w as int, h as int),
                floor_tile_count == build_data.map.floor_count(),
                0 <= digger_count,
                only_floored(m0, build_data.map),
                build_data.map.tile(w / 2, h / 2) == TileType::Floor,
                digger_count > 0 ==> forall|a: int, b: int| #![trigger build_data.map.tile(a, b)] build_data.map.on_map(a, b)
                    ==> build_data.map.tile(a, b) != TileType::DownStairs,
            decreases i32::MAX - digger_count,
        {
            let mut did_something = false;
            let mut dr_x: i32;
            let mut dr_y: i32;
            match self.settings.spawn_mode {
                DrunkSpawnMode::StartingPoint => {
                    dr_x = starting_position.x;
                    dr_y = starting_position.y;
                },
                DrunkSpawnMode::Random => {
                    if digger_count == 0 {
                        dr_x = starting_position.x;
                        dr_y = starting_position.y;
                    } else {
                        dr_x = roll_dice(rng, 1, w - 3) + 1;
                        dr_y = roll_dice(rng, 1, h - 3) + 1;
                    }
                },
            }
            let mut dr_life = self.settings.dr_lifetime;
            while dr_life > 0
                invariant
                    self.settings.wf(),
                    build_data.wf(),
                    build_data.same_but_tiles(b0),
                    w == build_data.map.width,
                    h == build_data.map.height,
                    w >= 4,
                    h >= 4,
                    2 <= dr_x <= w - 2,
                    2 <= dr_y <= h - 2,
                    forall|a: int, b: int| #![trigger build_data.map.tile(a, b)] build_data.map.on_map(a, b) ==> {
                        ||| build_data.map.tile(a, b) == m0.tile(a, b)
                        ||| build_data.map.tile(a, b) == TileType::Floor
                        ||| build_data.map.tile(a, b) == TileType::DownStairs
                    },
                    build_data.map.tile(w / 2, h / 2) == TileType::Floor || build_data.map.tile(w / 2, h / 2) == TileType::DownStairs,
                decreases dr_life,
            {
                if build_data.map.tiles[dr_x as usize][dr_y as usize] == TileType::Wall {
                    did_something = true;
                }
                proof {
                    lemma_centers_on_map(self.settings.symmetry, build_data.map, dr_x as int, dr_y as int);
                }
                let ghost before = build_data.map;
                paint(&mut build_data.map, self.settings.symmetry, self.settings.brush_size, dr_x, dr_y);
                proof {
                    assert forall|a: int, b: int| #![trigger build_data.map.tile(a, b)] build_data.map.on_map(a, b) implies {
                        ||| build_data.map.tile(a, b) == m0.tile(a, b)
                        ||| build_data.map.tile(a, b) == TileType::Floor
                        ||| build_data.map.tile(a, b) == TileType::DownStairs
                    } by {
                        assert(before.tile(a, b) == before.tile(a, b));
                    }
                }
                build_data.map.set_tile(dr_x as usize, dr_y as usize, TileType::DownStairs);
                let stagger_direction = roll_dice(rng, 1, 4);
                match stagger_direction {
                    1 => {
                        if dr_x > 2 {
                            dr_x = dr_x - 1;
                        }
                    },
                    2 => {
                        if dr_x < w - 2 {
                            dr_x = dr_x + 1;
                        }
                    },
                    3 => {
                        if dr_y > 2 {
                            dr_y = dr_y - 1;
                        }
                    },
                    _ => {
                        if dr_y < h - 2 {
                            dr_y = dr_y + 1;
                        }
                    },
                }
                dr_life = dr_life - 1;
            }
            if did_something {
                build_data.take_snapshot();
            }
            digger_count = digger_count + 1;
            let ghost before = build_data.map;
            replace_tiles(&mut build_data.map, TileType::DownStairs, TileType::Floor);
            proof {
                assert forall|a: int, b: int| #![trigger build_data.map.tile(a, b)] build_data.map.on_map(a, b) implies
                    build_data.map.tile(a, b) == m0.tile(a, b) || build_data.map.tile(a, b) == TileType::Floor by {
                    assert(before.tile(a, b) == before.tile(a, b));
                }
                assert(before.tile(w / 2, h / 2) == before.tile(w / 2, h / 2));
            }
            floor_tile_count = build_data.map.get_total_floor_tiles() as u64;
        }
        digger_count
    }
}

} // verus!
