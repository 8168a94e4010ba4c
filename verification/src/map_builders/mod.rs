use vstd::prelude::*;

use crate::components::Position;
use crate::map::GameMap;
use crate::random_tables::EntityType;
use crate::rect::Rect;
use crate::rng::roll_dice;
use crate::map_builders::room_sorter::RoomSort;
use crate::map_builders::area_starting_points::{XStart, YStart};

pub mod area_starting_points;
pub mod bsp_interior;
pub mod cellular_automata;
pub mod common;
pub mod cull_unreachable;
pub mod debug_map;
pub mod distant_exit;
pub mod dla;
pub mod door_placement;
pub mod drunkards;
pub mod maze;
pub mod noise_vegitation;
pub mod prefab_builder;
pub mod room_corner_rounding;
pub mod room_corridor_spawner;
pub mod room_exploder;
pub mod room_corridors_nearest;
pub mod room_corridors_bsp;
pub mod room_corridors_dogleg;
pub mod room_based_stairs;
pub mod town;
pub mod room_based_starting_position;
pub mod room_draw;
pub mod room_sorter;
pub mod simple_map;
pub mod voronoi;
pub mod voronoi_spawning;
pub mod waveform_collapse;
pub mod yellow_brick_road;

verus! {

/// Whether each step of map generation is kept for replay.
pub const SHOW_MAPGEN_VISUALIZATION: bool = false;

/// Largest width or height a map under construction may have.
pub const MAX_MAP_SIDE: i32 = 10_000;

/// What is to be spawned where: a tile and the kind of thing.
pub type SpawnList = Vec<((i32, i32), EntityType)>;

/// Keeps a copy of `map`, fully revealed, in `history` when generation is being
/// visualised.
pub fn record_snapshot(history: &mut Vec<GameMap>, map: &GameMap)
    ensures
        !SHOW_MAPGEN_VISUALIZATION ==> *final(history) == *old(history),
        SHOW_MAPGEN_VISUALIZATION ==> final(history)@.len() == old(history)@.len() + 1,
{
    if SHOW_MAPGEN_VISUALIZATION {
        let mut snapshot = map.clone();
        let mut i: usize = 0;
        while i < snapshot.revealed_tiles.len()
            invariant
                i <= snapshot.revealed_tiles@.len(),
            decreases snapshot.revealed_tiles@.len() - i,
        {
            let n = snapshot.revealed_tiles[i].len();
            let mut col: Vec<bool> = Vec::new();
            let mut j: usize = 0;
            while j < n
                invariant
                    j <= n,
                decreases n - j,
            {
                col.push(true);
                j = j + 1;
            }
            snapshot.revealed_tiles.set(i, col);
            i = i + 1;
        }
        history.push(snapshot);
    }
}

/// A rectangle lies on a map `w` wide and `h` high.
pub open spec fn room_on_map(r: Rect, w: int, h: int) -> bool {
    r.wf() && r.x2 < w && r.y2 < h
}

/// The state that the builders of a chain pass along: the map, what to spawn, where the
/// player starts, and the rooms and corridors carved so far.
pub struct BuilderMap {
    pub spawn_list: SpawnList,
    pub map: GameMap,
    pub starting_position: Option<Position>,
    pub rooms: Option<Vec<Rect>>,
    pub corridors: Option<Vec<Vec<(usize, usize)>>>,
    pub history: Vec<GameMap>,
    pub width: i32,
    pub height: i32,
}

impl BuilderMap {
    /// The map is well formed, matches the recorded size, and every room lies on it.
    pub open spec fn wf(&self) -> bool {
        &&& self.map.wf()
        &&& self.width == self.map.width
        &&& self.height == self.map.height
        &&& self.width <= MAX_MAP_SIDE
        &&& self.height <= MAX_MAP_SIDE
        &&& match self.rooms {
            Some(rs) => forall|i: int| 0 <= i < rs@.len() ==> room_on_map(#[trigger] rs@[i], self.width as int, self.height as int),
            None => true,
        }
    }

    /// Everything but the map's tiles and the history is as in `other`.
    pub open spec fn same_but_tiles(&self, other: BuilderMap) -> bool {
        &&& self.map.same_frame(other.map)
        &&& self.spawn_list == other.spawn_list
        &&& self.starting_position == other.starting_position
        &&& self.rooms == other.rooms
        &&& self.corridors == other.corridors
        &&& self.width == other.width
        &&& self.height == other.height
    }

    /// Keeps a copy of the map, fully revealed, when generation is being visualised.
    pub fn take_snapshot(&mut self)
        ensures
            final(self).map == old(self).map,
            final(self).spawn_list == old(self).spawn_list,
            final(self).starting_position == old(self).starting_position,
            final(self).rooms == old(self).rooms,
            final(self).corridors == old(self).corridors,
            final(self).width == old(self).width,
            final(self).height == old(self).height,
            !SHOW_MAPGEN_VISUALIZATION ==> final(self).history == old(self).history,
            SHOW_MAPGEN_VISUALIZATION ==> final(self).history@.len() == old(self).history@.len() + 1,
    {
        record_snapshot(&mut self.history, &self.map);
    }
}


/// The builders a chain can start with.
#[derive(PartialEq, Eq, Copy, Clone, Debug, Structural)]
pub enum InitialBuilder {
    BspDungeon,
    BspInterior,
    CellularAutomata,
    DrunkardsOpenArea,
    DrunkardsOpenHalls,
    DrunkardsWindingPassages,
    DrunkardsFatPassages,
    DrunkardsSymmetricalPassages,
    DrunkardsCrazyBeerGoggles,
    Maze,
    DlaWalkInward,
    DlaWalkOutward,
    DlaInsectoid,
    DlaCentralAttractor,
    DlaWalkInwardsSymmetry,
    DlaWalkOutwardSymmetry,
    VoronoiPythagoras,
    VoronoiManhattan,
    VoronoiChebyshev,
    WfcPopulatedLevel,
    Simple,
    Town,
}

/// The builders a chain can go on with.
#[derive(PartialEq, Eq, Copy, Clone, Debug, Structural)]
pub enum MetaBuilder {
    SortRooms(RoomSort),
    DoglegCorridors,
    BspCorridors,
    RoomExploder,
    RoomCornerRounding,
    RoomBasedStartingPosition,
    AreaStartingPoint(XStart, YStart),
    RoomBasedStairs,
    DistantExit,
    RoomBasedSpawner,
    VoronoiSpawning,
    CullUnreachable,
    WaveformCollapse,
    UndergroundFort,
    Vaults,
    YellowBrickRoad,
    Noise,
    NoiseVegetation,
}

/// A chain of builders, one to start with and others after it, and the map they work on.
pub struct BuilderChain {
    pub starter: Option<InitialBuilder>,
    pub builders: Vec<MetaBuilder>,
    pub build_data: BuilderMap,
}

impl BuilderChain {
    /// An empty chain over a fresh map of the standard size at `depth`.
    pub fn new(depth: i32) -> (c: BuilderChain)
        ensures
            c.starter is None,
            c.builders@.len() == 0,
            c.build_data.wf(),
            c.build_data.map.depth == depth,
            c.build_data.spawn_list@.len() == 0,
            c.build_data.starting_position is None,
            c.build_data.rooms is None,
            c.build_data.corridors is None,
            c.build_data.history@.len() == 0,
    {
        let map = GameMap::new(depth);
        let width = map.width;
        let height = map.height;
        BuilderChain {
            starter: None,
            builders: Vec::new(),
            build_data: BuilderMap {
                spawn_list: Vec::new(),
                map,
                starting_position: None,
                rooms: None,
                corridors: None,
                history: Vec::new(),
                width,
                height,
            },
        }
    }

    /// An empty chain over a fresh `width` by `height` map at `depth`.
    pub fn with_size(depth: i32, width: i32, height: i32) -> (c: BuilderChain)
        requires
            0 < width <= MAX_MAP_SIDE,
            0 < height <= MAX_MAP_SIDE,
        ensures
            c.starter is None,
            c.builders@.len() == 0,
            c.build_data.wf(),
            c.build_data.map.depth == depth,
            c.build_data.width == width,
            c.build_data.height == height,
            c.build_data.spawn_list@.len() == 0,
            c.build_data.starting_position is None,
            c.build_data.rooms is None,
            c.build_data.corridors is None,
            c.build_data.history@.len() == 0,
    {
        assert(width * height <= 100_000_000) by (nonlinear_arith) requires 0 < width <= 10_000, 0 < height <= 10_000;
        let map = GameMap::with_size(depth, width, height);
        BuilderChain {
            starter: None,
            builders: Vec::new(),
            build_data: BuilderMap {
                spawn_list: Vec::new(),
                map,
                starting_position: None,
                rooms: None,
                corridors: None,
                history: Vec::new(),
                width,
                height,
            },
        }
    }

    /// Sets the builder to start with; a chain has only one.
    pub fn start_with(&mut self, starter: InitialBuilder)
        requires
            old(self).starter is None,
        ensures
            final(self).starter == Some(starter),
            final(self).builders == old(self).builders,
            final(self).build_data == old(self).build_data,
    {
        self.starter = Some(starter);
    }

    /// Adds a builder at the end of the chain.
    pub fn with(&mut self, metabuilder: MetaBuilder)
        ensures
            final(self).starter == old(self).starter,
            final(self).builders@ == old(self).builders@.push(metabuilder),
            final(self).build_data == old(self).build_data,
    {
        self.builders.push(metabuilder);
    }
}

/// The starting builder a roll of a twenty-sided die picks, and whether it makes rooms.
pub open spec fn initial_for_roll(r: int) -> (InitialBuilder, bool) {
    if r == 1 { (InitialBuilder::BspDungeon, true) }
    else if r == 2 { (InitialBuilder::BspInterior, true) }
    else if r == 3 { (InitialBuilder::CellularAutomata, false) }
    else if r == 4 { (InitialBuilder::DrunkardsOpenArea, false) }
    else if r == 5 { (InitialBuilder::DrunkardsOpenHalls, false) }
    else if r == 6 { (InitialBuilder::DrunkardsWindingPassages, false) }
    else if r == 7 { (InitialBuilder::DrunkardsFatPassages, false) }
    else if r == 8 { (InitialBuilder::DrunkardsSymmetricalPassages, false) }
    else if r == 9 { (InitialBuilder::DrunkardsCrazyBeerGoggles, false) }
    else if r == 10 { (InitialBuilder::Maze, false) }
    else if r == 11 { (InitialBuilder::DlaWalkInward, false) }
    else if r == 12 { (InitialBuilder::DlaWalkOutward, false) }
    else if r == 13 { (InitialBuilder::DlaInsectoid, false) }
    else if r == 14 { (InitialBuilder::DlaCentralAttractor, false) }
    else if r == 15 { (InitialBuilder::DlaWalkInwardsSymmetry, false) }
    else if r == 16 { (InitialBuilder::DlaWalkOutwardSymmetry, false) }
    else if r == 17 { (InitialBuilder::VoronoiPythagoras, false) }
    else if r == 18 { (InitialBuilder::VoronoiManhattan, false) }
    else if r == 19 { (InitialBuilder::VoronoiChebyshev, false) }
    else if r == 20 { (InitialBuilder::WfcPopulatedLevel, false) }
    else { (InitialBuilder::Simple, true) }
}

/// Picks a starting builder with a twenty-sided die (see `initial_for_roll`).
pub fn random_initial_builder(rng: &mut bracket_lib::random::RandomNumberGenerator) -> (r: (InitialBuilder, bool))
    ensures
        exists|roll: int| 1 <= roll <= 20 && r == #[trigger] initial_for_roll(roll),
{
    let roll = roll_dice(rng, 1, 20);
    let r = if roll == 1 { (InitialBuilder::BspDungeon, true) }
        else if roll == 2 { (InitialBuilder::BspInterior, true) }
        else if roll == 3 { (InitialBuilder::CellularAutomata, false) }
        else if roll == 4 { (InitialBuilder::DrunkardsOpenArea, false) }
        else if roll == 5 { (InitialBuilder::DrunkardsOpenHalls, false) }
        else if roll == 6 { (InitialBuilder::DrunkardsWindingPassages, false) }
        else if roll == 7 { (InitialBuilder::DrunkardsFatPassages, false) }
        else if roll == 8 { (InitialBuilder::DrunkardsSymmetricalPassages, false) }
        else if roll == 9 { (InitialBuilder::DrunkardsCrazyBeerGoggles, false) }
        else if roll == 10 { (InitialBuilder::Maze, false) }
        else if roll == 11 { (InitialBuilder::DlaWalkInward, false) }
        else if roll == 12 { (InitialBuilder::DlaWalkOutward, false) }
        else if roll == 13 { (InitialBuilder::DlaInsectoid, false) }
        else if roll == 14 { (InitialBuilder::DlaCentralAttractor, false) }
        else if roll == 15 { (InitialBuilder::DlaWalkInwardsSymmetry, false) }
        else if roll == 16 { (InitialBuilder::DlaWalkOutwardSymmetry, false) }
        else if roll == 17 { (InitialBuilder::VoronoiPythagoras, false) }
        else if roll == 18 { (InitialBuilder::VoronoiManhattan, false) }
        else if roll == 19 { (InitialBuilder::VoronoiChebyshev, false) }
        else if roll == 20 { (InitialBuilder::WfcPopulatedLevel, false) }
        else { (InitialBuilder::Simple, true) };
    assert(r == initial_for_roll(roll as int));
    r
}

/// The column a roll of a three-sided die picks for a start: left, right, or centre.
pub open spec fn x_start_for_roll(r: int) -> XStart {
    if r == 1 { XStart::LEFT } else if r == 2 { XStart::RIGHT } else { XStart::CENTER }
}

/// The row a roll of a three-sided die picks for a start: top, bottom, or centre.
pub open spec fn y_start_for_roll(r: int) -> YStart {
    if r == 1 { YStart::TOP } else if r == 2 { YStart::BOTTOM } else { YStart::CENTER }
}

/// Picks where on the map to start, with two three-sided dice.
pub fn random_start_position(rng: &mut bracket_lib::random::RandomNumberGenerator) -> (r: (XStart, YStart))
    ensures
        exists|a: int, b: int| 1 <= a <= 3 && 1 <= b <= 3 && r.0 == #[trigger] x_start_for_roll(a) && r.1 == #[trigger] y_start_for_roll(b),
{
    let a = roll_dice(rng, 1, 3);
    let x = if a == 1 { XStart::LEFT } else if a == 2 { XStart::RIGHT } else { XStart::CENTER };
    let b = roll_dice(rng, 1, 3);
    let y = if b == 1 { YStart::TOP } else if b == 2 { YStart::BOTTOM } else { YStart::CENTER };
    assert(x == x_start_for_roll(a as int) && y == y_start_for_roll(b as int));
    (x, y)
}

/// The room sort a roll of a five-sided die picks.
pub open spec fn sort_for_roll(r: int) -> RoomSort {
    if r == 1 { RoomSort::LEFTMOST } else if r == 2 { RoomSort::RIGHTMOST } else if r == 3 { RoomSort::TOPMOST }
    else if r == 4 { RoomSort::BOTTOMMOST } else { RoomSort::CENTRAL }
}

/// The builders a room-based chain goes on with, given its dice: the builder (1 simple,
/// 2 BSP dungeon, 3 BSP interior); unless it is the interior, a sort, corridors (dogleg on
/// 1, BSP otherwise) and, on 1 or 2 of six, explosion or corner rounding; then a start
/// (in a room on 1, else at `start`), stairs (in a room on 1, else far away) and spawns (in
/// rooms on 1, else by regions).
pub open spec fn room_chain(build: int, sort: int, corridors: int, shape: int, start_roll: int, start: (XStart, YStart),
    stairs: int, spawns: int) -> Seq<MetaBuilder> {
    let middle = if build != 3 {
        seq![MetaBuilder::SortRooms(sort_for_roll(sort)),
            if corridors == 1 { MetaBuilder::DoglegCorridors } else { MetaBuilder::BspCorridors }]
        + if shape == 1 { seq![MetaBuilder::RoomExploder] } else if shape == 2 { seq![MetaBuilder::RoomCornerRounding] } else { Seq::empty() }
    } else {
        Seq::empty()
    };
    middle + seq![
        if start_roll == 1 { MetaBuilder::RoomBasedStartingPosition } else { MetaBuilder::AreaStartingPoint(start.0, start.1) },
        if stairs == 1 { MetaBuilder::RoomBasedStairs } else { MetaBuilder::DistantExit },
        if spawns == 1 { MetaBuilder::RoomBasedSpawner } else { MetaBuilder::VoronoiSpawning },
    ]
}

/// The starting builder of a room-based chain for its first die.
pub open spec fn room_starter(build: int) -> InitialBuilder {
    if build == 1 { InitialBuilder::Simple } else if build == 2 { InitialBuilder::BspDungeon } else { InitialBuilder::BspInterior }
}

/// Sets up a chain of room builders with dice (see `room_chain`).
pub fn random_room_builder(rng: &mut bracket_lib::random::RandomNumberGenerator, builder: &mut BuilderChain)
    requires
        old(builder).starter is None,
    ensures
        final(builder).build_data == old(builder).build_data,
        exists|build: int, sort: int, corridors: int, shape: int, start_roll: int, start: (XStart, YStart), stairs: int, spawns: int|
            #![trigger room_chain(build, sort, corridors, shape, start_roll, start, stairs, spawns)]
            1 <= build <= 3 && 1 <= sort <= 5 && 1 <= corridors <= 2 && 1 <= shape <= 6 && 1 <= start_roll <= 2
            && 1 <= stairs <= 2 && 1 <= spawns <= 2
            && final(builder).starter == Some(room_starter(build))
            && final(builder).builders@ == old(builder).builders@ + room_chain(build, sort, corridors, shape, start_roll, start, stairs, spawns),
{
    let ghost b0 = builder.builders@;
    let build_roll = roll_dice(rng, 1, 3);
    if build_roll == 1 {
        builder.start_with(InitialBuilder::Simple);
    } else if build_roll == 2 {
        builder.start_with(InitialBuilder::BspDungeon);
    } else {
        builder.start_with(InitialBuilder::BspInterior);
    }
    let mut sort: i32 = 5;
    let mut corridors: i32 = 2;
    let mut shape: i32 = 6;
    if build_roll != 3 {
        sort = roll_dice(rng, 1, 5);
        let s = if sort == 1 { RoomSort::LEFTMOST } else if sort == 2 { RoomSort::RIGHTMOST } else if sort == 3 { RoomSort::TOPMOST }
            else if sort == 4 { RoomSort::BOTTOMMOST } else { RoomSort::CENTRAL };
        builder.with(MetaBuilder::SortRooms(s));
        corridors = roll_dice(rng, 1, 2);
        if corridors == 1 {
            builder.with(MetaBuilder::DoglegCorridors);
        } else {
            builder.with(MetaBuilder::BspCorridors);
        }
        shape = roll_dice(rng, 1, 6);
        if shape == 1 {
            builder.with(MetaBuilder::RoomExploder);
        } else if shape == 2 {
            builder.with(MetaBuilder::RoomCornerRounding);
        }
    }
    let start_roll = roll_dice(rng, 1, 2);
    let mut start = (XStart::CENTER, YStart::CENTER);
    if start_roll == 1 {
        builder.with(MetaBuilder::RoomBasedStartingPosition);
    } else {
        start = random_start_position(rng);
        builder.with(MetaBuilder::AreaStartingPoint(start.0, start.1));
    }
    let stairs = roll_dice(rng, 1, 2);
    if stairs == 1 {
        builder.with(MetaBuilder::RoomBasedStairs);
    } else {
        builder.with(MetaBuilder::DistantExit);
    }
    let spawns = roll_dice(rng, 1, 2);
    if spawns == 1 {
        builder.with(MetaBuilder::RoomBasedSpawner);
    } else {
        builder.with(MetaBuilder::VoronoiSpawning);
    }
    assert(builder.builders@ =~= b0 + room_chain(build_roll as int, sort as int, corridors as int, shape as int, start_roll as int,
        start, stairs as int, spawns as int));
}

/// The starting builder a roll of a sixteen-sided die picks for a shape-based chain.
pub open spec fn shape_for_roll(r: int) -> InitialBuilder {
    if r == 1 { InitialBuilder::CellularAutomata }
    else if r == 2 { InitialBuilder::DrunkardsOpenArea }
    else if r == 3 { InitialBuilder::DrunkardsOpenHalls }
    else if r == 4 { InitialBuilder::DrunkardsWindingPassages }
    else if r == 5 { InitialBuilder::DrunkardsSymmetricalPassages }
    else if r == 6 { InitialBuilder::DrunkardsCrazyBeerGoggles }
    else if r == 7 { InitialBuilder::DrunkardsFatPassages }
    else if r == 8 { InitialBuilder::Maze }
    else if r == 9 { InitialBuilder::DlaCentralAttractor }
    else if r == 10 { InitialBuilder::DlaInsectoid }
    else if r == 11 { InitialBuilder::DlaWalkInward }
    else if r == 12 { InitialBuilder::DlaWalkOutward }
    else if r == 13 { InitialBuilder::VoronoiPythagoras }
    else if r == 14 { InitialBuilder::VoronoiManhattan }
    else { InitialBuilder::WfcPopulatedLevel }
}

/// The builders a shape-based chain goes on with: a start at the centre, culling what it
/// cannot reach, a start at `start`, spawns by regions and an exit far away.
pub open spec fn shape_chain(start: (XStart, YStart)) -> Seq<MetaBuilder> {
    seq![
        MetaBuilder::AreaStartingPoint(XStart::CENTER, YStart::CENTER),
        MetaBuilder::CullUnreachable,
        MetaBuilder::AreaStartingPoint(start.0, start.1),
        MetaBuilder::VoronoiSpawning,
        MetaBuilder::DistantExit,
    ]
}

/// Sets up a chain that starts from a cave-like shape (see `shape_for_roll` and
/// `shape_chain`).
pub fn random_shape_builder(rng: &mut bracket_lib::random::RandomNumberGenerator, builder: &mut BuilderChain)
    requires
        old(builder).starter is None,
    ensures
        final(builder).build_data == old(builder).build_data,
        exists|r: int, start: (XStart, YStart)| #![trigger shape_for_roll(r), shape_chain(start)] 1 <= r <= 16
            && final(builder).starter == Some(shape_for_roll(r))
            && final(builder).builders@ == old(builder).builders@ + shape_chain(start),
{
    let ghost b0 = builder.builders@;
    let r = roll_dice(rng, 1, 16);
    let s = if r == 1 { InitialBuilder::CellularAutomata }
        else if r == 2 { InitialBuilder::DrunkardsOpenArea }
        else if r == 3 { InitialBuilder::DrunkardsOpenHalls }
        else if r == 4 { InitialBuilder::DrunkardsWindingPassages }
        else if r == 5 { InitialBuilder::DrunkardsSymmetricalPassages }
        else if r == 6 { InitialBuilder::DrunkardsCrazyBeerGoggles }
        else if r == 7 { InitialBuilder::DrunkardsFatPassages }
        else if r == 8 { InitialBuilder::Maze }
        else if r == 9 { InitialBuilder::DlaCentralAttractor }
        else if r == 10 { InitialBuilder::DlaInsectoid }
        else if r == 11 { InitialBuilder::DlaWalkInward }
        else if r == 12 { InitialBuilder::DlaWalkOutward }
        else if r == 13 { InitialBuilder::VoronoiPythagoras }
        else if r == 14 { InitialBuilder::VoronoiManhattan }
        else { InitialBuilder::WfcPopulatedLevel };
    builder.start_with(s);
    builder.with(MetaBuilder::AreaStartingPoint(XStart::CENTER, YStart::CENTER));
    builder.with(MetaBuilder::CullUnreachable);
    let start = random_start_position(rng);
    builder.with(MetaBuilder::AreaStartingPoint(start.0, start.1));
    builder.with(MetaBuilder::VoronoiSpawning);
    builder.with(MetaBuilder::DistantExit);
    assert(s == shape_for_roll(r as int));
    assert(builder.builders@ =~= b0 + shape_chain(start));
}

/// A whole random chain for a level at `depth`: room-based or shape-based on a coin flip,
/// then, one time in three, wave-function collapse, one time in twenty, the underground fort,
/// and always vaults at the end.
pub fn random_builder(depth: i32, rng: &mut bracket_lib::random::RandomNumberGenerator) -> (chain: BuilderChain)
    ensures
        chain.starter is Some,
        chain.build_data.wf(),
        chain.build_data.map.depth == depth,
        chain.builders@.len() >= 1,
        chain.builders@.last() == MetaBuilder::Vaults,
        ({
            let n = chain.builders@.len();
            ||| (exists|build: int, sort: int, corridors: int, shape: int, start_roll: int, start: (XStart, YStart), stairs: int, spawns: int|
                #![trigger room_chain(build, sort, corridors, shape, start_roll, start, stairs, spawns)]
                1 <= build <= 3 && 1 <= sort <= 5 && 1 <= corridors <= 2 && 1 <= shape <= 6 && 1 <= start_roll <= 2
                && 1 <= stairs <= 2 && 1 <= spawns <= 2 && chain.starter == Some(room_starter(build))
                && chain.builders@.subrange(0, room_chain(build, sort, corridors, shape, start_roll, start, stairs, spawns).len() as int)
                    == room_chain(build, sort, corridors, shape, start_roll, start, stairs, spawns)
                && extras_tail(chain.builders@, room_chain(build, sort, corridors, shape, start_roll, start, stairs, spawns).len() as int))
            ||| (exists|r: int, start: (XStart, YStart)| #![trigger shape_for_roll(r), shape_chain(start)] 1 <= r <= 16
                && chain.starter == Some(shape_for_roll(r))
                && chain.builders@.subrange(0, 5) == shape_chain(start)
                && extras_tail(chain.builders@, 5))
        }),
{
    let mut builder = BuilderChain::new(depth);
    let coin = roll_dice(rng, 1, 2);
    if coin == 1 {
        random_room_builder(rng, &mut builder);
    } else {
        random_shape_builder(rng, &mut builder);
    }
    let ghost head = builder.builders@;
    let wfc = roll_dice(rng, 1, 3) == 1;
    if wfc {
        builder.with(MetaBuilder::WaveformCollapse);
    }
    let fort = roll_dice(rng, 1, 20) == 1;
    if fort {
        builder.with(MetaBuilder::UndergroundFort);
    }
    builder.with(MetaBuilder::Vaults);
    proof {
        let n = head.len() as int;
        let b = builder.builders@;
        assert(b.subrange(0, n) =~= head);
        let t = b.subrange(n, b.len() as int);
        if wfc && fort {
            assert(t =~= seq![MetaBuilder::WaveformCollapse, MetaBuilder::UndergroundFort, MetaBuilder::Vaults]);
        } else if wfc {
            assert(t =~= seq![MetaBuilder::WaveformCollapse, MetaBuilder::Vaults]);
        } else if fort {
            assert(t =~= seq![MetaBuilder::UndergroundFort, MetaBuilder::Vaults]);
        } else {
            assert(t =~= seq![MetaBuilder::Vaults]);
        }
    }
    builder
}

/// After its first `n` builders, a chain has, in order, perhaps wave-function collapse,
/// perhaps the underground fort, and vaults, and nothing else.
pub open spec fn extras_tail(b: Seq<MetaBuilder>, n: int) -> bool {
    let t = b.subrange(n, b.len() as int);
    ||| t == seq![MetaBuilder::Vaults]
    ||| t == seq![MetaBuilder::WaveformCollapse, MetaBuilder::Vaults]
    ||| t == seq![MetaBuilder::UndergroundFort, MetaBuilder::Vaults]
    ||| t == seq![MetaBuilder::WaveformCollapse, MetaBuilder::UndergroundFort, MetaBuilder::Vaults]
}

/// The chain of the first level: the town, a random start, and the exit far from it.
pub fn level_builder(new_depth: i32, rng: &mut bracket_lib::random::RandomNumberGenerator, width: i32, height: i32) -> (chain: BuilderChain)
    requires
        0 < width <= MAX_MAP_SIDE,
        0 < height <= MAX_MAP_SIDE,
    ensures
        chain.starter == Some(InitialBuilder::Town),
        chain.build_data.wf(),
        chain.build_data.map.depth == new_depth,
        chain.build_data.width == width,
        chain.build_data.height == height,
        exists|start: (XStart, YStart)| chain.builders@ == #[trigger] town_chain(start),
{
    let mut chain = BuilderChain::with_size(new_depth, width, height);
    chain.start_with(InitialBuilder::Town);
    let (start_x, start_y) = random_start_position(rng);
    chain.with(MetaBuilder::AreaStartingPoint(start_x, start_y));
    chain.with(MetaBuilder::DistantExit);
    assert(chain.builders@ =~= town_chain((start_x, start_y)));
    chain
}

/// The builders of the town level after the town itself: a start at `start` and the exit
/// far from it.
pub open spec fn town_chain(start: (XStart, YStart)) -> Seq<MetaBuilder> {
    seq![MetaBuilder::AreaStartingPoint(start.0, start.1), MetaBuilder::DistantExit]
}

/// The chain of a forest level: caves, a start in the middle, culling what it cannot
/// reach, a start on the west side, spawns by regions, the road through the woods and the
/// noise maps.
pub fn forest_builder(new_depth: i32, _rng: &mut bracket_lib::random::RandomNumberGenerator, width: i32, height: i32) -> (chain: BuilderChain)
    requires
        0 < width <= MAX_MAP_SIDE,
        0 < height <= MAX_MAP_SIDE,
    ensures
        chain.starter == Some(InitialBuilder::CellularAutomata),
        chain.build_data.wf(),
        chain.build_data.map.depth == new_depth,
        chain.build_data.width == width,
        chain.build_data.height == height,
        chain.builders@ == seq![
            MetaBuilder::AreaStartingPoint(XStart::CENTER, YStart::CENTER),
            MetaBuilder::CullUnreachable,
            MetaBuilder::AreaStartingPoint(XStart::LEFT, YStart::CENTER),
            MetaBuilder::VoronoiSpawning,
            MetaBuilder::YellowBrickRoad,
            MetaBuilder::Noise,
        ],
{
    let mut chain = BuilderChain::with_size(new_depth, width, height);
    chain.start_with(InitialBuilder::CellularAutomata);
    chain.with(MetaBuilder::AreaStartingPoint(XStart::CENTER, YStart::CENTER));
    chain.with(MetaBuilder::CullUnreachable);
    chain.with(MetaBuilder::AreaStartingPoint(XStart::LEFT, YStart::CENTER));
    chain.with(MetaBuilder::VoronoiSpawning);
    chain.with(MetaBuilder::YellowBrickRoad);
    chain.with(MetaBuilder::Noise);
    assert(chain.builders@ =~= seq![
        MetaBuilder::AreaStartingPoint(XStart::CENTER, YStart::CENTER),
        MetaBuilder::CullUnreachable,
        MetaBuilder::AreaStartingPoint(XStart::LEFT, YStart::CENTER),
        MetaBuilder::VoronoiSpawning,
        MetaBuilder::YellowBrickRoad,
        MetaBuilder::Noise,
    ]);
    chain
}

} // verus!
