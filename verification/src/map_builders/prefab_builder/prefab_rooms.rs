use vstd::prelude::*;

verus! {

/// A small vault that can be dropped into open floor: its layout, size, and the depths it
/// appears at.
#[derive(Copy, Clone, Debug)]
pub struct PrefabRoom {
    pub template: &'static str,
    pub width: usize,
    pub height: usize,
    pub first_depth: i32,
    pub last_depth: i32,
}

/// The trap vault as a value: its layout, a 5 by 5 box, at every depth from 0 to 100.
pub open spec fn trap_room() -> PrefabRoom {
    PrefabRoom { template: TRAP_MAP, width: 5, height: 5, first_depth: 0, last_depth: 100 }
}

/// A ring of bear traps around a health potion.
pub fn trap() -> (r: PrefabRoom)
    ensures
        r == trap_room(),
{
    PrefabRoom { template: TRAP_MAP, width: 5, height: 5, first_depth: 0, last_depth: 100 }
}

/// The chickfila vault as a value: its layout, a 3 by 1 box, at every depth from 0 to 100.
pub open spec fn chickfila_room() -> PrefabRoom {
    PrefabRoom { template: CHICKEN_SANDWICH, width: 3, height: 1, first_depth: 0, last_depth: 100 }
}

/// A chicken leg between two sandwiches.
pub fn chickfila() -> (r: PrefabRoom)
    ensures
        r == chickfila_room(),
{
    PrefabRoom { template: CHICKEN_SANDWICH, width: 3, height: 1, first_depth: 0, last_depth: 100 }
}

/// The checkerboard vault as a value: its layout, a 6 by 5 box, at every depth from 0 to 100.
pub open spec fn checkerboard_room() -> PrefabRoom {
    PrefabRoom { template: CHECKERBOARD_MAP, width: 6, height: 5, first_depth: 0, last_depth: 100 }
}

/// A checkerboard of walls with monsters and loot.
pub fn checkerboard() -> (r: PrefabRoom)
    ensures
        r == checkerboard_room(),
{
    PrefabRoom { template: CHECKERBOARD_MAP, width: 6, height: 5, first_depth: 0, last_depth: 100 }
}

/// The well vault as a value: its layout, a 7 by 5 box, at every depth from 0 to 100.
pub open spec fn well_room() -> PrefabRoom {
    PrefabRoom { template: WELL_MAP, width: 7, height: 5, first_depth: 0, last_depth: 100 }
}

/// A walled well.
pub fn well() -> (r: PrefabRoom)
    ensures
        r == well_room(),
{
    PrefabRoom { template: WELL_MAP, width: 7, height: 5, first_depth: 0, last_depth: 100 }
}

pub const TRAP_MAP: &'static str = " ^^^  ^!^  ^^^ ";

pub const CHICKEN_SANDWICH: &'static str = "=q=";

pub const CHECKERBOARD_MAP: &'static str = "
......
.o#o#.
.#^#u.
.!#.#.
......
";

pub const WELL_MAP: &'static str = "
.......
.##.##.
.#...#.
.##.##.
.......
";

} // verus!
