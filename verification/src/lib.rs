use vstd::prelude::*;

pub mod bystander_ai_system;
pub mod camera;
pub mod components;
pub mod damage_system;
pub mod geometry;
pub mod gui;
pub mod hunger_system;
pub mod inventory_system;
pub mod map;
pub mod map_builders;
pub mod map_indexing_system;
pub mod melee_combat_system;
pub mod monster_ai_system;
pub mod player;
pub mod random_tables;
pub mod raws;
pub mod rect;
pub mod rng;
pub mod run_state;
pub mod spawner;
pub mod themes;
pub mod trigger_system;

verus! {

/// Whether the debugging aids are on: the whole map is shown and map generation marks
/// its seeds.
pub const DEBUGGING: bool = true;

} // verus!
