pub mod item_structs;
pub mod mob_structs;
pub mod rawmaster;
