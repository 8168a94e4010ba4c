use vstd::prelude::*;

verus! {

/// The weapon part of an item's raw description: its reach, the attribute it is wielded
/// with, its damage dice (such as `1d8+1`), and its bonus to hit.
#[derive(Clone, Debug)]
pub struct Weapon {
    pub range: String,
    pub attribute: String,
    pub base_damage: String,
    pub hit_bonus: i32,
}

} // verus!
