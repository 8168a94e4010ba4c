use vstd::prelude::*;

use crate::raws::rawmaster::{dice_fit, dice_scan, parse_dice_string};

verus! {

/// What a monster's template gives of its numbers: attributes, level and skills where it
/// names them, and the damage dice of its natural attacks.
#[derive(Clone, Debug)]
pub struct MobTemplate {
    pub might: Option<i32>,
    pub fitness: Option<i32>,
    pub quickness: Option<i32>,
    pub intelligence: Option<i32>,
    pub level: Option<i32>,
    pub melee: Option<i32>,
    pub defense: Option<i32>,
    pub magic: Option<i32>,
    pub attack_dice: Vec<String>,
}

/// A monster's numbers: its attributes, level and skills, and for each natural attack its
/// dice (how many, their sides, and the bonus).
#[derive(Clone, Debug, PartialEq, Eq)]
pub struct MobStats {
    pub might: i32,
    pub fitness: i32,
    pub quickness: i32,
    pub intelligence: i32,
    pub level: i32,
    pub melee: i32,
    pub defense: i32,
    pub magic: i32,
    pub attacks: Vec<(i32, i32, i32)>,
}

/// A value the template names, or the default.
pub open spec fn or_default(v: Option<i32>, d: i32) -> i32 {
    match v {
        Some(x) => x,
        None => d,
    }
}

fn value_or(v: Option<i32>, d: i32) -> (r: i32)
    ensures
        r == or_default(v, d),
{
    match v {
        Some(x) => x,
        None => d,
    }
}

/// The dice of each attack as read (see `parse_dice_string`).
pub open spec fn attack_dice_read(dice: Seq<String>) -> Seq<(int, int, int)> {
    dice.map_values(|s: String| dice_scan(s@, 0, (1, 4, 0)))
}

/// The numbers a monster spawned from the template gets: each attribute is the template's
/// or 11, the level the template's or 1, each skill (melee, defence, magic) the template's
/// or 1, and the attacks' dice are read from their strings.
pub fn mob_stats(t: &MobTemplate) -> (s: MobStats)
    requires
        forall|i: int| 0 <= i < t.attack_dice@.len() ==> dice_fit((#[trigger] t.attack_dice@[i])@, 0),
    ensures
        s.might == or_default(t.might, 11),
        s.fitness == or_default(t.fitness, 11),
        s.quickness == or_default(t.quickness, 11),
        s.intelligence == or_default(t.intelligence, 11),
        s.level == or_default(t.level, 1),
        s.melee == or_default(t.melee, 1),
        s.defense == or_default(t.defense, 1),
        s.magic == or_default(t.magic, 1),
        s.attacks@.map_values(|a: (i32, i32, i32)| (a.0 as int, a.1 as int, a.2 as int)) == attack_dice_read(t.attack_dice@),
{
    let mut attacks: Vec<(i32, i32, i32)> = Vec::new();
    let mut i: usize = 0;
    while i < t.attack_dice.len()
        invariant
            i <= t.attack_dice@.len(),
            forall|k: int| 0 <= k < t.attack_dice@.len() ==> dice_fit((#[trigger] t.attack_dice@[k])@, 0),
            attacks@.len() == i,
            forall|k: int| 0 <= k < i ==> ((#[trigger] attacks@[k]).0 as int, attacks@[k].1 as int, attacks@[k].2 as int)
                == dice_scan(t.attack_dice@[k]@, 0, (1, 4, 0)),
        decreases t.attack_dice@.len() - i,
    {
        let r = parse_dice_string(t.attack_dice[i].as_str());
        attacks.push(r);
        i = i + 1;
    }
    let ghost read = attacks@.map_values(|a: (i32, i32, i32)| (a.0 as int, a.1 as int, a.2 as int));
    assert(read =~= attack_dice_read(t.attack_dice@));
    MobStats {
        might: value_or(t.might, 11),
        fitness: value_or(t.fitness, 11),
        quickness: value_or(t.quickness, 11),
        intelligence: value_or(t.intelligence, 11),
        level: value_or(t.level, 1),
        melee: value_or(t.melee, 1),
        defense: value_or(t.defense, 1),
        magic: value_or(t.magic, 1),
        attacks,
    }
}

} // verus!
