use vstd::prelude::*;

use crate::rng::roll_dice;

verus! {

/// How a melee attack ends.
#[derive(PartialEq, Eq, Copy, Clone, Debug, Structural)]
pub enum MeleeOutcome {
    /// The blow lands for this much damage.
    Hit { damage: i32 },
    /// A natural one: the attacker misses.
    Miss,
    /// The blow does not get through the armour.
    NoDamage,
}

/// What an attacker brings to a blow and what the target defends with.
#[derive(PartialEq, Eq, Copy, Clone, Debug, Structural)]
pub struct MeleeBonuses {
    /// The attacker's might bonus, added to hit and to damage.
    pub might: i32,
    /// The attacker's melee skill bonus, added to hit and twice to damage.
    pub melee_skill: i32,
    /// Whether the attacker is well fed (one more to hit).
    pub well_fed: bool,
    /// The target's quickness bonus, added to its armour class.
    pub quickness: i32,
    /// The target's defence skill bonus, added to its armour class.
    pub defense_skill: i32,
}

/// The value fits in an `i32`.
pub open spec fn in_i32(v: int) -> bool {
    i32::MIN <= v <= i32::MAX
}

/// Every sum the attack makes for these rolls, added up left to right as the rule reads,
/// stays within `i32`: the attack roll, the armour class, and, on a hit, the damage.
pub open spec fn sums_fit(b: MeleeBonuses, natural: int, damage_roll: int) -> bool {
    &&& in_i32(natural + b.might)
    &&& in_i32(natural + b.might + b.melee_skill)
    &&& in_i32(attack_roll(b, natural))
    &&& in_i32(10 + b.quickness)
    &&& in_i32(armor_class(b))
    &&& natural != 1 && (natural == 20 || attack_roll(b, natural) > armor_class(b)) ==> {
        &&& in_i32(damage_roll + b.might)
        &&& in_i32(damage_roll + b.might + b.melee_skill)
        &&& in_i32(damage_roll + b.might + b.melee_skill + b.melee_skill)
    }
}

/// The sums an attack makes stay within `i32` for every roll of the dice.
pub open spec fn bonuses_fit(b: MeleeBonuses) -> bool {
    forall|natural: int, damage_roll: int| 1 <= natural <= 20 && 1 <= damage_roll <= 4 ==> #[trigger] sums_fit(b, natural, damage_roll)
}

/// The armour class of the target: ten plus its bonuses.
pub open spec fn armor_class(b: MeleeBonuses) -> int {
    10 + b.quickness + b.defense_skill
}

/// The attack roll: the natural roll plus the attacker's bonuses.
pub open spec fn attack_roll(b: MeleeBonuses, natural: int) -> int {
    natural + b.might + b.melee_skill + if b.well_fed { 1int } else { 0int }
}

/// The rule of melee: a natural one misses; a natural twenty, or an attack roll above the
/// armour class, hits for the damage roll plus might and twice the skill bonus (never less
/// than nothing); anything else does no damage.
pub open spec fn melee_rule(b: MeleeBonuses, natural: int, damage_roll: int) -> MeleeOutcome {
    if natural != 1 && (natural == 20 || attack_roll(b, natural) > armor_class(b)) {
        let d = damage_roll + b.might + b.melee_skill + b.melee_skill;
        MeleeOutcome::Hit { damage: if d < 0 { 0i32 } else { d as i32 } }
    } else if natural == 1 {
        MeleeOutcome::Miss
    } else {
        MeleeOutcome::NoDamage
    }
}

/// Applies the rule of melee to given rolls of the twenty-sided and the four-sided die.
pub fn melee_outcome(b: MeleeBonuses, natural: i32, damage_roll: i32) -> (out: MeleeOutcome)
    requires
        sums_fit(b, natural as int, damage_roll as int),
        1 <= natural <= 20,
        1 <= damage_roll <= 4,
    ensures
        out == melee_rule(b, natural as int, damage_roll as int),
{
    let status = if b.well_fed { 1 } else { 0 };
    let modified = natural + b.might + b.melee_skill + 0 + status;
    let ac = 10 + b.quickness + b.defense_skill + 0;
    if natural != 1 && (natural == 20 || modified > ac) {
        let d = damage_roll + b.might + b.melee_skill + b.melee_skill + 0;
        MeleeOutcome::Hit { damage: if d < 0 { 0 } else { d } }
    } else if natural == 1 {
        MeleeOutcome::Miss
    } else {
        MeleeOutcome::NoDamage
    }
}

/// The system that settles melee attacks.
pub struct MeleeCombatSystem {}

impl MeleeCombatSystem {
    /// Settles one attack between two living creatures: rolls a twenty-sided die to hit and,
    /// on a hit, a four-sided die for damage, and applies the rule of melee.
    pub fn resolve(rng: &mut bracket_lib::random::RandomNumberGenerator, b: MeleeBonuses) -> (out: MeleeOutcome)
        requires
            bonuses_fit(b),
        ensures
            exists|natural: int, damage_roll: int| #![trigger melee_rule(b, natural, damage_roll)]
                1 <= natural <= 20 && 1 <= damage_roll <= 4 && out == melee_rule(b, natural, damage_roll),
    {
        let natural = roll_dice(rng, 1, 20);
        assert(sums_fit(b, natural as int, 1));
        if natural != 1 && (natural == 20 || natural + b.might + b.melee_skill + (if b.well_fed { 1i32 } else { 0i32 }) > 10 + b.quickness + b.defense_skill) {
            let damage_roll = roll_dice(rng, 1, 4);
            assert(sums_fit(b, natural as int, damage_roll as int));
            let out = melee_outcome(b, natural, damage_roll);
            assert(out == melee_rule(b, natural as int, damage_roll as int));
            out
        } else {
            let out = melee_outcome(b, natural, 1);
            assert(out == melee_rule(b, natural as int, 1));
            out
        }
    }
}

/// The blow against the target's armour: on a natural roll other than one and twenty it
/// lands exactly when the natural roll plus the attacker's might, melee skill and the
/// well-fed bonus beats ten plus the target's quickness and defence skill, and otherwise
/// does no damage; a natural one always misses and a natural twenty always lands. A blow
/// that lands does the damage roll plus might and twice the skill, and nothing below zero.
pub proof fn lemma_melee_against_armour(b: MeleeBonuses, natural: int, damage_roll: int)
    ensures
        1 < natural < 20 ==> (melee_rule(b, natural, damage_roll) is Hit <==>
            natural + b.might + b.melee_skill + (if b.well_fed { 1int } else { 0int }) > 10 + b.quickness + b.defense_skill),
        1 < natural < 20 && !(melee_rule(b, natural, damage_roll) is Hit) ==> melee_rule(b, natural, damage_roll) == MeleeOutcome::NoDamage,
        natural == 1 ==> melee_rule(b, natural, damage_roll) == MeleeOutcome::Miss,
        natural == 20 ==> melee_rule(b, natural, damage_roll) is Hit,
        in_i32(damage_roll + b.might + 2 * b.melee_skill) ==> (melee_rule(b, natural, damage_roll) matches MeleeOutcome::Hit { damage }
            ==> damage == if damage_roll + b.might + 2 * b.melee_skill < 0 { 0 } else { damage_roll + b.might + 2 * b.melee_skill }),
{
}

/// A quicker or more skilled defender is never easier to hit: raising the target's
/// quickness or defence skill never turns a blow that misses the armour into one that lands.
pub proof fn lemma_armour_never_helps_attacker(b: MeleeBonuses, tougher: MeleeBonuses, natural: int, damage_roll: int)
    requires
        tougher.might == b.might,
        tougher.melee_skill == b.melee_skill,
        tougher.well_fed == b.well_fed,
        tougher.quickness >= b.quickness,
        tougher.defense_skill >= b.defense_skill,
    ensures
        melee_rule(tougher, natural, damage_roll) is Hit ==> melee_rule(b, natural, damage_roll) is Hit,
{
}

/// A hit never does negative damage, and a natural twenty always lands.
pub proof fn lemma_melee_damage(b: MeleeBonuses, natural: int, damage_roll: int)
    requires
        sums_fit(b, natural, damage_roll),
        1 <= damage_roll <= 4,
    ensures
        melee_rule(b, natural, damage_roll) matches MeleeOutcome::Hit { damage } ==> damage >= 0,
        natural == 20 ==> melee_rule(b, natural, damage_roll) is Hit,
        natural == 1 ==> melee_rule(b, natural, damage_roll) is Miss,
{
}

} // verus!
