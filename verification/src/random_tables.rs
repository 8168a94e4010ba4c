use vstd::prelude::*;

use crate::rng::roll_dice;

verus! {

/// Every kind of thing that can be spawned on a map.
#[derive(Clone, Copy, Debug, PartialEq, Eq, Hash, Structural)]
pub enum EntityType {
    Nothing,
    Rat,
    Bisat,
    Ogur,
    Spectre,
    TukkaWarrior,
    HealthPotion,
    MagicMissileScroll,
    FireballScroll,
    ConfusionScroll,
    ChickenLeg,
    Sandwich,
    GobletOfWine,
    Artefact,
    Dagger,
    Shield,
    Longsword,
    Battleaxe,
    TowerShield,
    MagicMappingScroll,
    BearTrap,
    Door,
    Bartender,
    ShadySalesman,
    Patron,
    Table,
    Chair,
    Keg,
    Priest,
    Parishioner,
    Candle,
    Blacksmith,
    Anvil,
    WaterTrough,
    WeaponRack,
    ArmorStand,
    Clothier,
    Cabinet,
    Loom,
    HideRack,
    Alchemist,
    ChemistrySet,
    DeadThing,
    Mom,
    Bed,
    Peasant,
}

/// A short fingerprint of a name: its length, its first and last characters, and its
/// eighth (a space when it is shorter).
pub open spec fn name_key(s: Seq<char>) -> (int, char, char, char) {
    (s.len() as int, s[0], s[s.len() - 1], if s.len() > 7 { s[7] } else { ' ' })
}

/// The kind whose name has this fingerprint.
pub open spec fn kind_of_key(k: (int, char, char, char)) -> EntityType {
    if k == (4int, 'N', 'e', ' ') {
        EntityType::Nothing
    } else if k == (3int, 'R', 't', ' ') {
        EntityType::Rat
    } else if k == (5int, 'B', 't', ' ') {
        EntityType::Bisat
    } else if k == (4int, 'O', 'r', ' ') {
        EntityType::Ogur
    } else if k == (7int, 'S', 'e', ' ') {
        EntityType::Spectre
    } else if k == (13int, 'T', 'r', 'a') {
        EntityType::TukkaWarrior
    } else if k == (13int, 'H', 'n', 'P') {
        EntityType::HealthPotion
    } else if k == (20int, 'M', 'l', 'i') {
        EntityType::MagicMissileScroll
    } else if k == (15int, 'F', 'l', 'l') {
        EntityType::FireballScroll
    } else if k == (16int, 'C', 'l', 'o') {
        EntityType::ConfusionScroll
    } else if k == (11int, 'C', 'g', ' ') {
        EntityType::ChickenLeg
    } else if k == (8int, 'S', 'h', 'h') {
        EntityType::Sandwich
    } else if k == (14int, 'G', 'e', 'o') {
        EntityType::GobletOfWine
    } else if k == (8int, 'A', 't', 't') {
        EntityType::Artefact
    } else if k == (6int, 'D', 'r', ' ') {
        EntityType::Dagger
    } else if k == (6int, 'S', 'd', ' ') {
        EntityType::Shield
    } else if k == (9int, 'L', 'd', 'r') {
        EntityType::Longsword
    } else if k == (9int, 'B', 'e', 'x') {
        EntityType::Battleaxe
    } else if k == (12int, 'T', 'd', 'h') {
        EntityType::TowerShield
    } else if k == (20int, 'M', 'l', 'a') {
        EntityType::MagicMappingScroll
    } else if k == (9int, 'B', 'p', 'a') {
        EntityType::BearTrap
    } else if k == (4int, 'D', 'r', ' ') {
        EntityType::Door
    } else if k == (9int, 'B', 'r', 'e') {
        EntityType::Bartender
    } else if k == (14int, 'S', 'n', 'a') {
        EntityType::ShadySalesman
    } else if k == (6int, 'P', 'n', ' ') {
        EntityType::Patron
    } else if k == (5int, 'T', 'e', ' ') {
        EntityType::Table
    } else if k == (5int, 'C', 'r', ' ') {
        EntityType::Chair
    } else if k == (3int, 'K', 'g', ' ') {
        EntityType::Keg
    } else if k == (6int, 'P', 't', ' ') {
        EntityType::Priest
    } else if k == (11int, 'P', 'r', 'o') {
        EntityType::Parishioner
    } else if k == (6int, 'C', 'e', ' ') {
        EntityType::Candle
    } else if k == (10int, 'B', 'h', 'i') {
        EntityType::Blacksmith
    } else if k == (5int, 'A', 'l', ' ') {
        EntityType::Anvil
    } else if k == (12int, 'W', 'h', 'r') {
        EntityType::WaterTrough
    } else if k == (11int, 'W', 'k', 'R') {
        EntityType::WeaponRack
    } else if k == (11int, 'A', 'd', 't') {
        EntityType::ArmorStand
    } else if k == (8int, 'C', 'r', 'r') {
        EntityType::Clothier
    } else if k == (7int, 'C', 't', ' ') {
        EntityType::Cabinet
    } else if k == (4int, 'L', 'm', ' ') {
        EntityType::Loom
    } else if k == (9int, 'H', 'k', 'c') {
        EntityType::HideRack
    } else if k == (9int, 'A', 't', 's') {
        EntityType::Alchemist
    } else if k == (13int, 'C', 't', 'r') {
        EntityType::ChemistrySet
    } else if k == (10int, 'D', 'g', 'i') {
        EntityType::DeadThing
    } else if k == (3int, 'M', 'm', ' ') {
        EntityType::Mom
    } else if k == (3int, 'B', 'd', ' ') {
        EntityType::Bed
    } else {
        EntityType::Peasant
    }
}

impl EntityType {
    /// The name shown to the player.
    pub open spec fn spec_display_name(&self) -> Seq<char> {
        match *self {
            EntityType::Nothing => "None"@,
            EntityType::Rat => "Rat"@,
            EntityType::Bisat => "Bisat"@,
            EntityType::Ogur => "Ogur"@,
            EntityType::Spectre => "Spectre"@,
            EntityType::TukkaWarrior => "Tukka Warrior"@,
            EntityType::HealthPotion => "Health Potion"@,
            EntityType::MagicMissileScroll => "Magic Missile Scroll"@,
            EntityType::FireballScroll => "Fireball Scroll"@,
            EntityType::ConfusionScroll => "Confusion Scroll"@,
            EntityType::ChickenLeg => "Chicken Leg"@,
            EntityType::Sandwich => "Sandwich"@,
            EntityType::GobletOfWine => "Goblet of Wine"@,
            EntityType::Artefact => "Artefact"@,
            EntityType::Dagger => "Dagger"@,
            EntityType::Shield => "Shield"@,
            EntityType::Longsword => "Longsword"@,
            EntityType::Battleaxe => "Battleaxe"@,
            EntityType::TowerShield => "Tower Shield"@,
            EntityType::MagicMappingScroll => "Magic Mapping Scroll"@,
            EntityType::BearTrap => "Bear Trap"@,
            EntityType::Door => "Door"@,
            EntityType::Bartender => "Bartender"@,
            EntityType::ShadySalesman => "Shady Salesman"@,
            EntityType::Patron => "Patron"@,
            EntityType::Table => "Table"@,
            EntityType::Chair => "Chair"@,
            EntityType::Keg => "Keg"@,
            EntityType::Priest => "Priest"@,
            EntityType::Parishioner => "Parishioner"@,
            EntityType::Candle => "Candle"@,
            EntityType::Blacksmith => "Blacksmith"@,
            EntityType::Anvil => "Anvil"@,
            EntityType::WaterTrough => "Water Trough"@,
            EntityType::WeaponRack => "Weapon Rack"@,
            EntityType::ArmorStand => "Armor Stand"@,
            EntityType::Clothier => "Clothier"@,
            EntityType::Cabinet => "Cabinet"@,
            EntityType::Loom => "Loom"@,
            EntityType::HideRack => "Hide Rack"@,
            EntityType::Alchemist => "Alchemist"@,
            EntityType::ChemistrySet => "Chemistry Set"@,
            EntityType::DeadThing => "Dead Thing"@,
            EntityType::Mom => "Mom"@,
            EntityType::Bed => "Bed"@,
            EntityType::Peasant => "Peasant"@,
        }
    }

    /// The names shown to the player are not empty, begin with a capital letter, and tell
    /// the kinds apart: two kinds never share a name.
    #[verifier::rlimit(100)]
    pub proof fn lemma_display_names(a: EntityType, b: EntityType)
        ensures
            a.spec_display_name().len() > 0,
            'A' <= a.spec_display_name()[0] <= 'Z',
            a != b ==> a.spec_display_name() != b.spec_display_name(),
    {
        Self::lemma_name_key(a);
        Self::lemma_name_key(b);
    }

    /// A kind's name has a fingerprint that gives the kind back; the name starts with a
    /// capital letter.
    #[verifier::rlimit(100)]
    proof fn lemma_name_key(a: EntityType)
        ensures
            a.spec_display_name().len() > 0,
            'A' <= a.spec_display_name()[0] <= 'Z',
            kind_of_key(name_key(a.spec_display_name())) == a,
    {
        reveal_strlit("None");
        reveal_strlit("Rat");
        reveal_strlit("Bisat");
        reveal_strlit("Ogur");
        reveal_strlit("Spectre");
        reveal_strlit("Tukka Warrior");
        reveal_strlit("Health Potion");
        reveal_strlit("Magic Missile Scroll");
        reveal_strlit("Fireball Scroll");
        reveal_strlit("Confusion Scroll");
        reveal_strlit("Chicken Leg");
        reveal_strlit("Sandwich");
        reveal_strlit("Goblet of Wine");
        reveal_strlit("Artefact");
        reveal_strlit("Dagger");
        reveal_strlit("Shield");
        reveal_strlit("Longsword");
        reveal_strlit("Battleaxe");
        reveal_strlit("Tower Shield");
        reveal_strlit("Magic Mapping Scroll");
        reveal_strlit("Bear Trap");
        reveal_strlit("Door");
        reveal_strlit("Bartender");
        reveal_strlit("Shady Salesman");
        reveal_strlit("Patron");
        reveal_strlit("Table");
        reveal_strlit("Chair");
        reveal_strlit("Keg");
        reveal_strlit("Priest");
        reveal_strlit("Parishioner");
        reveal_strlit("Candle");
        reveal_strlit("Blacksmith");
        reveal_strlit("Anvil");
        reveal_strlit("Water Trough");
        reveal_strlit("Weapon Rack");
        reveal_strlit("Armor Stand");
        reveal_strlit("Clothier");
        reveal_strlit("Cabinet");
        reveal_strlit("Loom");
        reveal_strlit("Hide Rack");
        reveal_strlit("Alchemist");
        reveal_strlit("Chemistry Set");
        reveal_strlit("Dead Thing");
        reveal_strlit("Mom");
        reveal_strlit("Bed");
        reveal_strlit("Peasant");
    }

    /// The name shown to the player.
    pub fn get_display_name(&self) -> (name: String)
        ensures
            name@ == self.spec_display_name(),
    {
        let s: &str = match *self {
            EntityType::Nothing => "None",
            EntityType::Rat => "Rat",
            EntityType::Bisat => "Bisat",
            EntityType::Ogur => "Ogur",
            EntityType::Spectre => "Spectre",
            EntityType::TukkaWarrior => "Tukka Warrior",
            EntityType::HealthPotion => "Health Potion",
            EntityType::MagicMissileScroll => "Magic Missile Scroll",
            EntityType::FireballScroll => "Fireball Scroll",
            EntityType::ConfusionScroll => "Confusion Scroll",
            EntityType::ChickenLeg => "Chicken Leg",
            EntityType::Sandwich => "Sandwich",
            EntityType::GobletOfWine => "Goblet of Wine",
            EntityType::Artefact => "Artefact",
            EntityType::Dagger => "Dagger",
            EntityType::Shield => "Shield",
            EntityType::Longsword => "Longsword",
            EntityType::Battleaxe => "Battleaxe",
            EntityType::TowerShield => "Tower Shield",
            EntityType::MagicMappingScroll => "Magic Mapping Scroll",
            EntityType::BearTrap => "Bear Trap",
            EntityType::Door => "Door",
            EntityType::Bartender => "Bartender",
            EntityType::ShadySalesman => "Shady Salesman",
            EntityType::Patron => "Patron",
            EntityType::Table => "Table",
            EntityType::Chair => "Chair",
            EntityType::Keg => "Keg",
            EntityType::Priest => "Priest",
            EntityType::Parishioner => "Parishioner",
            EntityType::Candle => "Candle",
            EntityType::Blacksmith => "Blacksmith",
            EntityType::Anvil => "Anvil",
            EntityType::WaterTrough => "Water Trough",
            EntityType::WeaponRack => "Weapon Rack",
            EntityType::ArmorStand => "Armor Stand",
            EntityType::Clothier => "Clothier",
            EntityType::Cabinet => "Cabinet",
            EntityType::Loom => "Loom",
            EntityType::HideRack => "Hide Rack",
            EntityType::Alchemist => "Alchemist",
            EntityType::ChemistrySet => "Chemistry Set",
            EntityType::DeadThing => "Dead Thing",
            EntityType::Mom => "Mom",
            EntityType::Bed => "Bed",
            EntityType::Peasant => "Peasant",
        };
        s.to_owned()
    }
}

/// One line of a spawn table: what may spawn, and how often relative to the others.
#[derive(Clone, Copy, Debug)]
pub struct RandomEntry {
    entry: EntityType,
    weight: i32,
}

/// The sum of the weights of a list of entries.
pub open spec fn total_of(entries: Seq<(EntityType, int)>) -> int
    decreases entries.len(),
{
    if entries.len() == 0 {
        0
    } else {
        total_of(entries.drop_last()) + entries.last().1
    }
}

/// What a roll of `roll` selects from `entries`: walking down the list, the first entry
/// whose weight exceeds what is left of the roll; a roll of zero or less selects nothing.
pub open spec fn table_pick(entries: Seq<(EntityType, int)>, roll: int) -> EntityType
    decreases entries.len(),
{
    if roll <= 0 || entries.len() == 0 {
        EntityType::Nothing
    } else if roll < entries[0].1 {
        entries[0].0
    } else {
        table_pick(entries.drop_first(), roll - entries[0].1)
    }
}

/// A weighted table to draw spawns from.
#[derive(Debug)]
pub struct RandomTable {
    entries: Vec<RandomEntry>,
    total_weight: i32,
}

impl View for RandomTable {
    type V = Seq<(EntityType, int)>;

    closed spec fn view(&self) -> Seq<(EntityType, int)> {
        self.entries@.map_values(|e: RandomEntry| (e.entry, e.weight as int))
    }
}

impl RandomTable {
    /// Every weight is positive and `total_weight` is their sum.
    #[verifier::type_invariant]
    closed spec fn inv(&self) -> bool {
        &&& self.total_weight == total_of(self@)
        &&& forall|i: int| 0 <= i < self@.len() ==> #[trigger] self@[i].1 > 0
    }

    /// The sum of the weights.
    pub closed spec fn spec_total(&self) -> int {
        self.total_weight as int
    }

    /// An empty table.
    pub fn new() -> (t: RandomTable)
        ensures
            t@ == Seq::<(EntityType, int)>::empty(),
            t.spec_total() == 0,
    {
        let t = RandomTable { entries: Vec::new(), total_weight: 0 };
        assert(t@ =~= Seq::<(EntityType, int)>::empty());
        t
    }

    /// The table with `entry` added at `weight`; a weight of zero or less adds nothing.
    pub fn add(self, entry: EntityType, weight: i32) -> (t: RandomTable)
        requires
            weight > 0 ==> self.spec_total() + weight <= i32::MAX,
        ensures
            weight > 0 ==> t@ == self@.push((entry, weight as int)),
            weight <= 0 ==> t@ == self@,
            t.spec_total() == total_of(t@),
            0 <= t.spec_total(),
    {
        proof {
            use_type_invariant(&self);
            lemma_total_nonneg(self@);
        }
        let mut s = self;
        if weight > 0 {
            let ghost before = s@;
            let tw = s.total_weight + weight;
            let mut es = s.entries;
            let ghost old_es = es@;
            es.push(RandomEntry { entry, weight });
            proof {
                let nv = es@.map_values(|e: RandomEntry| (e.entry, e.weight as int));
                assert(before =~= old_es.map_values(|e: RandomEntry| (e.entry, e.weight as int)));
                assert(nv =~= before.push((entry, weight as int)));
                assert(nv.drop_last() =~= before);
                assert(forall|i: int| 0 <= i < nv.len() ==> #[trigger] nv[i].1 > 0) by {
                    assert forall|i: int| 0 <= i < nv.len() implies #[trigger] nv[i].1 > 0 by {
                        if i < before.len() {
                            assert(nv[i] == before[i]);
                        }
                    }
                }
            }
            let t = RandomTable { entries: es, total_weight: tw };
            proof { lemma_total_nonneg(t@); }
            return t;
        }
        s
    }

    /// What a roll of `roll` (counted from zero) selects. The walk starts by testing
    /// whether anything is left of the roll, so a roll of zero selects `EntityType::Nothing`.
    pub fn pick(&self, roll: i32) -> (e: EntityType)
        requires
            0 <= roll < self.spec_total(),
        ensures
            e == table_pick(self@, roll as int),
    {
        proof {
            use_type_invariant(self);
        }
        let mut r = roll;
        let mut index: usize = 0;
        assert(self@.subrange(0, self@.len() as int) =~= self@);
        while r > 0
            invariant
                0 <= index <= self@.len(),
                self.entries@.len() == self@.len(),
                forall|i: int| 0 <= i < self@.len() ==> #[trigger] self@[i].1 > 0,
                r < total_of(self@.subrange(index as int, self@.len() as int)),
                table_pick(self@, roll as int) == table_pick(self@.subrange(index as int, self@.len() as int), r as int),
            decreases self@.len() - index,
        {
            let ghost rest = self@.subrange(index as int, self@.len() as int);
            proof {
                if index == self@.len() {
                    assert(rest =~= Seq::<(EntityType, int)>::empty());
                    assert(total_of(rest) == 0);
                    assert(false);
                }
                assert(rest[0] == self@[index as int]);
                assert(rest.drop_first() =~= self@.subrange(index + 1, self@.len() as int));
                lemma_total_first(rest);
            }
            assert(index < self@.len());
            assert(index < self.entries.len());
            let w = self.entries[index].weight;
            if r < w {
                return self.entries[index].entry;
            }
            r = r - w;
            index = index + 1;
        }
        EntityType::Nothing
    }

    /// Draws from the table: nothing from an empty table, else what a uniform roll
    /// between zero and the total weight (exclusive) selects.
    pub fn roll(&self, rng: &mut bracket_lib::random::RandomNumberGenerator) -> (e: EntityType)
        requires
            self.spec_total() < i32::MAX,
        ensures
            self.spec_total() >= 0,
            self.spec_total() == 0 ==> e == EntityType::Nothing,
            self.spec_total() > 0 ==> exists|r: int| 0 <= r < self.spec_total() && e == table_pick(self@, r),
    {
        proof {
            use_type_invariant(self);
            lemma_total_nonneg(self@);
        }
        if self.total_weight == 0 {
            return EntityType::Nothing;
        }
        let roll = roll_dice(rng, 1, self.total_weight) - 1;
        self.pick(roll)
    }
}

/// The sum of positive weights is at least zero.
pub proof fn lemma_total_nonneg(entries: Seq<(EntityType, int)>)
    requires
        forall|i: int| 0 <= i < entries.len() ==> #[trigger] entries[i].1 > 0,
    ensures
        total_of(entries) >= 0,
        entries.len() > 0 ==> total_of(entries) >= entries[0].1,
    decreases entries.len(),
{
    if entries.len() > 0 {
        lemma_total_nonneg(entries.drop_last());
    }
}

/// The sum is the first weight plus the sum of the rest.
pub proof fn lemma_total_first(entries: Seq<(EntityType, int)>)
    requires
        entries.len() > 0,
    ensures
        total_of(entries) == entries[0].1 + total_of(entries.drop_first()),
    decreases entries.len(),
{
    if entries.len() > 1 {
        lemma_total_first(entries.drop_last());
        assert(entries.drop_last().drop_first() =~= entries.drop_first().drop_last());
        assert(entries.drop_first().last() == entries.last());
        assert(entries.drop_last()[0] == entries[0]);
    } else {
        assert(entries.drop_first() =~= Seq::<(EntityType, int)>::empty());
        assert(entries.drop_last() =~= Seq::<(EntityType, int)>::empty());
    }
}

/// The weighted draw: with positive weights, a roll strictly between the weights before
/// entry `i` and those up to and including it selects that entry; a roll that lands exactly
/// on the weights before an entry (zero among them), one of zero or less, or one past all
/// the weights selects nothing.
pub proof fn lemma_pick_by_weight(entries: Seq<(EntityType, int)>, roll: int, i: int)
    requires
        forall|k: int| 0 <= k < entries.len() ==> #[trigger] entries[k].1 > 0,
        0 <= i < entries.len(),
    ensures
        total_of(entries.take(i)) < roll < total_of(entries.take(i + 1)) ==> table_pick(entries, roll) == entries[i].0,
        roll == total_of(entries.take(i)) ==> table_pick(entries, roll) == EntityType::Nothing,
        roll >= total_of(entries) ==> table_pick(entries, roll) == EntityType::Nothing,
        roll <= 0 ==> table_pick(entries, roll) == EntityType::Nothing,
    decreases entries.len(),
{
    lemma_total_first(entries);
    let rest = entries.drop_first();
    let t1 = entries.take(1);
    assert(t1.drop_last() =~= Seq::<(EntityType, int)>::empty());
    assert(t1.last() == entries[0]);
    assert(total_of(Seq::<(EntityType, int)>::empty()) == 0);
    assert(entries.take(0) =~= Seq::<(EntityType, int)>::empty());
    assert(total_of(entries.take(1)) == entries[0].1);
    lemma_total_nonneg(rest);
    if i > 0 {
        lemma_total_first(entries.take(i + 1));
        lemma_total_first(entries.take(i));
        assert(entries.take(i + 1).drop_first() =~= rest.take(i));
        assert(entries.take(i).drop_first() =~= rest.take(i - 1));
        lemma_total_nonneg(rest.take(i - 1));
        lemma_pick_by_weight(rest, roll - entries[0].1, i - 1);
    } else if rest.len() > 0 {
        lemma_pick_by_weight(rest, roll - entries[0].1, 0);
        assert(rest.take(0) =~= Seq::<(EntityType, int)>::empty());
    } else {
        assert(total_of(rest) == 0);
        assert(table_pick(rest, roll - entries[0].1) == EntityType::Nothing);
    }
}

/// Whatever the roll, the table yields either nothing or the kind of one of its entries.
pub proof fn lemma_pick_selects_entry(entries: Seq<(EntityType, int)>, roll: int)
    ensures
        table_pick(entries, roll) == EntityType::Nothing
            || exists|i: int| 0 <= i < entries.len() && entries[i].0 == table_pick(entries, roll),
    decreases entries.len(),
{
    if roll <= 0 || entries.len() == 0 {
    } else if roll < entries[0].1 {
        assert(entries[0].0 == table_pick(entries, roll));
    } else {
        let rest = entries.drop_first();
        lemma_pick_selects_entry(rest, roll - entries[0].1);
        if table_pick(rest, roll - entries[0].1) != EntityType::Nothing {
            let i = choose|i: int| 0 <= i < rest.len() && rest[i].0 == table_pick(rest, roll - entries[0].1);
            assert(entries[i + 1] == rest[i]);
        }
    }
}

} // verus!
