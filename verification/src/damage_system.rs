use vstd::prelude::*;
use vstd::string::StringExecFns;

use crate::components::Position;
use crate::inventory_system::EquippedItem;
use crate::run_state::EntityId;

verus! {

/// A pool of points with its most.
#[derive(PartialEq, Eq, Copy, Clone, Debug, Structural)]
pub struct Pool {
    pub current: i32,
    pub max: i32,
}

/// A creature's hit points, mana, experience and level.
#[derive(PartialEq, Eq, Copy, Clone, Debug, Structural)]
pub struct Pools {
    pub hit_points: Pool,
    pub mana: Pool,
    pub xp: i32,
    pub level: i32,
}

/// Hit points after the first `n` blows of `blows`, from `hp`.
pub open spec fn hp_after(hp: int, blows: Seq<(i32, bool)>, n: int) -> int
    decreases n,
{
    if n <= 0 { hp } else { hp_after(hp, blows, n - 1) - blows[n - 1].0 }
}

/// The experience the first `n` blows earn the player: a hundred per level of the victim
/// for each blow by the player that lands while the victim has under one hit point.
pub open spec fn xp_earned(hp: int, level: int, blows: Seq<(i32, bool)>, n: int) -> int
    decreases n,
{
    if n <= 0 {
        0
    } else {
        xp_earned(hp, level, blows, n - 1) + if hp_after(hp, blows, n) < 1 && blows[n - 1].1 { level * 100 } else { 0 }
    }
}

/// The sums damage makes stay within `i32`: blows are not negative and leave the hit points
/// and the experience in range.
pub open spec fn blows_fit(p: Pools, blows: Seq<(i32, bool)>) -> bool {
    &&& forall|i: int| 0 <= i < blows.len() ==> 0 <= (#[trigger] blows[i]).0
    &&& hp_after(p.hit_points.current as int, blows, blows.len() as int) >= i32::MIN
    &&& 0 <= p.level
    &&& p.level * 100 * blows.len() <= i32::MAX
}

/// Hit points only go down as blows land.
proof fn lemma_hp_falls(hp: int, blows: Seq<(i32, bool)>, m: int, n: int)
    requires
        0 <= m <= n <= blows.len(),
        forall|i: int| 0 <= i < blows.len() ==> 0 <= (#[trigger] blows[i]).0,
    ensures
        hp_after(hp, blows, n) <= hp_after(hp, blows, m) <= hp,
    decreases n,
{
    if n > m {
        lemma_hp_falls(hp, blows, m, n - 1);
    } else if m > 0 {
        lemma_hp_falls(hp, blows, m - 1, m - 1);
    }
}

/// Hit points and experience after `n` blows depend on those `n` blows alone.
proof fn lemma_blows_prefix(hp: int, level: int, s1: Seq<(i32, bool)>, s2: Seq<(i32, bool)>, n: int)
    requires
        0 <= n <= s1.len(),
        n <= s2.len(),
        forall|i: int| 0 <= i < n ==> s1[i] == s2[i],
    ensures
        hp_after(hp, s1, n) == hp_after(hp, s2, n),
        xp_earned(hp, level, s1, n) == xp_earned(hp, level, s2, n),
    decreases n,
{
    if n > 0 {
        lemma_blows_prefix(hp, level, s1, s2, n - 1);
        assert(s1[n - 1] == s2[n - 1]);
    }
}

/// The first `m` blows of `b` after all of `a` act on what `a` left.
proof fn lemma_blows_compose_upto(hp: int, level: int, a: Seq<(i32, bool)>, b: Seq<(i32, bool)>, m: int)
    requires
        0 <= m <= b.len(),
    ensures
        hp_after(hp, a + b, a.len() + m) == hp_after(hp_after(hp, a, a.len() as int), b, m),
        xp_earned(hp, level, a + b, a.len() + m)
            == xp_earned(hp, level, a, a.len() as int) + xp_earned(hp_after(hp, a, a.len() as int), level, b, m),
    decreases m,
{
    if m == 0 {
        assert forall|i: int| 0 <= i < a.len() implies (a + b)[i] == a[i] by {}
        lemma_blows_prefix(hp, level, a + b, a, a.len() as int);
    } else {
        lemma_blows_compose_upto(hp, level, a, b, m - 1);
        assert((a + b)[a.len() + m - 1] == b[m - 1]);
    }
}

/// Blows add up: one blow of `amount` takes exactly that many hit points, and earns the
/// player a hundred experience per level of the victim when the player dealt it and it
/// leaves the victim under one hit point (nothing otherwise); taking the blows `a` and then
/// the blows `b` is taking `a` followed by `b`, the experience of both added.
pub proof fn lemma_blows_add_up(hp: int, level: int, amount: i32, by_player: bool, a: Seq<(i32, bool)>, b: Seq<(i32, bool)>)
    ensures
        hp_after(hp, seq![(amount, by_player)], 1) == hp - amount,
        xp_earned(hp, level, seq![(amount, by_player)], 1) == if hp - amount < 1 && by_player { level * 100 } else { 0 },
        hp_after(hp, a + b, (a + b).len() as int) == hp_after(hp_after(hp, a, a.len() as int), b, b.len() as int),
        xp_earned(hp, level, a + b, (a + b).len() as int)
            == xp_earned(hp, level, a, a.len() as int) + xp_earned(hp_after(hp, a, a.len() as int), level, b, b.len() as int),
{
    lemma_blows_compose_upto(hp, level, a, b, b.len() as int);
    let one = seq![(amount, by_player)];
    assert(one[0] == (amount, by_player));
    assert(hp_after(hp, one, 0) == hp);
    assert(xp_earned(hp, level, one, 0) == 0);
}

/// Whether a player at `level` with `xp` experience goes up a level on gaining `gained`
/// (see `DamageSystem::gain_xp`).
pub open spec fn levels_up(xp: int, gained: int, level: int) -> bool {
    xp + gained >= level * 1000
}

/// A level costs a thousand experience per level held: the player goes up as soon as its
/// experience reaches a thousand times its level, one point short it does not, and more
/// experience never undoes a level-up.
pub proof fn lemma_level_threshold(xp: int, gained: int, more: int, level: int)
    ensures
        levels_up(xp, level * 1000 - xp, level),
        !levels_up(xp, level * 1000 - xp - 1, level),
        more >= 0 && levels_up(xp, gained, level) ==> levels_up(xp, gained + more, level),
{
}

/// The system that applies the damage creatures suffered.
pub struct DamageSystem {}

impl DamageSystem {
    /// Takes each blow (amount, whether the player dealt it) off a creature's hit points, in
    /// order, and gives back the experience the player earns by it (see `xp_earned`).
    pub fn apply_damage(pools: &mut Pools, blows: &Vec<(i32, bool)>) -> (xp: i32)
        requires
            blows_fit(*old(pools), blows@),
        ensures
            final(pools).hit_points.current == hp_after(old(pools).hit_points.current as int, blows@, blows@.len() as int),
            final(pools).hit_points.max == old(pools).hit_points.max,
            final(pools).mana == old(pools).mana,
            final(pools).xp == old(pools).xp,
            final(pools).level == old(pools).level,
            xp == xp_earned(old(pools).hit_points.current as int, old(pools).level as int, blows@, blows@.len() as int),
    {
        let ghost p0 = *pools;
        let ghost hp0 = pools.hit_points.current as int;
        let mut xp: i32 = 0;
        let mut i: usize = 0;
        while i < blows.len()
            invariant
                blows_fit(p0, blows@),
                hp0 == p0.hit_points.current,
                pools.hit_points.max == p0.hit_points.max,
                pools.mana == p0.mana,
                pools.xp == p0.xp,
                pools.level == p0.level,
                i <= blows@.len(),
                pools.hit_points.current == hp_after(hp0, blows@, i as int),
                xp == xp_earned(hp0, pools.level as int, blows@, i as int),
                0 <= xp <= pools.level * 100 * i,
            decreases blows@.len() - i,
        {
            proof {
                lemma_hp_falls(hp0, blows@, i + 1, blows@.len() as int);
                assert(pools.level * 100 * (i + 1) <= pools.level * 100 * blows@.len()) by (nonlinear_arith)
                    requires 0 <= pools.level, i + 1 <= blows@.len();
                assert(pools.level * 100 * (i + 1) == pools.level * 100 * i + pools.level * 100) by (nonlinear_arith);
            }
            let (amount, by_player) = blows[i];
            pools.hit_points.current = pools.hit_points.current - amount;
            if pools.hit_points.current < 1 && by_player {
                xp = xp + pools.level * 100;
            }
            i = i + 1;
        }
        xp
    }

    /// Gives the player `gained` experience; at a thousand per level the player goes up a
    /// level, and then its hit points and mana are set to their new maxima, `hp_max` and
    /// `mana_max` (what the game system gives at the new level), full. Whether it levelled
    /// comes back.
    pub fn gain_xp(pools: &mut Pools, gained: i32, hp_max: i32, mana_max: i32) -> (levelled: bool)
        requires
            old(pools).xp + gained <= i32::MAX,
            old(pools).level * 1000 <= i32::MAX,
            old(pools).level < i32::MAX,
            old(pools).xp + gained >= i32::MIN,
            old(pools).level * 1000 >= i32::MIN,
        ensures
            final(pools).xp == old(pools).xp + gained,
            levelled == levels_up(old(pools).xp as int, gained as int, old(pools).level as int),
            final(pools).level == if levelled { old(pools).level + 1 } else { old(pools).level as int },
            final(pools).hit_points == if levelled { Pool { current: hp_max, max: hp_max } } else { old(pools).hit_points },
            final(pools).mana == if levelled { Pool { current: mana_max, max: mana_max } } else { old(pools).mana },
    {
        pools.xp = pools.xp + gained;
        if pools.xp >= pools.level * 1000 {
            pools.level = pools.level + 1;
            pools.hit_points.max = hp_max;
            pools.hit_points.current = pools.hit_points.max;
            pools.mana.max = mana_max;
            pools.mana.current = pools.mana.max;
            true
        } else {
            false
        }
    }
}

/// What becomes of a creature at the end of a frame.
#[derive(PartialEq, Eq, Copy, Clone, Debug, Structural)]
pub enum Fate {
    Alive,
    /// The player died: the game is over.
    GameOver,
    /// Another creature died and leaves remains.
    Remains,
}

/// What becomes of a creature with `hp` hit points (see `fate`).
pub open spec fn fate_of(hp: int, is_player: bool) -> Fate {
    if hp >= 1 { Fate::Alive } else if is_player { Fate::GameOver } else { Fate::Remains }
}

/// A creature lives exactly while it has a hit point left; a dead player ends the game and
/// any other dead creature leaves remains, never the other way round.
pub proof fn lemma_death_at_zero(hp: int, is_player: bool)
    ensures
        (fate_of(hp, is_player) == Fate::Alive) == (hp >= 1),
        hp < 1 && is_player ==> fate_of(hp, is_player) == Fate::GameOver,
        hp < 1 && !is_player ==> fate_of(hp, is_player) == Fate::Remains,
        fate_of(hp, is_player) != Fate::GameOver || is_player,
{
}

/// A creature with under one hit point is dead: the player's death ends the game, any
/// other creature leaves remains.
pub fn fate(hp: i32, is_player: bool) -> (f: Fate)
    ensures
        f == fate_of(hp as int, is_player),
{
    if hp < 1 {
        if is_player { Fate::GameOver } else { Fate::Remains }
    } else {
        Fate::Alive
    }
}

/// What the remains of a creature called `name` are called.
pub fn remains_name(name: &str) -> (r: String)
    ensures
        r@ == "Remains of "@ + name@,
{
    let prefix = String::from_str("Remains of ");
    prefix.concat(name)
}

/// The items `owner` has equipped, in order.
pub open spec fn worn_by(e: Seq<EquippedItem>, owner: EntityId) -> Seq<EntityId>
    decreases e.len(),
{
    if e.len() == 0 {
        Seq::empty()
    } else if e.last().owner == owner {
        worn_by(e.drop_last(), owner).push(e.last().item)
    } else {
        worn_by(e.drop_last(), owner)
    }
}

/// Each item in `items`, paired with the tile `at`.
pub open spec fn placed_at(items: Seq<EntityId>, at: Position) -> Seq<(EntityId, Position)> {
    items.map_values(|item: EntityId| (item, at))
}

/// What the dead leave on the floor: victim by victim, in order, each item the victim had
/// equipped, on the victim's tile.
pub open spec fn dropped_by(victims: Seq<(EntityId, Position)>, e: Seq<EquippedItem>) -> Seq<(EntityId, Position)>
    decreases victims.len(),
{
    if victims.len() == 0 {
        Seq::empty()
    } else {
        dropped_by(victims.drop_last(), e) + placed_at(worn_by(e, victims.last().0), victims.last().1)
    }
}

/// The equipment the dead drop (see `dropped_by`): `victims` are the dead that stand on
/// the map, with their tiles; each item drops where its owner fell.
pub fn dropped_equipment(victims: &Vec<(EntityId, Position)>, equipped: &Vec<EquippedItem>) -> (drops: Vec<(EntityId, Position)>)
    ensures
        drops@ == dropped_by(victims@, equipped@),
{
    let mut drops: Vec<(EntityId, Position)> = Vec::new();
    let mut v: usize = 0;
    while v < victims.len()
        invariant
            v <= victims@.len(),
            drops@ == dropped_by(victims@.subrange(0, v as int), equipped@),
        decreases victims@.len() - v,
    {
        let (victim, at) = victims[v];
        let ghost before = drops@;
        let mut k: usize = 0;
        while k < equipped.len()
            invariant
                v < victims@.len(),
                victims@[v as int] == (victim, at),
                k <= equipped@.len(),
                drops@ == before + placed_at(worn_by(equipped@.subrange(0, k as int), victim), at),
            decreases equipped@.len() - k,
        {
            let e = equipped[k];
            proof {
                assert(equipped@.subrange(0, k + 1).drop_last() =~= equipped@.subrange(0, k as int));
            }
            if e.owner == victim {
                drops.push((e.item, at));
                proof {
                    let w = worn_by(equipped@.subrange(0, k as int), victim);
                    assert(placed_at(w.push(e.item), at) =~= placed_at(w, at).push((e.item, at)));
                }
            }
            k = k + 1;
        }
        proof {
            assert(equipped@.subrange(0, equipped@.len() as int) =~= equipped@);
            assert(victims@.subrange(0, v + 1).drop_last() =~= victims@.subrange(0, v as int));
            assert(victims@.subrange(0, v + 1).last() == (victim, at));
        }
        v = v + 1;
    }
    proof {
        assert(victims@.subrange(0, victims@.len() as int) =~= victims@);
    }
    drops
}

} // verus!
