use vstd::prelude::*;

use crate::components::Position;
use crate::hunger_system::{after_meal, HungerClock, HungerSystem};
use crate::map::GameMap;
use crate::run_state::EntityId;

verus! {

/// Where an item is worn or wielded.
#[derive(PartialEq, Eq, Copy, Clone, Debug, Structural)]
pub enum EquipmentSlot {
    Melee,
    Shield,
}

/// An item that someone has equipped, in a slot.
#[derive(PartialEq, Eq, Copy, Clone, Debug, Structural)]
pub struct EquippedItem {
    pub item: EntityId,
    pub owner: EntityId,
    pub slot: EquipmentSlot,
}

/// The tiles among `tiles` that lie inside the map's edge, in order.
pub open spec fn tiles_in_bounds(m: GameMap, tiles: Seq<Position>) -> Seq<Position> {
    tiles.filter(|p: Position| m.spec_in_bounds(p.x as int, p.y as int))
}

/// Keeps the tiles of a blast that lie inside the map's edge, in order.
pub fn blast_tiles_in_bounds(map: &GameMap, tiles: &Vec<Position>) -> (kept: Vec<Position>)
    ensures
        kept@ == tiles_in_bounds(*map, tiles@),
{
    let mut kept: Vec<Position> = Vec::new();
    let mut i: usize = 0;
    while i < tiles.len()
        invariant
            i <= tiles@.len(),
            kept@ == tiles_in_bounds(*map, tiles@.subrange(0, i as int)),
        decreases tiles@.len() - i,
    {
        let p = tiles[i];
        proof {
            reveal(Seq::filter);
            assert(tiles@.subrange(0, i + 1).drop_last() =~= tiles@.subrange(0, i as int));
            assert(tiles@.subrange(0, i + 1).last() == p);
        }
        if map.is_tile_in_bounds(p.x, p.y) {
            kept.push(p);
        }
        i = i + 1;
    }
    assert(tiles@.subrange(0, tiles@.len() as int) =~= tiles@);
    kept
}

/// All the entities of the given tiles, tile by tile.
pub open spec fn flatten_contents(c: Seq<Vec<EntityId>>) -> Seq<EntityId>
    decreases c.len(),
{
    if c.len() == 0 {
        Seq::empty()
    } else {
        flatten_contents(c.drop_last()) + c.last()@
    }
}

/// Who an item is used on: the player when it is not aimed, else everyone on the tiles it
/// reaches (the tile aimed at, or the tiles of its blast), tile by tile.
pub fn use_targets(player: EntityId, target: Option<Position>, contents: &Vec<Vec<EntityId>>) -> (targets: Vec<EntityId>)
    ensures
        targets@ == match target {
            None => seq![player],
            Some(_) => flatten_contents(contents@),
        },
{
    let mut targets: Vec<EntityId> = Vec::new();
    match target {
        None => {
            targets.push(player);
            assert(targets@ =~= seq![player]);
        },
        Some(_) => {
            let mut i: usize = 0;
            while i < contents.len()
                invariant
                    i <= contents@.len(),
                    targets@ == flatten_contents(contents@.subrange(0, i as int)),
                decreases contents@.len() - i,
            {
                let ghost before = targets@;
                let mut j: usize = 0;
                while j < contents[i].len()
                    invariant
                        i < contents@.len(),
                        j <= contents@[i as int]@.len(),
                        targets@ == before + contents@[i as int]@.subrange(0, j as int),
                    decreases contents@[i as int]@.len() - j,
                {
                    targets.push(contents[i][j]);
                    proof {
                        assert(targets@ =~= before + contents@[i as int]@.subrange(0, j + 1));
                    }
                    j = j + 1;
                }
                proof {
                    assert(contents@.subrange(0, i + 1).drop_last() =~= contents@.subrange(0, i as int));
                    assert(contents@[i as int]@.subrange(0, contents@[i as int]@.len() as int) =~= contents@[i as int]@);
                }
                i = i + 1;
            }
            assert(contents@.subrange(0, contents@.len() as int) =~= contents@);
        },
    }
    targets
}

/// The items `owner` has equipped in `slot`, in order.
pub open spec fn equipped_in_slot(e: Seq<EquippedItem>, owner: EntityId, slot: EquipmentSlot) -> Seq<EntityId>
    decreases e.len(),
{
    if e.len() == 0 {
        Seq::empty()
    } else if e.last().owner == owner && e.last().slot == slot {
        equipped_in_slot(e.drop_last(), owner, slot).push(e.last().item)
    } else {
        equipped_in_slot(e.drop_last(), owner, slot)
    }
}

/// The items to take off before `owner` equips something in `slot`: whatever it already
/// has in that slot.
pub fn items_to_unequip(equipped: &Vec<EquippedItem>, owner: EntityId, slot: EquipmentSlot) -> (items: Vec<EntityId>)
    ensures
        items@ == equipped_in_slot(equipped@, owner, slot),
{
    let mut items: Vec<EntityId> = Vec::new();
    let mut i: usize = 0;
    while i < equipped.len()
        invariant
            i <= equipped@.len(),
            items@ == equipped_in_slot(equipped@.subrange(0, i as int), owner, slot),
        decreases equipped@.len() - i,
    {
        let e = equipped[i];
        proof {
            assert(equipped@.subrange(0, i + 1).drop_last() =~= equipped@.subrange(0, i as int));
            assert(equipped@.subrange(0, i + 1).last() == e);
        }
        if e.owner == owner && e.slot == slot {
            items.push(e.item);
        }
        i = i + 1;
    }
    assert(equipped@.subrange(0, equipped@.len() as int) =~= equipped@);
    items
}

/// How many items `owner` has equipped in `slot`.
pub open spec fn slot_count(e: Seq<EquippedItem>, owner: EntityId, slot: EquipmentSlot) -> nat {
    equipped_in_slot(e, owner, slot).len()
}

/// Nobody has two items equipped in one slot.
pub open spec fn one_per_slot(e: Seq<EquippedItem>) -> bool {
    forall|owner: EntityId, slot: EquipmentSlot| #[trigger] slot_count(e, owner, slot) <= 1
}

/// The equipment with every entry for an item in `off` taken off, in order.
pub open spec fn take_off(e: Seq<EquippedItem>, off: Seq<EntityId>) -> Seq<EquippedItem>
    decreases e.len(),
{
    if e.len() == 0 {
        Seq::empty()
    } else if off.contains(e.last().item) {
        take_off(e.drop_last(), off)
    } else {
        take_off(e.drop_last(), off).push(e.last())
    }
}

/// The equipment after `owner` equips `item` in `slot` as a plan of `plan_item_use` has it:
/// the items of its `unequip` list come off, then the item goes on.
pub open spec fn equipped_after(e: Seq<EquippedItem>, item: EntityId, owner: EntityId, slot: EquipmentSlot) -> Seq<EquippedItem> {
    take_off(e, equipped_in_slot(e, owner, slot)).push(EquippedItem { item, owner, slot })
}

/// Every item `owner` has in `slot` is listed by `equipped_in_slot`.
proof fn lemma_in_slot_listed(e: Seq<EquippedItem>, owner: EntityId, slot: EquipmentSlot, i: int)
    requires
        0 <= i < e.len(),
        e[i].owner == owner,
        e[i].slot == slot,
    ensures
        equipped_in_slot(e, owner, slot).contains(e[i].item),
    decreases e.len(),
{
    let prev = equipped_in_slot(e.drop_last(), owner, slot);
    if i == e.len() - 1 {
        assert(equipped_in_slot(e, owner, slot) == prev.push(e[i].item));
        assert(prev.push(e[i].item)[prev.len() as int] == e[i].item);
    } else {
        assert(e.drop_last()[i] == e[i]);
        lemma_in_slot_listed(e.drop_last(), owner, slot, i);
        let k = choose|k: int| 0 <= k < prev.len() && prev[k] == e[i].item;
        if e.last().owner == owner && e.last().slot == slot {
            assert(prev.push(e.last().item)[k] == e[i].item);
        }
    }
}

/// Taking off never adds to a slot; taking off every item of one slot empties it.
proof fn lemma_take_off_counts(e: Seq<EquippedItem>, off: Seq<EntityId>, owner: EntityId, slot: EquipmentSlot)
    ensures
        slot_count(take_off(e, off), owner, slot) <= slot_count(e, owner, slot),
        (forall|i: int| 0 <= i < e.len() && e[i].owner == owner && e[i].slot == slot ==> off.contains(#[trigger] e[i].item))
            ==> slot_count(take_off(e, off), owner, slot) == 0,
    decreases e.len(),
{
    if e.len() > 0 {
        lemma_take_off_counts(e.drop_last(), off, owner, slot);
        let t = take_off(e.drop_last(), off);
        if !off.contains(e.last().item) {
            assert(take_off(e, off) == t.push(e.last()));
            assert(t.push(e.last()).drop_last() =~= t);
            assert(t.push(e.last()).last() == e.last());
        }
        if forall|i: int| 0 <= i < e.len() && e[i].owner == owner && e[i].slot == slot ==> off.contains(#[trigger] e[i].item) {
            assert forall|i: int| 0 <= i < e.drop_last().len() && e.drop_last()[i].owner == owner && e.drop_last()[i].slot == slot
                implies off.contains(#[trigger] e.drop_last()[i].item) by {
                assert(e.drop_last()[i] == e[i]);
            }
            if e.last().owner == owner && e.last().slot == slot {
                assert(off.contains(e[e.len() - 1].item));
            }
        }
    }
}

/// At most one item per owner and slot: equipping an item the way `plan_item_use` plans it
/// (what the owner has in the slot comes off, the item goes on) keeps it so, and leaves the
/// owner with exactly that item in the slot.
pub proof fn lemma_equipping_keeps_one_per_slot(e: Seq<EquippedItem>, item: EntityId, owner: EntityId, slot: EquipmentSlot)
    requires
        one_per_slot(e),
    ensures
        one_per_slot(equipped_after(e, item, owner, slot)),
        equipped_in_slot(equipped_after(e, item, owner, slot), owner, slot) == seq![item],
{
    let off = equipped_in_slot(e, owner, slot);
    let rest = take_off(e, off);
    let after = equipped_after(e, item, owner, slot);
    assert forall|i: int| 0 <= i < e.len() && e[i].owner == owner && e[i].slot == slot implies off.contains(#[trigger] e[i].item) by {
        lemma_in_slot_listed(e, owner, slot, i);
    }
    lemma_take_off_counts(e, off, owner, slot);
    assert(after.drop_last() == rest);
    assert(equipped_in_slot(rest, owner, slot).len() == 0);
    assert(equipped_in_slot(after, owner, slot) =~= seq![item]);
    assert forall|o: EntityId, sl: EquipmentSlot| #[trigger] slot_count(after, o, sl) <= 1 by {
        lemma_take_off_counts(e, off, o, sl);
        assert(slot_count(e, o, sl) <= 1);
    }
}

/// Who wears an item, and in which slot.
#[derive(PartialEq, Eq, Copy, Clone, Debug, Structural)]
pub struct Wearing {
    pub owner: EntityId,
    pub slot: EquipmentSlot,
}

/// Where an item is held: in whose backpack, and on whom in which slot.
#[derive(PartialEq, Eq, Copy, Clone, Debug, Structural)]
pub struct ItemHold {
    pub item: EntityId,
    pub carried_by: Option<EntityId>,
    pub worn: Option<Wearing>,
}

/// How an item is held once `owner` equips `item` in `slot`: the item is worn there and out
/// of any backpack; what the owner wore in that slot goes into the owner's backpack; the
/// rest stays.
pub open spec fn hold_after_equip(h: ItemHold, item: EntityId, owner: EntityId, slot: EquipmentSlot) -> ItemHold {
    if h.item == item {
        ItemHold { item, carried_by: None, worn: Some(Wearing { owner, slot }) }
    } else if h.worn == Some(Wearing { owner, slot }) {
        ItemHold { item: h.item, carried_by: Some(owner), worn: None }
    } else {
        h
    }
}

/// No two held items are worn by the same owner in the same slot.
pub open spec fn holds_one_per_slot(hs: Seq<ItemHold>) -> bool {
    forall|i: int, j: int| 0 <= i < hs.len() && 0 <= j < hs.len() && i != j && (#[trigger] hs[i]).worn is Some
        ==> hs[i].worn != (#[trigger] hs[j]).worn
}

/// No item is listed twice.
pub open spec fn holds_distinct(hs: Seq<ItemHold>) -> bool {
    forall|i: int, j: int| 0 <= i < hs.len() && 0 <= j < hs.len() && i != j ==> (#[trigger] hs[i]).item != (#[trigger] hs[j]).item
}

/// Equips `item` on `owner` in `slot`: the item leaves any backpack and is worn there, and
/// whatever the owner wore in that slot goes into the owner's backpack. At most one item
/// per owner and slot stays so.
pub fn equip_item(holds: &mut Vec<ItemHold>, item: EntityId, owner: EntityId, slot: EquipmentSlot)
    ensures
        final(holds)@.len() == old(holds)@.len(),
        forall|i: int| 0 <= i < old(holds)@.len() ==> (#[trigger] final(holds)@[i]) == hold_after_equip(old(holds)@[i], item, owner, slot),
        holds_distinct(old(holds)@) && holds_one_per_slot(old(holds)@) ==> holds_one_per_slot(final(holds)@),
{
    let ghost h0 = holds@;
    let mut i: usize = 0;
    while i < holds.len()
        invariant
            holds@.len() == h0.len(),
            i <= h0.len(),
            forall|k: int| 0 <= k < i ==> (#[trigger] holds@[k]) == hold_after_equip(h0[k], item, owner, slot),
            forall|k: int| i <= k < h0.len() ==> (#[trigger] holds@[k]) == h0[k],
        decreases h0.len() - i,
    {
        let h = holds[i];
        let new_h = if h.item == item {
            ItemHold { item, carried_by: None, worn: Some(Wearing { owner, slot }) }
        } else if (match h.worn { Some(wr) => wr.owner == owner && wr.slot == slot, None => false }) {
            ItemHold { item: h.item, carried_by: Some(owner), worn: None }
        } else {
            h
        };
        holds.set(i, new_h);
        i = i + 1;
    }
    proof {
        if holds_distinct(h0) && holds_one_per_slot(h0) {
            assert forall|a: int, b: int| 0 <= a < holds@.len() && 0 <= b < holds@.len() && a != b && (#[trigger] holds@[a]).worn is Some
                implies holds@[a].worn != (#[trigger] holds@[b]).worn by {
                assert(holds@[a] == hold_after_equip(h0[a], item, owner, slot));
                assert(holds@[b] == hold_after_equip(h0[b], item, owner, slot));
                assert(h0[a].item != h0[b].item);
            }
        }
    }
}

/// Hit points after healing `hp` by `amount` (see `healed_hp`).
pub open spec fn healed(hp: int, max_hp: int, amount: int) -> int {
    if max_hp < hp + amount { max_hp } else { hp + amount }
}

/// Healing adds the amount but never goes past the most: the result is the smaller of the
/// raised hit points and the most.
pub proof fn lemma_heal_capped(hp: int, max_hp: int, amount: int)
    ensures
        healed(hp, max_hp, amount) <= max_hp,
        healed(hp, max_hp, amount) <= hp + amount,
        healed(hp, max_hp, amount) == hp + amount || healed(hp, max_hp, amount) == max_hp,
{
}

/// Hit points after healing by `amount`: raised by it, up to the most.
pub fn healed_hp(hp: i32, max_hp: i32, amount: i32) -> (r: i32)
    requires
        i32::MIN <= hp + amount <= i32::MAX,
    ensures
        r == healed(hp as int, max_hp as int, amount as int),
{
    let raised = hp + amount;
    if max_hp < raised { max_hp } else { raised }
}

/// What an item does when used: the parts of it that act.
#[derive(PartialEq, Eq, Copy, Clone, Debug, Structural)]
pub struct ItemEffects {
    pub equip_slot: Option<EquipmentSlot>,
    pub food: Option<i32>,
    pub heal: Option<i32>,
    pub damage: Option<i32>,
    pub confusion: Option<i32>,
    pub magic_mapper: bool,
    pub consumable: bool,
}

/// The work the use of an item comes to: who it acts on, what is taken off and put on, who
/// eats, who is hurt or confused and how much, whether the map is revealed, and whether the
/// item is used up.
#[derive(PartialEq, Eq, Clone, Debug)]
pub struct ItemUsePlan {
    pub targets: Vec<EntityId>,
    pub unequip: Vec<EntityId>,
    pub equip_by: Option<EntityId>,
    pub feed: Option<EntityId>,
    pub heal: Option<i32>,
    pub damage: Option<i32>,
    pub confusion: Option<i32>,
    pub reveal_map: bool,
    pub destroy_item: bool,
}

/// Plans the use of an item with effects `fx` on `targets` (see `use_targets`): an
/// equippable item goes to the first target, who takes off what it has in that slot; food
/// feeds the first target; healing, damage and confusion act on every target; a mapping
/// scroll reveals the map; a consumable is used up.
pub fn plan_item_use(fx: ItemEffects, targets: Vec<EntityId>, equipped: &Vec<EquippedItem>) -> (plan: ItemUsePlan)
    requires
        (fx.equip_slot is Some || fx.food is Some) ==> targets@.len() > 0,
    ensures
        plan.targets@ == targets@,
        plan.unequip@ == match fx.equip_slot {
            Some(slot) => equipped_in_slot(equipped@, targets@[0], slot),
            None => Seq::empty(),
        },
        plan.equip_by == match fx.equip_slot { Some(_) => Some(targets@[0]), None => None },
        plan.feed == match fx.food { Some(_) => Some(targets@[0]), None => None },
        plan.heal == fx.heal,
        plan.damage == fx.damage,
        plan.confusion == fx.confusion,
        plan.reveal_map == fx.magic_mapper,
        plan.destroy_item == fx.consumable,
{
    let (unequip, equip_by) = match fx.equip_slot {
        Some(slot) => (items_to_unequip(equipped, targets[0], slot), Some(targets[0])),
        None => (Vec::new(), None),
    };
    let feed = match fx.food {
        Some(_) => Some(targets[0]),
        None => None,
    };
    ItemUsePlan {
        targets,
        unequip,
        equip_by,
        feed,
        heal: fx.heal,
        damage: fx.damage,
        confusion: fx.confusion,
        reveal_map: fx.magic_mapper,
        destroy_item: fx.consumable,
    }
}

/// Feeds a creature `points` of food: its clock moves as eating says (see
/// `HungerSystem::calculate_new_hunger_state`).
pub fn feed(clock: &mut HungerClock, points: i32)
    requires
        i32::MIN <= old(clock).hunger_points + points <= i32::MAX,
    ensures
        final(clock).state == after_meal(old(clock).hunger_points as int, old(clock).state, points as int).0,
        final(clock).hunger_points == after_meal(old(clock).hunger_points as int, old(clock).state, points as int).1,
{
    let (state, pts) = HungerSystem::calculate_new_hunger_state(clock.hunger_points, clock.state, points);
    clock.hunger_points = pts;
    clock.state = state;
}

/// After equipping, the target has nothing left in the slot but the new item: every item
/// the plan takes off is one the target had in that slot.
pub proof fn lemma_unequip_only_same_slot(e: Seq<EquippedItem>, owner: EntityId, slot: EquipmentSlot, i: int)
    requires
        0 <= i < equipped_in_slot(e, owner, slot).len(),
    ensures
        exists|k: int| 0 <= k < e.len() && e[k].item == equipped_in_slot(e, owner, slot)[i]
            && e[k].owner == owner && e[k].slot == slot,
    decreases e.len(),
{
    let prev = equipped_in_slot(e.drop_last(), owner, slot);
    if i < prev.len() {
        lemma_unequip_only_same_slot(e.drop_last(), owner, slot, i);
        let k = choose|k: int| 0 <= k < e.drop_last().len() && e.drop_last()[k].item == prev[i]
            && e.drop_last()[k].owner == owner && e.drop_last()[k].slot == slot;
        assert(e[k] == e.drop_last()[k]);
    } else {
        assert(e[e.len() - 1] == e.last());
    }
}

} // verus!
