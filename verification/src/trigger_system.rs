use vstd::prelude::*;

use crate::run_state::EntityId;

verus! {

/// Something on the tile a creature stepped onto, as the trap logic sees it.
#[derive(PartialEq, Eq, Copy, Clone, Debug, Structural)]
pub struct TileThing {
    pub entity: EntityId,
    pub entry_trigger: bool,
    pub damage: Option<i32>,
    pub single_activation: bool,
}

/// What a trap that goes off does.
#[derive(PartialEq, Eq, Copy, Clone, Debug, Structural)]
pub struct Triggered {
    /// The trap.
    pub trap: EntityId,
    /// The damage it deals the creature that stepped on it.
    pub damage: Option<i32>,
    /// Whether it is spent (it loses its trigger and its damage).
    pub spent: bool,
}

/// The traps among `things` that go off for `mover`, in order: every thing with an entry
/// trigger other than the mover itself.
pub open spec fn traps_for(mover: EntityId, things: Seq<TileThing>) -> Seq<Triggered>
    decreases things.len(),
{
    if things.len() == 0 {
        Seq::empty()
    } else {
        let t = things.last();
        let prev = traps_for(mover, things.drop_last());
        if t.entity != mover && t.entry_trigger {
            prev.push(Triggered { trap: t.entity, damage: t.damage, spent: t.single_activation })
        } else {
            prev
        }
    }
}

/// The system that sets off traps when creatures step on them.
pub struct TriggerSystem {}

impl TriggerSystem {
    /// The traps that go off when `mover` steps onto a tile holding `things` (see
    /// `traps_for`); each also stops being hidden.
    pub fn triggered(mover: EntityId, things: &Vec<TileThing>) -> (r: Vec<Triggered>)
        ensures
            r@ == traps_for(mover, things@),
    {
        let mut r: Vec<Triggered> = Vec::new();
        let mut i: usize = 0;
        while i < things.len()
            invariant
                i <= things@.len(),
                r@ == traps_for(mover, things@.subrange(0, i as int)),
            decreases things@.len() - i,
        {
            let t = things[i];
            proof {
                assert(things@.subrange(0, i + 1).drop_last() =~= things@.subrange(0, i as int));
                assert(things@.subrange(0, i + 1).last() == t);
            }
            if t.entity != mover && t.entry_trigger {
                r.push(Triggered { trap: t.entity, damage: t.damage, spent: t.single_activation });
            }
            i = i + 1;
        }
        assert(things@.subrange(0, things@.len() as int) =~= things@);
        r
    }
}

/// A creature never sets off itself.
pub proof fn lemma_no_self_trigger(mover: EntityId, things: Seq<TileThing>, i: int)
    requires
        0 <= i < traps_for(mover, things).len(),
    ensures
        traps_for(mover, things)[i].trap != mover,
    decreases things.len(),
{
    let prev = traps_for(mover, things.drop_last());
    if i < prev.len() {
        lemma_no_self_trigger(mover, things.drop_last(), i);
    }
}

} // verus!
