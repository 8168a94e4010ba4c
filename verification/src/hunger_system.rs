use vstd::prelude::*;

verus! {

/// How well fed a creature is.
#[derive(PartialEq, Eq, Copy, Clone, Debug, Structural)]
pub enum HungerState {
    WellFed,
    Normal,
    Hungry,
    Starving,
}

/// A creature's hunger: its state and the points left before it moves on.
#[derive(PartialEq, Eq, Copy, Clone, Debug, Structural)]
pub struct HungerClock {
    pub state: HungerState,
    pub hunger_points: i32,
}

/// What one turn of hunger brings a creature.
#[derive(PartialEq, Eq, Copy, Clone, Debug, Structural)]
pub enum HungerEvent {
    Nothing,
    NoLongerWellFed,
    GettingHungry,
    Starving,
    StarvationDamage,
}

/// Clock and points a hunger state turns into once its points run out.
pub open spec fn hunger_runs_out(state: HungerState) -> (HungerState, HungerEvent) {
    match state {
        HungerState::WellFed => (HungerState::Normal, HungerEvent::NoLongerWellFed),
        HungerState::Normal => (HungerState::Hungry, HungerEvent::GettingHungry),
        HungerState::Hungry => (HungerState::Starving, HungerEvent::Starving),
        HungerState::Starving => (HungerState::Starving, HungerEvent::StarvationDamage),
    }
}

/// The state and points after a creature with `points` in `state` eats `food` points.
pub open spec fn after_meal(points: int, state: HungerState, food: int) -> (HungerState, int) {
    let combined = points + food;
    match state {
        HungerState::WellFed => (HungerState::WellFed, if combined < 20 { combined } else { 20 }),
        HungerState::Normal => if combined > 200 { (HungerState::WellFed, combined - 200) } else { (HungerState::Normal, combined) },
        HungerState::Hungry => if combined > 200 { (HungerState::Normal, combined - 200) } else { (HungerState::Hungry, combined) },
        HungerState::Starving => if combined > 200 { (HungerState::Hungry, combined - 200) } else { (HungerState::Starving, combined) },
    }
}

/// A meal moves a creature at most one step up the ladder of hunger, and only when its
/// points pass 200: at 200 or fewer it keeps its state and all the points; past 200 it
/// climbs exactly one step and 200 points are used up. A well-fed creature stays well fed
/// and keeps at most 20 points.
pub proof fn lemma_meal_steps(points: int, state: HungerState, food: int)
    ensures
        state != HungerState::WellFed && points + food <= 200 ==> after_meal(points, state, food) == (state, points + food),
        state != HungerState::WellFed && points + food > 200 ==> {
            &&& rank(after_meal(points, state, food).0) == rank(state) + 1
            &&& after_meal(points, state, food).1 == points + food - 200
        },
        state == HungerState::WellFed ==> after_meal(points, state, food) == (HungerState::WellFed,
            if points + food < 20 { points + food } else { 20 }),
{
}

/// The system that makes creatures hungry as turns pass.
pub struct HungerSystem {}

impl HungerSystem {
    /// The state and points after eating `food_points`: past 200 points the state moves one
    /// step up (to well fed at most) and 200 points are used up; a well-fed creature keeps at
    /// most 20 points.
    pub fn calculate_new_hunger_state(current_points: i32, current_state: HungerState, food_points: i32) -> (r: (HungerState, i32))
        requires
            i32::MIN <= current_points + food_points <= i32::MAX,
        ensures
            r.0 == after_meal(current_points as int, current_state, food_points as int).0,
            r.1 == after_meal(current_points as int, current_state, food_points as int).1,
    {
        let combined_points = current_points + food_points;
        match current_state {
            HungerState::WellFed => (HungerState::WellFed, if combined_points < 20 { combined_points } else { 20 }),
            HungerState::Normal => {
                if combined_points > 200 {
                    (HungerState::WellFed, combined_points - 200)
                } else {
                    (HungerState::Normal, combined_points)
                }
            },
            HungerState::Hungry => {
                if combined_points > 200 {
                    (HungerState::Normal, combined_points - 200)
                } else {
                    (HungerState::Hungry, combined_points)
                }
            },
            HungerState::Starving => {
                if combined_points > 200 {
                    (HungerState::Hungry, combined_points - 200)
                } else {
                    (HungerState::Starving, combined_points)
                }
            },
        }
    }

    /// One turn of hunger for a creature whose turn it is: a point goes; when none are left
    /// the state moves one step down with 200 fresh points, and a starving creature takes
    /// damage instead.
    pub fn tick_clock(clock: &mut HungerClock) -> (e: HungerEvent)
        requires
            old(clock).hunger_points > i32::MIN,
        ensures
            old(clock).hunger_points - 1 >= 1 ==> *final(clock) == (HungerClock { state: old(clock).state, hunger_points: (old(clock).hunger_points - 1) as i32 })
                && e == HungerEvent::Nothing,
            old(clock).hunger_points - 1 < 1 ==> *final(clock) == (HungerClock { state: hunger_runs_out(old(clock).state).0, hunger_points: 200 })
                && e == hunger_runs_out(old(clock).state).1,
    {
        clock.hunger_points = clock.hunger_points - 1;
        if clock.hunger_points < 1 {
            match clock.state {
                HungerState::WellFed => {
                    clock.state = HungerState::Normal;
                    clock.hunger_points = 200;
                    HungerEvent::NoLongerWellFed
                },
                HungerState::Normal => {
                    clock.state = HungerState::Hungry;
                    clock.hunger_points = 200;
                    HungerEvent::GettingHungry
                },
                HungerState::Hungry => {
                    clock.state = HungerState::Starving;
                    clock.hunger_points = 200;
                    HungerEvent::Starving
                },
                HungerState::Starving => {
                    clock.hunger_points = 200;
                    HungerEvent::StarvationDamage
                },
            }
        } else {
            HungerEvent::Nothing
        }
    }
}

/// Whether a creature's clock runs this turn: the player's on the player's turn, every
/// other creature's on the monsters' turn.
pub fn clock_runs(player_turn: bool, monster_turn: bool, is_player: bool) -> (r: bool)
    ensures
        r == ((player_turn && is_player) || (monster_turn && !is_player)),
{
    (player_turn && is_player) || (monster_turn && !is_player)
}

/// Eating never leaves a creature hungrier than it was: after a meal of non-negative
/// points the state is the same or one step better.
pub proof fn lemma_eating_never_worsens(points: int, state: HungerState, food: int)
    requires
        food >= 0,
    ensures
{
}

/// When its points run out a creature drops exactly one step down the ladder of hunger,
/// and hears of it (no longer well fed, getting hungry, starving); a starving creature can
/// drop no further and takes starvation damage instead. Only a starving creature is hurt.
pub proof fn lemma_hunger_runs_down(state: HungerState)
    ensures
        state != HungerState::Starving ==> rank(hunger_runs_out(state).0) == rank(state) - 1,
        state == HungerState::Starving ==> hunger_runs_out(state) == (HungerState::Starving, HungerEvent::StarvationDamage),
        (hunger_runs_out(state).1 == HungerEvent::StarvationDamage) == (state == HungerState::Starving),
        hunger_runs_out(state).1 != HungerEvent::Nothing,
        hunger_runs_out(HungerState::WellFed).1 == HungerEvent::NoLongerWellFed,
        hunger_runs_out(HungerState::Normal).1 == HungerEvent::GettingHungry,
        hunger_runs_out(HungerState::Hungry).1 == HungerEvent::Starving,
{
}

/// How well fed a state is, from starving (0) to well fed (3).
pub open spec fn rank(s: HungerState) -> int {
    match s {
        HungerState::Starving => 0,
        HungerState::Hungry => 1,
        HungerState::Normal => 2,
        HungerState::WellFed => 3,
    }
}

} // verus!
