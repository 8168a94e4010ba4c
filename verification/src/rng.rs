use vstd::prelude::*;

verus! {

/// The dice roller of `bracket-lib`; what lies inside it is hidden from the proofs.
#[verifier::external_type_specification]
#[verifier::external_body]
pub struct ExRandomNumberGenerator(bracket_lib::random::RandomNumberGenerator);

/// Rolls `n` dice of `die_type` sides with `RandomNumberGenerator::roll_dice`.
/// Claimed of the outside code: each die is drawn from `1..=die_type`, so the sum lies
/// between `n` and `n * die_type`; which value comes out is left open (it rests on chance).
#[verifier::external_body]
pub(crate) fn roll_dice(rng: &mut bracket_lib::random::RandomNumberGenerator, n: i32, die_type: i32) -> (r: i32)
    requires
        0 <= n,
        1 <= die_type < i32::MAX,
        n * die_type <= i32::MAX,
    ensures
        n <= r <= n * die_type,
{
    rng.roll_dice(n, die_type)
}

} // verus!

verus! {

/// Draws from `min..max` with `RandomNumberGenerator::range`.
/// Claimed of the outside code: the value lies in `min..max`; which one is left open.
#[verifier::external_body]
pub(crate) fn range(rng: &mut bracket_lib::random::RandomNumberGenerator, min: i32, max: i32) -> (r: i32)
    requires
        min < max,
    ensures
        min <= r < max,
{
    rng.range(min, max)
}

/// A generator seeded from the operating system's entropy, with
/// `RandomNumberGenerator::new`; nothing is claimed of what it will draw.
#[verifier::external_body]
pub(crate) fn new_rng() -> (rng: bracket_lib::random::RandomNumberGenerator) {
    bracket_lib::random::RandomNumberGenerator::new()
}

} // verus!
