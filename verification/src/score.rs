//! Knowledge scores and the rule that updates them.
//!
//! A score is a fixed-point number above zero and below one, held as a whole
//! number of units of which `SCORE_ONE`, a billion, make one. Practice moves
//! a score a quarter of the way towards the weight of the outcome, rounded
//! to the nearest whole unit, so a score is a moving average of the outcomes
//! that weighs recent ones more. No practice takes a score to zero or to one.
//! A score that sees nothing but correct answers rises towards one and comes
//! to rest one unit below it; one that sees nothing but incorrect answers
//! falls towards zero and comes to rest one or two units above it.

use vstd::prelude::*;

verus! {

/// The score 1.0: the number of units that make one.
pub const SCORE_ONE: u64 = 1_000_000_000;

/// A quarter of `observed` and three quarters of `prior`, rounded to the
/// nearest whole unit, and up where two are equally near.
pub open spec fn blend(prior: int, observed: int) -> int {
    (observed + 3 * prior + 2) / 4
}

/// The score that `times` practices of one outcome, of weight `observed`,
/// lead to from `start`.
pub open spec fn practiced(start: int, observed: int, times: nat) -> int
    decreases times,
{
    if times == 0 {
        start
    } else {
        blend(practiced(start, observed, (times - 1) as nat), observed)
    }
}

/// The score after a practice whose outcome weighs `observation_weight`, for
/// a word whose score was `prior`.
pub fn update_score(prior: u64, observation_weight: u64) -> (next: u64)
    ensures
        next == blend(prior as int, observation_weight as int),
{
    let sum: u128 = observation_weight as u128 + 3 * (prior as u128) + 2;
    (sum / 4) as u64
}

/// A blended score is the whole number of units nearest to a quarter of the
/// observed weight and three quarters of the prior score: it is off by half
/// a unit at most.
pub proof fn lemma_blend_nearest(prior: int, observed: int)
    ensures
        -2 < 4 * blend(prior, observed) - (observed + 3 * prior) <= 2,
{
}

/// Blending is exact whenever the exact value is a whole number of units.
pub proof fn lemma_blend_exact(prior: int, observed: int)
    requires
        (observed + 3 * prior) % 4 == 0,
    ensures
        4 * blend(prior, observed) == observed + 3 * prior,
{
}

/// A blended score lies between the prior score and the observed weight.
pub proof fn lemma_blend_between(prior: int, observed: int)
    ensures
        prior <= observed ==> prior <= blend(prior, observed) <= observed,
        observed <= prior ==> observed <= blend(prior, observed) <= prior,
{
}

/// A practice keeps a score that is above zero and below one above zero and
/// below one, whatever the outcome weighs between zero and one.
pub proof fn lemma_practice_within_bounds(score: int, observed: int)
    requires
        0 < score < SCORE_ONE,
        0 <= observed <= SCORE_ONE,
    ensures
        0 < blend(score, observed) < SCORE_ONE,
{
}

/// A correct practice keeps a score that is below one below one and never
/// lowers it. It raises every score but the one that stands one unit below
/// one, where the gain is less than half a unit.
pub proof fn lemma_correct_practice(score: int)
    requires
        0 <= score < SCORE_ONE,
    ensures
        blend(score, SCORE_ONE as int) < SCORE_ONE,
        score <= blend(score, SCORE_ONE as int),
        score < blend(score, SCORE_ONE as int) <==> score + 2 <= SCORE_ONE,
{
}

/// An incorrect practice keeps a score that is above zero above zero and
/// never raises it. It lowers every score of three units or more; at one or
/// two units the loss is half a unit at most.
pub proof fn lemma_incorrect_practice(score: int)
    requires
        0 < score <= SCORE_ONE,
    ensures
        0 < blend(score, 0),
        blend(score, 0) <= score,
        blend(score, 0) < score <==> 3 <= score,
{
}

/// However often a word that starts below one is practiced correctly, its
/// score stays below one and never falls, and it rises with every practice
/// until it stands one unit below one.
pub proof fn lemma_repeated_correct_practice(start: int, times: nat)
    requires
        0 <= start < SCORE_ONE,
    ensures
        start <= practiced(start, SCORE_ONE as int, times) < SCORE_ONE,
        practiced(start, SCORE_ONE as int, times) <= practiced(
            start,
            SCORE_ONE as int,
            times + 1,
        ),
        practiced(start, SCORE_ONE as int, times) + 2 <= SCORE_ONE ==> practiced(
            start,
            SCORE_ONE as int,
            times,
        ) < practiced(start, SCORE_ONE as int, times + 1),
    decreases times,
{
    if times > 0 {
        lemma_repeated_correct_practice(start, (times - 1) as nat);
    }
    lemma_correct_practice(practiced(start, SCORE_ONE as int, times));
}

/// However often a word that starts above zero is practiced incorrectly, its
/// score stays above zero and never rises, and it falls with every practice
/// until it stands two units above zero or less.
pub proof fn lemma_repeated_incorrect_practice(start: int, times: nat)
    requires
        0 < start <= SCORE_ONE,
    ensures
        0 < practiced(start, 0, times) <= start,
        practiced(start, 0, times + 1) <= practiced(start, 0, times),
        3 <= practiced(start, 0, times) ==> practiced(start, 0, times + 1) < practiced(
            start,
            0,
            times,
        ),
    decreases times,
{
    if times > 0 {
        lemma_repeated_incorrect_practice(start, (times - 1) as nat);
    }
    lemma_incorrect_practice(practiced(start, 0, times));
}

} // verus!
