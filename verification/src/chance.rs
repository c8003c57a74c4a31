//! Chances and the random draws that are held against them.
//!
//! A chance is a whole number of parts of `CHANCE_ONE`. A draw is a whole
//! number below `CHANCE_ONE`, each as likely as the other, and a thing with
//! chance `c` happens on the draws below `c`. So a chance of zero never
//! happens and a chance of `CHANCE_ONE` or more always does, whatever is drawn.

use rand::Rng;
use vstd::prelude::*;

verus! {

/// The chance of what is certain: two to the power of 53, the number of
/// values that a draw can take.
pub const CHANCE_ONE: u64 = 9_007_199_254_740_992;

/// Whether a thing of chance `chance` happens on the draw `draw`.
pub open spec fn happens(chance: u64, draw: u64) -> bool {
    draw < chance
}

/// The chance that counts for a message: a direct reply to the bot's own
/// message is answered for certain.
pub open spec fn effective_chance(chance: u64, force_fire: bool) -> u64 {
    if force_fire {
        CHANCE_ONE
    } else {
        chance
    }
}

/// Calls `rand::Rng::gen_range` on the thread's generator with the range
/// from zero up to, and without, `bound`. Which number comes is left open:
/// it lies in the range.
#[verifier::external_body]
pub(crate) fn random_below(bound: u64) -> (draw: u64)
    requires
        bound > 0,
    ensures
        draw < bound,
{
    rand::thread_rng().gen_range(0..bound)
}

/// Whether a thing of chance `chance` happens on the draw `draw`.
pub fn fires_on(chance: u64, draw: u64) -> (fired: bool)
    ensures
        fired == happens(chance, draw),
{
    draw < chance
}

/// Decides by a random draw whether a thing of chance `chance` happens. For
/// a chance of zero and for a certain one nothing is drawn.
pub fn fires(chance: u64) -> (fired: bool)
    ensures
        chance == 0 ==> !fired,
        chance >= CHANCE_ONE ==> fired,
        exists|draw: u64| draw < CHANCE_ONE && fired == happens(chance, draw),
{
    if chance == 0 {
        assert(!happens(chance, 0u64));
        false
    } else if chance >= CHANCE_ONE {
        assert(happens(chance, 0u64));
        true
    } else {
        let draw = random_below(CHANCE_ONE);
        fires_on(chance, draw)
    }
}

/// What a chance of zero and a certain chance come to does not depend on the draw.
pub proof fn lemma_chance_boundaries(chance: u64, draw: u64)
    requires
        draw < CHANCE_ONE,
    ensures
        chance == 0 ==> !happens(chance, draw),
        chance >= CHANCE_ONE ==> happens(chance, draw),
{
}

} // verus!
