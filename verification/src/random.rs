//! The randomness behind the birth of trails: what is taken from the
//! generator, and how a draw decides a spawn.

use rand::distributions::uniform::SampleRange;
use rand::distributions::Standard;
use rand::rngs::StdRng;
use rand::Rng;
use vstd::prelude::*;

verus! {

/// `rand::rngs::StdRng`, the generator that a matrix owns. Nothing is known
/// of what is inside it.
#[verifier::external_type_specification]
#[verifier::external_body]
pub struct ExStdRng(StdRng);

/// Number of equally likely values of one uniform draw: the upper 53 bits of
/// a generator word.
pub const DRAW_OUTCOMES: u64 = 0x20_0000_0000_0000;

/// The uniform draw that a generator word stands for: its upper 53 bits.
pub open spec fn draw_of(word: u64) -> int {
    word as int / 2048
}

/// Whether a draw spawns a trail under `chance`, the number of draws out of
/// `DRAW_OUTCOMES` that do: the draws below `chance` spawn. A chance of zero
/// never spawns, one of `DRAW_OUTCOMES` or more always does.
pub open spec fn spawns(word: u64, chance: u64) -> bool {
    draw_of(word) < chance
}

/// Decides from one generator word whether a trail is spawned.
pub fn spawn_hit(word: u64, chance: u64) -> (hit: bool)
    ensures
        hit == spawns(word, chance),
        chance == 0 ==> !hit,
        chance >= DRAW_OUTCOMES ==> hit,
{
    assert(word >> 11 == word / 2048) by (bit_vector);
    (word >> 11) < chance
}

/// `rand::Rng::sample` with `rand::distributions::Standard` for `u64`: the
/// next 64-bit word of the generator. Nothing is claimed of the word.
#[verifier::external_body]
pub(crate) fn next_word(rng: &mut StdRng) -> (word: u64) {
    rng.sample(Standard)
}

/// `rand::distributions::uniform::SampleRange::sample_single` on the range
/// `low..high` of `u16`. The outside function panics on an empty range, which
/// the precondition leaves out; what it returns lies in the range, and that is
/// all that is claimed of it. It draws words until one of them is outside the
/// part of the words that it rejects.
#[verifier::external_body]
pub(crate) fn sample_between(rng: &mut StdRng, low: u16, high: u16) -> (value: u16)
    requires
        low < high,
    ensures
        low <= value < high,
{
    (low..high).sample_single(rng)
}

} // verus!
