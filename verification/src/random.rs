//! The source of the random draws that scatter the agents and make them
//! wander.

use vstd::prelude::*;
use xorshift::{Rng, SeedableRng, Xorshift128};
use crate::agent::DRAW_RANGE;

verus! {

/// The generator `Xorshift128` of the xorshift crate, carried as a value
/// of which nothing is known.
#[verifier::external_type_specification]
#[verifier::external_body]
pub struct ExXorshift128(xorshift::Xorshift128);

/// Calls `Xorshift128::from_seed` of the xorshift crate on a slice of the two
/// words given, which is as long as that function asks.  Nothing is claimed
/// of the generator that comes back.
#[verifier::external_body]
fn seeded_generator(first: u64, second: u64) -> (rng: Xorshift128) {
    Xorshift128::from_seed(&[first, second][..])
}

/// Calls `next_u32` of the xorshift crate's `Xorshift128`, which advances
/// the generator.  Nothing is claimed of the word that comes back.
#[verifier::external_body]
fn next_word(rng: &mut Xorshift128) -> (word: u32) {
    rng.next_u32()
}

/// A seeded stream of draws.  A draw `d` stands for the fraction
/// `d / DRAW_RANGE` of the unit interval.
pub struct RandomSource {
    rng: Xorshift128,
}

impl RandomSource {
    /// The stream that the two seed words select.
    pub fn seeded(first: u64, second: u64) -> (source: RandomSource) {
        RandomSource { rng: seeded_generator(first, second) }
    }

    /// The next draw of the stream.
    pub fn next_draw(&mut self) -> (draw: u32)
        ensures
            draw < DRAW_RANGE,
    {
        draw_of_word(next_word(&mut self.rng))
    }

    /// The next `n` draws of the stream, in the order drawn.
    pub fn draws(&mut self, n: usize) -> (draws: Vec<u32>)
        ensures
            draws@.len() == n,
            forall|i: int| 0 <= i < n ==> #[trigger] draws@[i] < DRAW_RANGE,
    {
        let mut draws: Vec<u32> = Vec::new();
        let mut i: usize = 0;
        while i < n
            invariant
                i <= n,
                draws@.len() == i,
                forall|k: int| 0 <= k < i ==> #[trigger] draws@[k] < DRAW_RANGE,
            decreases n - i,
        {
            let draw: u32 = self.next_draw();
            draws.push(draw);
            i += 1;
        }
        draws
    }
}

/// The draw that a word of the generator stands for: the remainder of the
/// word by `DRAW_RANGE`, which is its low 23 bits.  These are the bits that
/// make up the fraction of the unit interval that the generator itself
/// derives from the word.
pub open spec fn draw_of(word: int) -> int {
    word % (DRAW_RANGE as int)
}

/// The draw that `word` stands for.
pub fn draw_of_word(word: u32) -> (draw: u32)
    ensures
        draw == draw_of(word as int),
        draw < DRAW_RANGE,
{
    word % DRAW_RANGE
}

} // verus!
