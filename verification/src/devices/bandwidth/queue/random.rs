//! Draws that a queue decides by.
use rand::{RngCore, SeedableRng};
use vstd::prelude::*;

verus! {

/// The standard generator of `rand`.
#[verifier::external_type_specification]
#[verifier::external_body]
pub struct ExStdRng(rand::rngs::StdRng);

/// The numbers of 32 bits that are drawn in turn.
pub type Words = spec_fn(nat) -> u32;

/// The words without the first `n`.
pub open spec fn later(words: Words, n: nat) -> Words {
    |i: nat| words(i + n)
}

/// The first two words as a number of 64 bits, the first one in its lower half.
pub open spec fn long_word(words: Words) -> u64 {
    (words(0) + words(1) * 0x1_0000_0000) as u64
}

/// The `i`-th word that a generator will yield.
pub uninterp spec fn word_of(rng: rand::rngs::StdRng, i: nat) -> u32;

/// The `i`-th word of a generator that was seeded with `seed`.
pub uninterp spec fn seeded_word(seed: u64, i: nat) -> u32;

/// The words that a generator will yield.
pub open spec fn words_of(rng: rand::rngs::StdRng) -> Words {
    |i: nat| word_of(rng, i)
}

/// The words of a generator that was seeded with `seed`.
pub open spec fn seeded_words(seed: u64) -> Words {
    |i: nat| seeded_word(seed, i)
}

/// Seeds a generator with `rand::SeedableRng::seed_from_u64`. What it will yield is a function
/// of the seed; which words these are is left open.
#[verifier::external_body]
pub(crate) fn seeded(seed: u64) -> (rng: rand::rngs::StdRng)
    ensures
        forall|i: nat| #[trigger] word_of(rng, i) == seeded_word(seed, i),
{
    rand::rngs::StdRng::seed_from_u64(seed)
}

/// Takes the next word from a generator with `rand::RngCore::next_u32`. What follows it is
/// what the generator yields from then on.
#[verifier::external_body]
pub(crate) fn next_u32(rng: &mut rand::rngs::StdRng) -> (n: u32)
    ensures
        n == word_of(*old(rng), 0),
        forall|i: nat| #[trigger] word_of(*final(rng), i) == word_of(*old(rng), i + 1),
{
    rng.next_u32()
}

/// Takes the next two words from a generator with `rand::RngCore::next_u64`, the first one as
/// the lower half. What follows them is what the generator yields from then on.
#[verifier::external_body]
pub(crate) fn next_u64(rng: &mut rand::rngs::StdRng) -> (n: u64)
    ensures
        n == word_of(*old(rng), 0) + word_of(*old(rng), 1) * 0x1_0000_0000,
        forall|i: nat| #[trigger] word_of(*final(rng), i) == word_of(*old(rng), i + 2),
{
    rng.next_u64()
}

/// The seed of every queue's generator.
pub const QUEUE_SEED: u64 = 42;

/// A number of 64 bits holds both words that it is drawn from, and drawing on leaves out
/// exactly what was drawn.
pub proof fn law_draws_use_each_word_once(words: Words, m: nat, n: nat, i: nat)
    ensures
        long_word(words) % 0x1_0000_0000 == words(0),
        long_word(words) / 0x1_0000_0000 == words(1),
        later(words, n)(i) == words(n + i),
        later(later(words, m), n)(i) == later(words, m + n)(i),
{
}

} // verus!
