//! The deterministic random stream that drives the optimizer.
//!
//! Randomness is modelled as a pure function of a 64-bit seed and a position:
//! the ChaCha8 generator is counter-based, so the word at any position in its
//! output stream depends on nothing but the seed and the position. The
//! engine keeps only the seed and a cursor, which makes every run with one
//! seed bit-for-bit reproducible.

use vstd::prelude::*;
use rand_chacha::rand_core::{Rng, SeedableRng};

verus! {

/// The 64-bit word at position `index` of the ChaCha8 output stream keyed by
/// `seed`.
pub uninterp spec fn chacha_stream(seed: u64, index: u64) -> u64;

/// Relies on rand_chacha's `ChaCha8Rng`: the generator is keyed with
/// `seed_from_u64(seed)`, positioned `index` 64-bit words (two 32-bit words)
/// into its output stream with `set_word_pos`, and read once with
/// `next_u64`. The word read this way is a pure function of the seed and
/// the position.
#[verifier::external_body]
fn chacha_word(seed: u64, index: u64) -> (r: u64)
    ensures
        r == chacha_stream(seed, index),
{
    let mut rng = rand_chacha::ChaCha8Rng::seed_from_u64(seed);
    rng.set_word_pos((index as u128) * 2);
    rng.next_u64()
}

/// The cursor position `k` words after `start`, wrapping at the end of the
/// 2^64-word range (meaningful for `0 <= k <= 2^64`).
pub open spec fn stream_pos(start: u64, k: int) -> u64 {
    if start + k > u64::MAX {
        (start + k - 0x1_0000_0000_0000_0000) as u64
    } else {
        (start + k) as u64
    }
}

/// Advancing one word from the position `k` words after `start` lands
/// `k + 1` words after `start`.
pub proof fn lemma_stream_pos_step(start: u64, k: int)
    requires
        0 <= k < 0x1_0000_0000_0000_0000,
    ensures
        stream_pos(start, k).wrapping_add(1) == stream_pos(start, k + 1),
{
}

/// A cursor into the ChaCha8 stream of one seed.
#[derive(Debug)]
pub struct SeedStream {
    pub seed: u64,
    pub index: u64,
}

impl SeedStream {
    /// A cursor at the start of the stream keyed by `seed`.
    pub fn new(seed: u64) -> (r: SeedStream)
        ensures
            r.seed == seed,
            r.index == 0,
    {
        SeedStream { seed, index: 0 }
    }

    /// Reads the word under the cursor and moves the cursor one word on
    /// (wrapping at the end of the 2^64-word range).
    pub fn next_word(&mut self) -> (r: u64)
        ensures
            r == chacha_stream(old(self).seed, old(self).index),
            final(self).seed == old(self).seed,
            final(self).index == old(self).index.wrapping_add(1),
    {
        let r = chacha_word(self.seed, self.index);
        self.index = self.index.wrapping_add(1);
        r
    }

    /// Reads `n` consecutive words.
    pub fn next_words(&mut self, n: usize) -> (r: Vec<u64>)
        ensures
            r@.len() == n,
            forall|i: int|
                0 <= i < n ==> r@[i] == chacha_stream(
                    old(self).seed,
                    stream_pos(old(self).index, i),
                ),
            final(self).seed == old(self).seed,
            final(self).index == stream_pos(old(self).index, n as int),
    {
        let mut out: Vec<u64> = Vec::new();
        let mut i: usize = 0;
        while i < n
            invariant
                0 <= i <= n,
                self.seed == old(self).seed,
                self.index == stream_pos(old(self).index, i as int),
                out@.len() == i,
                forall|j: int|
                    0 <= j < i ==> out@[j] == chacha_stream(
                        old(self).seed,
                        stream_pos(old(self).index, j),
                    ),
            decreases n - i,
        {
            let w = self.next_word();
            out.push(w);
            proof {
                lemma_stream_pos_step(old(self).index, i as int);
            }
            i += 1;
        }
        out
    }
}

} // verus!
