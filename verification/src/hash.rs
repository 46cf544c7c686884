//! Seeds derived from the world seed, and the stream of random words that a
//! seed selects.

use vstd::prelude::*;
use vstd::bytes::spec_u32_to_le_bytes;
use vstd::bytes::spec_u64_to_le_bytes;
use vstd::bytes::u32_to_le_bytes;
use vstd::bytes::u64_to_le_bytes;
use vstd::std_specs::hash::DefaultHasherAdditionalSpecFns;
use std::collections::hash_map::DefaultHasher;
use std::hash::Hasher;
use rand_chacha::ChaCha12Rng;
use rand_chacha::rand_core::RngCore;
use rand_chacha::rand_core::SeedableRng;
use crate::coords::IVec2;

verus! {

/// What is fed to the hasher for a seed and a coordinate: the seed, then the
/// two components, each as its little-endian bytes. The order matters.
pub open spec fn coord_hash_input(seed: u64, coord: IVec2) -> Seq<Seq<u8>> {
    seq![
        spec_u64_to_le_bytes(seed),
        spec_u32_to_le_bytes(coord.x as u32),
        spec_u32_to_le_bytes(coord.y as u32),
    ]
}

/// The seed that belongs to a coordinate under a world seed.
pub open spec fn coord_seed(seed: u64, coord: IVec2) -> u64 {
    DefaultHasher::spec_finish(coord_hash_input(seed, coord))
}

/// Derive the seed of a chunk or of a tile from the world seed and the
/// coordinate. The same seed and coordinate always give the same result, and
/// no state is kept between calls.
pub fn seed_from_coord(seed: u64, coord: &IVec2) -> (sub_seed: u64)
    ensures
        sub_seed == coord_seed(seed, *coord),
{
    let mut hasher = DefaultHasher::new();
    let seed_bytes = u64_to_le_bytes(seed);
    let x_bytes = u32_to_le_bytes(coord.x as u32);
    let y_bytes = u32_to_le_bytes(coord.y as u32);
    hasher.write(seed_bytes.as_slice());
    hasher.write(x_bytes.as_slice());
    hasher.write(y_bytes.as_slice());
    assert(hasher@ =~= coord_hash_input(seed, *coord));
    hasher.finish()
}

/// The 32-bit word at position `pos` of the ChaCha stream with twelve rounds
/// whose key is expanded from `seed`.
pub uninterp spec fn chacha12_word(seed: u64, pos: u64) -> u32;

/// The position after `pos`; after the last position the stream starts over.
pub open spec fn next_pos(pos: u64) -> u64 {
    if pos == u64::MAX {
        0
    } else {
        (pos + 1) as u64
    }
}

/// Reads one word of a seeded stream: `ChaCha12Rng::seed_from_u64` makes the
/// generator for `seed`, `set_word_pos` moves it to word `pos`, and
/// `next_u32` reads the word there. The word depends on the seed and the
/// position alone; nothing else is claimed of it.
#[verifier::external_body]
fn stream_word(seed: u64, pos: u64) -> (word: u32)
    ensures
        word == chacha12_word(seed, pos),
{
    let mut rng = ChaCha12Rng::seed_from_u64(seed);
    rng.set_word_pos(u128::from(pos));
    rng.next_u32()
}

/// A source of random words: an unending stream of words, and a position in it.
pub trait WordSource {
    /// The word at position `pos` of the stream.
    spec fn word_at(&self, pos: u64) -> u32;

    /// How many words have been read, up to the point where the count
    /// starts over.
    spec fn position(&self) -> u64;

    /// Read the next word of the stream. The stream stays the same; the
    /// position moves on by one.
    fn next_word(&mut self) -> (word: u32)
        ensures
            word == old(self).word_at(old(self).position()),
            final(self).position() == next_pos(old(self).position()),
            forall|pos: u64| final(self).word_at(pos) == old(self).word_at(pos),
    ;
}

/// The stream of a source, as a function of the position.
pub open spec fn stream_of<W: WordSource>(source: &W) -> spec_fn(u64) -> u32 {
    |pos: u64| source.word_at(pos)
}

/// A reader of the random words that a seed selects, one after the other.
#[derive(Clone, Copy, Debug)]
pub struct WordStream {
    seed: u64,
    pos: u64,
}

impl WordStream {
    /// The seed that selects the stream.
    pub closed spec fn seed(&self) -> u64 {
        self.seed
    }

    /// A reader at the start of the stream of `seed`.
    pub fn new(seed: u64) -> (stream: WordStream)
        ensures
            stream.seed() == seed,
            stream.position() == 0,
    {
        WordStream { seed, pos: 0 }
    }
}

impl WordSource for WordStream {
    closed spec fn word_at(&self, pos: u64) -> u32 {
        chacha12_word(self.seed, pos)
    }

    closed spec fn position(&self) -> u64 {
        self.pos
    }

    fn next_word(&mut self) -> (word: u32)
        ensures
            word == chacha12_word(old(self).seed(), old(self).position()),
            final(self).seed() == old(self).seed(),
    {
        let word = stream_word(self.seed, self.pos);
        self.pos = if self.pos == u64::MAX {
            0
        } else {
            self.pos + 1
        };
        word
    }
}

/// The words of a seeded reader are the words that its seed selects.
pub proof fn lemma_word_stream(stream: &WordStream)
    ensures
        forall|pos: u64| stream.word_at(pos) == chacha12_word(stream.seed(), pos),
        stream_of(stream) == seeded_stream(stream.seed()),
{
    assert(stream_of(stream) =~= seeded_stream(stream.seed()));
}

/// The stream that a seed selects, as a function of the position.
pub open spec fn seeded_stream(seed: u64) -> spec_fn(u64) -> u32 {
    |pos: u64| chacha12_word(seed, pos)
}

/// A source that reads given words, one after the other, and starts over
/// after the last of them. Without words it reads zeros.
pub struct FixedWords {
    words: Vec<u32>,
    pos: u64,
}

impl FixedWords {
    /// The words that the source reads.
    pub closed spec fn words(&self) -> Seq<u32> {
        self.words@
    }

    /// A source at the first of `words`.
    pub fn new(words: Vec<u32>) -> (source: FixedWords)
        ensures
            source.words() == words@,
            source.position() == 0,
    {
        FixedWords { words, pos: 0 }
    }

    /// The word that a source of `words` reads at position `pos`.
    pub open spec fn cycled(words: Seq<u32>, pos: u64) -> u32 {
        if words.len() == 0 {
            0
        } else {
            words[pos as int % words.len() as int]
        }
    }
}

impl WordSource for FixedWords {
    closed spec fn word_at(&self, pos: u64) -> u32 {
        FixedWords::cycled(self.words@, pos)
    }

    closed spec fn position(&self) -> u64 {
        self.pos
    }

    fn next_word(&mut self) -> (word: u32)
        ensures
            word == FixedWords::cycled(old(self).words(), old(self).position()),
            final(self).words() == old(self).words(),
    {
        let len: usize = self.words.len();
        let word: u32 = if len == 0 {
            0
        } else {
            self.words[(self.pos % len as u64) as usize]
        };
        self.pos = if self.pos == u64::MAX {
            0
        } else {
            self.pos + 1
        };
        word
    }
}

/// The words of a fixed source are its words, over and over.
pub proof fn lemma_fixed_words(source: &FixedWords)
    ensures
        forall|pos: u64| source.word_at(pos) == FixedWords::cycled(source.words(), pos),
{
}

/// The two generator seeds that a world seed gives: one for the terrain and
/// one for the resources, so that the two are derived independently.
pub struct GeneratorSeeds {
    pub tiles: u64,
    pub resources: u64,
}

/// Two words as one 64-bit number, the first word low.
pub open spec fn joined(low: u32, high: u32) -> u64 {
    (low as u64) | ((high as u64) << 32)
}

/// Join two words into one 64-bit number, the first word low.
pub fn join_words(low: u32, high: u32) -> (number: u64)
    ensures
        number == joined(low, high),
{
    (low as u64) | ((high as u64) << 32)
}

/// Two consecutive words of the stream of a seed as one 64-bit number.
pub open spec fn stream_u64(seed: u64, pos: u64) -> u64 {
    joined(chacha12_word(seed, pos), chacha12_word(seed, next_pos(pos)))
}

/// Derive the seed of the terrain generator and the seed of the resource
/// generator from the world seed: the first and the second 64-bit number of
/// the stream that the world seed selects.
pub fn derive_generator_seeds(seed: u64) -> (seeds: GeneratorSeeds)
    ensures
        seeds.tiles == stream_u64(seed, 0),
        seeds.resources == stream_u64(seed, 2),
{
    let mut stream = WordStream::new(seed);
    let a: u32 = stream.next_word();
    let b: u32 = stream.next_word();
    let c: u32 = stream.next_word();
    let d: u32 = stream.next_word();
    GeneratorSeeds { tiles: join_words(a, b), resources: join_words(c, d) }
}

} // verus!
