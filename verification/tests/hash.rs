use lethal_empire::coords::IVec2;
use lethal_empire::hash::{
    derive_generator_seeds, join_words, seed_from_coord, FixedWords, WordSource, WordStream,
};
use rand::rngs::StdRng;
use rand::{RngCore, SeedableRng};
use std::collections::hash_map::DefaultHasher;
use std::collections::HashSet;
use std::hash::Hasher;

#[test]
fn seed_from_coord_is_a_function_of_its_arguments() {
    let a = seed_from_coord(42, &IVec2::new(3, -7));
    let b = seed_from_coord(42, &IVec2::new(3, -7));
    assert_eq!(a, b);
}

#[test]
fn seed_from_coord_tells_seeds_and_coordinates_apart() {
    let mut seen = HashSet::new();
    for seed in 0..4u64 {
        for y in -8..8 {
            for x in -8..8 {
                assert!(seen.insert(seed_from_coord(seed, &IVec2::new(x, y))));
            }
        }
    }
}

#[test]
fn seed_from_coord_depends_on_the_order_of_the_components() {
    assert_ne!(seed_from_coord(0, &IVec2::new(1, 2)), seed_from_coord(0, &IVec2::new(2, 1)));
}

#[test]
fn seed_from_coord_hashes_seed_then_x_then_y() {
    let mut hasher = DefaultHasher::new();
    hasher.write(&7u64.to_le_bytes());
    hasher.write(&(-3i32).to_le_bytes());
    hasher.write(&9i32.to_le_bytes());
    assert_eq!(seed_from_coord(7, &IVec2::new(-3, 9)), hasher.finish());
}

#[test]
fn word_stream_reads_the_words_of_the_standard_generator() {
    for seed in [0u64, 1, 42, u64::MAX] {
        let mut expected = StdRng::seed_from_u64(seed);
        let mut stream = WordStream::new(seed);
        for _ in 0..200 {
            assert_eq!(stream.next_word(), expected.next_u32());
        }
    }
}

#[test]
fn word_stream_starts_over_for_each_reader() {
    let mut a = WordStream::new(5);
    let first: Vec<u32> = (0..10).map(|_| a.next_word()).collect();
    let mut b = WordStream::new(5);
    let again: Vec<u32> = (0..10).map(|_| b.next_word()).collect();
    assert_eq!(first, again);
    let mut c = WordStream::new(6);
    let other: Vec<u32> = (0..10).map(|_| c.next_word()).collect();
    assert_ne!(first, other);
}

#[test]
fn word_stream_does_not_hand_back_its_seed_or_position() {
    let mut stream = WordStream::new(3);
    let words: Vec<u32> = (0..8).map(|_| stream.next_word()).collect();
    assert!(words.iter().any(|w| *w != 3));
    assert_ne!(words, vec![0, 1, 2, 3, 4, 5, 6, 7]);
    let distinct: HashSet<u32> = words.iter().copied().collect();
    assert!(distinct.len() > 1);
}

#[test]
fn generator_seeds_are_the_first_two_numbers_of_the_stream() {
    let seeds = derive_generator_seeds(0);
    let mut seeder = StdRng::seed_from_u64(0);
    assert_eq!(seeds.tiles, seeder.next_u64());
    assert_eq!(seeds.resources, seeder.next_u64());
    assert_ne!(seeds.tiles, seeds.resources);
}

#[test]
fn fixed_words_are_read_over_and_over() {
    let mut source = FixedWords::new(vec![7, 8, 9]);
    let words: Vec<u32> = (0..8).map(|_| source.next_word()).collect();
    assert_eq!(words, vec![7, 8, 9, 7, 8, 9, 7, 8]);
    let mut empty = FixedWords::new(Vec::new());
    assert_eq!(empty.next_word(), 0);
    assert_eq!(empty.next_word(), 0);
}

#[test]
fn two_words_join_with_the_first_word_low() {
    assert_eq!(join_words(0x1122_3344, 0xaabb_ccdd), 0xaabb_ccdd_1122_3344);
    assert_eq!(join_words(0, 0), 0);
    assert_eq!(join_words(u32::MAX, 0), 0xffff_ffff);
    assert_eq!(join_words(0, u32::MAX), 0xffff_ffff_0000_0000);
}
