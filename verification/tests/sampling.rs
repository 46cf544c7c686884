use lethal_empire::coords::UVec2;
use lethal_empire::hash::{FixedWords, WordSource, WordStream};
use lethal_empire::sampling::{offset_of, scale_word, PoissonDiscSampler};
use rand::rngs::StdRng;
use rand::{RngCore, SeedableRng};

fn dist2(a: &UVec2, b: &UVec2) -> i64 {
    let dx = a.x as i64 - b.x as i64;
    let dy = a.y as i64 - b.y as i64;
    dx * dx + dy * dy
}

fn scaled(word: u32, n: u64) -> u64 {
    ((word as u128 * n as u128) >> 32) as u64
}

/// The run as the library documents it, without a grid: every candidate is
/// held against every point.
fn reference_run(seed: u64, radius: u32, size: UVec2, k: u32) -> Vec<UVec2> {
    let mut rng = StdRng::seed_from_u64(seed);
    reference_run_on(&mut || rng.next_u32(), radius, size, k)
}

fn reference_run_on(next: &mut dyn FnMut() -> u32, radius: u32, size: UVec2, k: u32) -> Vec<UVec2> {
    let first = UVec2::new(
        scaled(next(), size.x as u64) as u32,
        scaled(next(), size.y as u64) as u32,
    );
    let mut samples = vec![first];
    let mut active = vec![first];
    while !active.is_empty() {
        let index = scaled(next(), active.len() as u64) as usize;
        let parent = active[index];
        let mut found = None;
        for _ in 0..k {
            let angle = next();
            let distance = radius as i128 + scaled(next(), radius as u64 + 1) as i128;
            let quadrant = angle >> 30;
            let t = ((angle & 0x3fff_ffff) >> 14) as i128;
            let one = 1i128 << 32;
            let along = distance * (one - t * t) / (one + t * t);
            let across = distance * (2 * t * 65536) / (one + t * t);
            let (dx, dy) = match quadrant {
                0 => (along, across),
                1 => (-across, along),
                2 => (-along, -across),
                _ => (across, -along),
            };
            let x = parent.x as i128 + dx;
            let y = parent.y as i128 + dy;
            if x < 0 || y < 0 || x >= size.x as i128 || y >= size.y as i128 {
                continue;
            }
            let candidate = UVec2::new(x as u32, y as u32);
            let r2 = radius as i64 * radius as i64;
            if samples.iter().all(|s| dist2(s, &candidate) >= r2) {
                found = Some(candidate);
                break;
            }
        }
        match found {
            Some(point) => {
                samples.push(point);
                active.push(point);
            }
            None => {
                active.remove(index);
            }
        }
    }
    samples
}

#[test]
fn test_poission_sampler_seedable() {
    let samples1 = PoissonDiscSampler::new(0)
        .with_radius(1)
        .with_size(UVec2::splat(32))
        .with_k(30)
        .sample();
    let samples2 = PoissonDiscSampler::new(0)
        .with_radius(1)
        .with_size(UVec2::splat(32))
        .with_k(30)
        .sample();
    assert_eq!(samples1, samples2);
}

#[test]
fn default_sampler_has_the_documented_settings() {
    let sampler = PoissonDiscSampler::default();
    assert_eq!(sampler.seed, 0);
    assert_eq!(sampler.radius, 1);
    assert_eq!(sampler.size, UVec2::new(32, 32));
    assert_eq!(sampler.k, 30);
    assert_eq!(PoissonDiscSampler::new(9), PoissonDiscSampler { seed: 9, ..sampler });
}

#[test]
fn builders_change_one_setting_each() {
    let sampler = PoissonDiscSampler::new(3).with_radius(8).with_size(UVec2::new(16, 24)).with_k(5);
    assert_eq!(
        sampler,
        PoissonDiscSampler { seed: 3, radius: 8, size: UVec2::new(16, 24), k: 5 }
    );
}

#[test]
fn samples_keep_the_radius_and_stay_inside() {
    for (seed, radius, w, h) in [(0u64, 5u32, 64u32, 48u32), (1, 8, 16, 16), (2, 12, 16, 16), (7, 3, 100, 10)] {
        let sampler = PoissonDiscSampler::new(seed).with_radius(radius).with_size(UVec2::new(w, h));
        assert!(sampler.can_run());
        let samples = sampler.sample();
        assert!(!samples.is_empty());
        for (i, a) in samples.iter().enumerate() {
            assert!(a.x < w && a.y < h);
            for b in samples.iter().skip(i + 1) {
                assert!(dist2(a, b) >= (radius as i64) * (radius as i64));
            }
        }
    }
}

#[test]
fn samples_fill_the_area() {
    // With thirty candidates around each point no large hole is left: every
    // tenth lattice point has a sample within four radii.
    let radius = 4u32;
    let size = UVec2::new(80, 80);
    let samples = PoissonDiscSampler::new(11).with_radius(radius).with_size(size).sample();
    assert!(samples.len() > 50);
    for y in (0..80).step_by(10) {
        for x in (0..80).step_by(10) {
            let p = UVec2::new(x, y);
            assert!(samples.iter().any(|s| dist2(s, &p) <= 16 * 16));
        }
    }
}

#[test]
fn the_first_sample_comes_from_the_first_two_words() {
    let size = UVec2::new(1000, 10);
    let samples = PoissonDiscSampler::new(5).with_radius(3).with_size(size).sample();
    let mut rng = StdRng::seed_from_u64(5);
    let x = ((rng.next_u32() as u64 * 1000) >> 32) as u32;
    let y = ((rng.next_u32() as u64 * 10) >> 32) as u32;
    assert_eq!(samples[0], UVec2::new(x, y));
}

#[test]
fn run_equals_the_documented_run() {
    for (seed, radius, w, h, k) in [(0u64, 1u32, 32u32, 32u32, 30u32), (1, 8, 16, 16, 30), (9, 5, 40, 25, 7), (3, 2, 9, 1, 4)] {
        let sampler = PoissonDiscSampler { seed, radius, size: UVec2::new(w, h), k };
        assert_eq!(sampler.sample(), reference_run(seed, radius, UVec2::new(w, h), k));
    }
}

#[test]
fn different_seeds_give_different_samples() {
    let a = PoissonDiscSampler::new(1).with_radius(4).with_size(UVec2::splat(64)).sample();
    let b = PoissonDiscSampler::new(2).with_radius(4).with_size(UVec2::splat(64)).sample();
    assert_ne!(a, b);
}

#[test]
fn no_candidates_leave_the_first_sample_alone() {
    let samples = PoissonDiscSampler::new(4).with_radius(2).with_size(UVec2::splat(50)).with_k(0).sample();
    assert_eq!(samples.len(), 1);
}

#[test]
fn a_single_lattice_point_gives_a_single_sample() {
    let samples = PoissonDiscSampler::new(4).with_radius(1).with_size(UVec2::new(1, 1)).sample();
    assert_eq!(samples, vec![UVec2::new(0, 0)]);
}

#[test]
fn a_radius_wider_than_the_area_gives_a_single_sample() {
    let samples = PoissonDiscSampler::new(8).with_radius(100).with_size(UVec2::new(10, 10)).sample();
    assert_eq!(samples.len(), 1);
    assert!(samples[0].x < 10 && samples[0].y < 10);
}

#[test]
fn a_sampler_without_radius_or_area_cannot_run() {
    assert!(!PoissonDiscSampler::new(0).with_radius(0).can_run());
    assert!(!PoissonDiscSampler::new(0).with_size(UVec2::new(0, 5)).can_run());
    assert!(!PoissonDiscSampler::new(0).with_size(UVec2::new(5, 0)).can_run());
    assert!(PoissonDiscSampler::new(0).can_run());
}

#[test]
fn scaling_a_word_reads_it_as_a_fraction() {
    assert_eq!(scale_word(0, 10), 0);
    assert_eq!(scale_word(0x8000_0000, 10), 5);
    assert_eq!(scale_word(u32::MAX, 10), 9);
    assert_eq!(scale_word(0x4000_0000, 1000), 250);
    assert_eq!(scale_word(u32::MAX, 1), 0);
    assert_eq!(scale_word(u32::MAX, u64::MAX), u64::MAX - (1 << 32));
}

#[test]
fn steps_along_the_axes_and_the_diagonals() {
    // The quadrant comes from the two high bits, `t` from the sixteen below.
    assert_eq!(offset_of(0, 100), (100, 0));
    assert_eq!(offset_of(0x4000_0000, 100), (0, 100));
    assert_eq!(offset_of(0x8000_0000, 100), (-100, 0));
    assert_eq!(offset_of(0xc000_0000, 100), (0, -100));
    // The fourteen low bits play no part.
    assert_eq!(offset_of(0x0000_3fff, 100), (100, 0));
    // t = 1/2 gives the direction (3/5, 4/5).
    assert_eq!(offset_of(0x2000_0000, 100), (60, 80));
    assert_eq!(offset_of(0x6000_0000, 100), (-80, 60));
    assert_eq!(offset_of(0xa000_0000, 100), (-60, -80));
    assert_eq!(offset_of(0xe000_0000, 100), (80, -60));
    // t just below 1 gives a direction just short of the next axis.
    assert_eq!(offset_of(0x3fff_c000, 100_000), (1, 99_999));
    assert_eq!(offset_of(0x2000_0000, 0), (0, 0));
    assert_eq!(offset_of(0x2000_0000, 0x2_0000_0000), (5_153_960_755, 6_871_947_673));
}

#[test]
fn a_run_on_chosen_words() {
    // Start at (5, 5); then around the only active point, to the right, at
    // distance 3: (8, 5). Then the words start over: the first word picks
    // the second of two active points, and its candidate, three to the
    // left, is the first point: (8, 5) leaves the active list.
    let words = vec![0x8000_0000, 0x8000_0000, 0, 0, 0];
    let sampler = PoissonDiscSampler::new(99).with_radius(3).with_size(UVec2::new(10, 10)).with_k(1);
    let mut source = FixedWords::new(words.clone());
    let samples = sampler.sample_with(&mut source);
    assert_eq!(samples[0], UVec2::new(5, 5));
    assert_eq!(samples[1], UVec2::new(8, 5));

    let mut at = 0;
    let mut next = || {
        let word = words[at % words.len()];
        at += 1;
        word
    };
    assert_eq!(samples, reference_run_on(&mut next, 3, UVec2::new(10, 10), 1));
    for (i, a) in samples.iter().enumerate() {
        for b in samples.iter().skip(i + 1) {
            assert!(dist2(a, b) >= 9);
        }
    }
}

#[test]
fn words_that_never_find_a_candidate() {
    // Every candidate lies at the parent itself or outside: one point.
    let sampler = PoissonDiscSampler::new(0).with_radius(50).with_size(UVec2::new(10, 10)).with_k(5);
    let mut source = FixedWords::new(vec![0]);
    assert_eq!(sampler.sample_with(&mut source), vec![UVec2::new(0, 0)]);
    let mut nothing = FixedWords::new(Vec::new());
    assert_eq!(sampler.sample_with(&mut nothing), vec![UVec2::new(0, 0)]);
}

#[test]
fn the_seed_plays_no_part_in_a_run_on_given_words() {
    let words = vec![0x1234_5678, 0x9abc_def0, 0x0fed_cba9, 0x8765_4321, 0x5555_5555, 0xaaaa_aaaa, 3];
    let run = |seed: u64| {
        let mut source = FixedWords::new(words.clone());
        PoissonDiscSampler::new(seed).with_radius(2).with_size(UVec2::new(20, 20)).sample_with(&mut source)
    };
    assert_eq!(run(1), run(2));
}

#[test]
fn sample_is_the_run_on_the_stream_of_the_seed() {
    let sampler = PoissonDiscSampler::new(17).with_radius(4).with_size(UVec2::new(40, 30));
    let mut stream = WordStream::new(17);
    assert_eq!(sampler.sample_with(&mut stream), sampler.sample());
    // A source that has moved on gives another run.
    let mut later = WordStream::new(17);
    later.next_word();
    assert_ne!(sampler.sample_with(&mut later), sampler.sample());
}
