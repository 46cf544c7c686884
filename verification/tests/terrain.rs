use lethal_empire::terrain::{
    handle_chunks_tiles, sample_window, ResourceBand, ResourceBands, ResourceGenerator,
    ResourceKind, TerrainGenerator, TileKind, TileThresholds, NOISE_UNIT,
};
use noise::utils::{NoiseMapBuilder, PlaneMapBuilder};
use noise::{Fbm, MultiFractal, Perlin};

fn quantize(value: f64) -> i32 {
    (value * NOISE_UNIT as f64).floor() as i32
}

fn terrain_field(seed: u32, chunk: (i32, i32), size: usize) -> Vec<i32> {
    let fbm = Fbm::<Perlin>::new(seed)
        .set_frequency(1.0)
        .set_persistence(0.5)
        .set_lacunarity(2.0)
        .set_octaves(14);
    let (x_lo, x_hi) = sample_window(chunk.0);
    let (y_lo, y_hi) = sample_window(chunk.1);
    PlaneMapBuilder::<_, 2>::new(fbm)
        .set_size(size, size)
        .set_x_bounds(x_lo as f64 * 0.5, x_hi as f64 * 0.5)
        .set_y_bounds(y_lo as f64 * 0.5, y_hi as f64 * 0.5)
        .build()
        .into_iter()
        .map(quantize)
        .collect()
}

#[test]
fn tile_kind_cut_points() {
    assert_eq!(TileKind::from_noise(-1), TileKind::Water);
    assert_eq!(TileKind::from_noise(i32::MIN), TileKind::Water);
    assert_eq!(TileKind::from_noise(0), TileKind::Grass);
    assert_eq!(TileKind::from_noise(2_999), TileKind::Grass);
    assert_eq!(TileKind::from_noise(3_000), TileKind::Barren);
    assert_eq!(TileKind::from_noise(i32::MAX), TileKind::Barren);
}

#[test]
fn tile_kind_agrees_with_the_comparison_of_the_field_values() {
    for value in [-0.5f64, -0.0001, 0.0, 0.00004, 0.1, 0.29999, 0.3, 0.30001, 0.9] {
        let expected = if value < 0.0 {
            TileKind::Water
        } else if value < 0.3 {
            TileKind::Grass
        } else {
            TileKind::Barren
        };
        assert_eq!(TileKind::from_noise(quantize(value)), expected);
    }
}

#[test]
fn default_values() {
    assert_eq!(TileKind::default(), TileKind::Water);
    assert_eq!(ResourceKind::default(), ResourceKind::Empty);
    assert_eq!(TileThresholds::default(), TileThresholds { water: 0, grass: 3_000 });
    assert_eq!(NOISE_UNIT, 10_000);
    let bands = ResourceBands::default();
    assert_eq!(
        bands.tree,
        ResourceBand { min_noise: 2_500, max_noise: 10_000, discard_threshold: -2_000 }
    );
    assert_eq!(
        bands.rock,
        ResourceBand { min_noise: 625, max_noise: 2_500, discard_threshold: -7_500 }
    );
}

#[test]
fn custom_thresholds_move_the_cut_points() {
    let thresholds = TileThresholds { water: 1_000, grass: 4_000 };
    assert_eq!(thresholds.classify(999), TileKind::Water);
    assert_eq!(thresholds.classify(1_000), TileKind::Grass);
    assert_eq!(thresholds.classify(3_999), TileKind::Grass);
    assert_eq!(thresholds.classify(4_000), TileKind::Barren);
    let generator = TerrainGenerator::new(1).with_thresholds(thresholds);
    assert_eq!(generator.seed(), 1);
    assert_eq!(generator.thresholds(), thresholds);
    assert_eq!(
        generator.generate(&vec![0, 1_000, 5_000]),
        vec![TileKind::Water, TileKind::Grass, TileKind::Barren]
    );
}

#[test]
fn terrain_generator_classifies_sample_by_sample() {
    let generator = TerrainGenerator::new(0);
    let tiles = generator.generate(&vec![-5, 0, 10, 2_999, 3_000, 9_000]);
    assert_eq!(
        tiles,
        vec![
            TileKind::Water,
            TileKind::Grass,
            TileKind::Grass,
            TileKind::Grass,
            TileKind::Barren,
            TileKind::Barren
        ]
    );
    assert!(generator.generate(&Vec::new()).is_empty());
}

#[test]
fn resource_band_edges() {
    let band = ResourceBand { min_noise: 100, max_noise: 200, discard_threshold: -50 };
    assert!(band.eligible(100, -50));
    assert!(band.eligible(199, -51));
    assert!(!band.eligible(99, -60));
    assert!(!band.eligible(200, -60));
    assert!(!band.eligible(150, -49));
}

#[test]
fn resource_generator_prefers_trees_then_rocks() {
    let generator = ResourceGenerator::new(0);
    assert_eq!(generator.seed(), 0);
    let noise = vec![2_500, 2_500, 625, 625, 2_499, 0, 10_000];
    let trees = vec![-2_000, -1_999, -9_000, -9_000, -9_000, -9_000, -9_000];
    let rocks = vec![-9_000, -9_000, -7_500, -7_499, -7_500, -9_000, -9_000];
    assert_eq!(
        generator.generate(&noise, &trees, &rocks),
        vec![
            ResourceKind::Tree,
            ResourceKind::Empty,
            ResourceKind::Rock,
            ResourceKind::Empty,
            ResourceKind::Rock,
            ResourceKind::Empty,
            ResourceKind::Empty
        ]
    );
}

#[test]
fn overlapping_bands_give_the_tree() {
    let band = ResourceBand { min_noise: 0, max_noise: 100, discard_threshold: 0 };
    let bands = ResourceBands { tree: band, rock: band };
    assert_eq!(bands.classify(50, 0, 0), ResourceKind::Tree);
    assert_eq!(bands.classify(50, 1, 0), ResourceKind::Rock);
    assert_eq!(bands.classify(50, 1, 1), ResourceKind::Empty);
    let generator = ResourceGenerator::new(3).with_bands(bands);
    assert_eq!(generator.bands(), bands);
    assert_eq!(generator.generate(&vec![50], &vec![1], &vec![0]), vec![ResourceKind::Rock]);
}

#[test]
fn tile_indices_for_the_texture_atlas() {
    let tiles = vec![TileKind::Barren, TileKind::Water, TileKind::Grass];
    assert_eq!(handle_chunks_tiles(&tiles), vec![2, 0, 1]);
    assert_eq!(TileKind::Grass.index(), 1);
}

#[test]
fn sample_windows_of_neighbours_meet() {
    for chunk in -5..5 {
        let (lower, upper) = sample_window(chunk);
        assert_eq!(upper - lower, 2);
        assert_eq!(sample_window(chunk + 1).0, upper);
    }
    assert_eq!(sample_window(0), (-1, 1));
    assert_eq!(sample_window(i32::MIN), (2 * (i32::MIN as i64) - 1, 2 * (i32::MIN as i64) + 1));
}

#[test]
fn tile_generation_is_deterministic() {
    let generator = TerrainGenerator::new(0);
    for chunk in [(0, 0), (-3, 7), (10, 10)] {
        let first = generator.generate(&terrain_field(0, chunk, 32));
        let second = generator.generate(&terrain_field(0, chunk, 32));
        assert_eq!(first.len(), 32 * 32);
        assert_eq!(first, second);
    }
}

#[test]
fn tile_generation_depends_on_the_chunk() {
    let generator = TerrainGenerator::new(0);
    let here = generator.generate(&terrain_field(0, (0, 0), 32));
    let there = generator.generate(&terrain_field(0, (1, 0), 32));
    assert_ne!(here, there);
}
