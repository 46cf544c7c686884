//! Classification of noise fields into tile kinds and resource kinds.
//!
//! A noise sample is a fixed-point number: `NOISE_UNIT` stands for 1.0, and a
//! sample is the field's value times `NOISE_UNIT`, rounded toward negative
//! infinity. A threshold is a number of the same unit, so that comparing a
//! sample with a threshold is exact.

use vstd::prelude::*;

verus! {

/// The fixed-point value of 1.0 in a noise sample.
pub const NOISE_UNIT: i32 = 10_000;

/// What a tile is made of.
#[derive(Clone, Copy, Debug, PartialEq, Eq, Hash, Structural)]
pub enum TileKind {
    Water,
    Grass,
    Barren,
}

/// What a tile bears. It takes effect together with the tile's kind only: a
/// water tile bears nothing, whatever is recorded for it.
#[derive(Clone, Copy, Debug, PartialEq, Eq, Hash, Structural)]
pub enum ResourceKind {
    /// The tile bears nothing.
    Empty,
    Tree,
    Rock,
}

/// The cut points between the tile kinds, on the terrain field.
#[derive(Clone, Copy, Debug, PartialEq, Eq, Structural)]
pub struct TileThresholds {
    /// Samples below this are water.
    pub water: i32,
    /// Samples below this, and not water, are grass. The rest is barren.
    pub grass: i32,
}

/// Where one resource kind may stand.
#[derive(Clone, Copy, Debug, PartialEq, Eq, Structural)]
pub struct ResourceBand {
    /// Lowest terrain sample on which the resource may stand.
    pub min_noise: i32,
    /// The terrain sample from which on the resource no longer stands.
    pub max_noise: i32,
    /// The resource stands only where its density sample is at most this.
    pub discard_threshold: i32,
}

impl TileThresholds {
    /// The kind of a tile whose terrain sample is `noise`.
    pub open spec fn kind_of(self, noise: i32) -> TileKind {
        if noise < self.water {
            TileKind::Water
        } else if noise < self.grass {
            TileKind::Grass
        } else {
            TileKind::Barren
        }
    }

    /// The kind of a tile whose terrain sample is `noise`.
    pub fn classify(&self, noise: i32) -> (kind: TileKind)
        ensures
            kind == self.kind_of(noise),
    {
        if noise < self.water {
            TileKind::Water
        } else if noise < self.grass {
            TileKind::Grass
        } else {
            TileKind::Barren
        }
    }
}

impl Default for TileThresholds {
    /// Water below 0.0, grass below 0.3.
    fn default() -> (thresholds: TileThresholds)
        ensures
            thresholds.water == 0,
            thresholds.grass == 3_000,
    {
        TileThresholds { water: 0, grass: 3 * (NOISE_UNIT / 10) }
    }
}

impl TileKind {
    /// The kind of a tile under the default cut points: water below 0.0,
    /// grass below 0.3, barren from there on.
    pub fn from_noise(noise: i32) -> (kind: TileKind)
        ensures
            kind == (TileThresholds { water: 0, grass: 3_000 }).kind_of(noise),
    {
        TileThresholds::default().classify(noise)
    }

    /// The number by which the kind is known to a texture atlas.
    pub fn index(&self) -> (i: u32)
        ensures
            i == match *self {
                TileKind::Water => 0u32,
                TileKind::Grass => 1u32,
                TileKind::Barren => 2u32,
            },
    {
        match self {
            TileKind::Water => 0,
            TileKind::Grass => 1,
            TileKind::Barren => 2,
        }
    }
}

impl Default for TileKind {
    fn default() -> (kind: TileKind)
        ensures
            kind == TileKind::Water,
    {
        TileKind::Water
    }
}

impl Default for ResourceKind {
    fn default() -> (kind: ResourceKind)
        ensures
            kind == ResourceKind::Empty,
    {
        ResourceKind::Empty
    }
}

impl ResourceBand {
    /// Whether the resource stands on a tile whose terrain sample is `noise`
    /// and whose density sample, for this resource, is `density`.
    pub open spec fn admits(self, noise: i32, density: i32) -> bool {
        self.min_noise <= noise && noise < self.max_noise && density <= self.discard_threshold
    }

    /// Whether the resource stands on a tile whose terrain sample is `noise`
    /// and whose density sample, for this resource, is `density`.
    pub fn eligible(&self, noise: i32, density: i32) -> (b: bool)
        ensures
            b == self.admits(noise, density),
    {
        self.min_noise <= noise && noise < self.max_noise && density <= self.discard_threshold
    }
}

/// The tile kinds of a terrain field, sample by sample.
pub open spec fn tiles_of(thresholds: TileThresholds, noise: Seq<i32>) -> Seq<TileKind> {
    Seq::new(noise.len(), |i: int| thresholds.kind_of(noise[i]))
}

/// The tiles of a chunk depend on its terrain field and on the cut points
/// alone: two generations from the same field with the same cut points give
/// the same tiles, tile by tile.
pub proof fn lemma_tiles_deterministic(first: TerrainGenerator, second: TerrainGenerator, noise: Seq<i32>)
    requires
        first.spec_thresholds() == second.spec_thresholds(),
    ensures
        tiles_of(first.spec_thresholds(), noise) == tiles_of(second.spec_thresholds(), noise),
        tiles_of(first.spec_thresholds(), noise).len() == noise.len(),
{
}

/// Classifies the terrain field of a chunk into its tile kinds.
#[derive(Clone, Copy, Debug)]
pub struct TerrainGenerator {
    seed: u64,
    thresholds: TileThresholds,
}

impl TerrainGenerator {
    /// The seed that the generator was made with.
    pub closed spec fn spec_seed(&self) -> u64 {
        self.seed
    }

    /// The cut points that the generator classifies by.
    pub closed spec fn spec_thresholds(&self) -> TileThresholds {
        self.thresholds
    }

    /// A generator with the default cut points.
    pub fn new(seed: u64) -> (generator: TerrainGenerator)
        ensures
            generator.spec_seed() == seed,
            generator.spec_thresholds() == (TileThresholds { water: 0, grass: 3_000 }),
    {
        TerrainGenerator { seed, thresholds: TileThresholds::default() }
    }

    /// The same generator with other cut points.
    pub fn with_thresholds(self, thresholds: TileThresholds) -> (generator: TerrainGenerator)
        ensures
            generator.spec_seed() == self.spec_seed(),
            generator.spec_thresholds() == thresholds,
    {
        TerrainGenerator { seed: self.seed, thresholds }
    }

    /// The seed that the generator was made with.
    #[verifier::when_used_as_spec(spec_seed)]
    pub fn seed(&self) -> (seed: u64)
        ensures
            seed == self.spec_seed(),
    {
        self.seed
    }

    /// The cut points that the generator classifies by.
    #[verifier::when_used_as_spec(spec_thresholds)]
    pub fn thresholds(&self) -> (thresholds: TileThresholds)
        ensures
            thresholds == self.spec_thresholds(),
    {
        self.thresholds
    }

    /// The tile kinds of a chunk, from the samples of its terrain field, in
    /// the order of the samples.
    pub fn generate(&self, noise: &Vec<i32>) -> (tiles: Vec<TileKind>)
        ensures
            tiles@ == tiles_of(self.spec_thresholds(), noise@),
    {
        let mut tiles: Vec<TileKind> = Vec::new();
        let mut i: usize = 0;
        while i < noise.len()
            invariant
                i <= noise.len(),
                tiles@.len() == i,
                forall|j: int|
                    0 <= j < i ==> tiles@[j] == self.spec_thresholds().kind_of(#[trigger] noise@[j]),
            decreases noise.len() - i,
        {
            tiles.push(self.thresholds.classify(noise[i]));
            i = i + 1;
        }
        tiles
    }
}

/// The bands of the two resource kinds.
#[derive(Clone, Copy, Debug, PartialEq, Eq, Structural)]
pub struct ResourceBands {
    pub tree: ResourceBand,
    pub rock: ResourceBand,
}

impl ResourceBands {
    /// What a tile bears: a tree where the tree band admits it, else a rock
    /// where the rock band admits it, else nothing.
    pub open spec fn kind_of(self, noise: i32, tree_density: i32, rock_density: i32) -> ResourceKind {
        if self.tree.admits(noise, tree_density) {
            ResourceKind::Tree
        } else if self.rock.admits(noise, rock_density) {
            ResourceKind::Rock
        } else {
            ResourceKind::Empty
        }
    }

    /// What a tile bears.
    pub fn classify(&self, noise: i32, tree_density: i32, rock_density: i32) -> (kind: ResourceKind)
        ensures
            kind == self.kind_of(noise, tree_density, rock_density),
    {
        if self.tree.eligible(noise, tree_density) {
            ResourceKind::Tree
        } else if self.rock.eligible(noise, rock_density) {
            ResourceKind::Rock
        } else {
            ResourceKind::Empty
        }
    }
}

/// The default bands: trees on terrain from 0.25 up to 1.0 where their
/// density is at most -0.2, rocks on terrain from 0.0625 up to 0.25 where
/// their density is at most -0.75.
pub open spec fn default_bands() -> ResourceBands {
    ResourceBands {
        tree: ResourceBand { min_noise: 2_500, max_noise: 10_000, discard_threshold: (-2_000i32) },
        rock: ResourceBand { min_noise: 625, max_noise: 2_500, discard_threshold: (-7_500i32) },
    }
}

impl Default for ResourceBands {
    fn default() -> (bands: ResourceBands)
        ensures
            bands == default_bands(),
    {
        ResourceBands {
            tree: ResourceBand {
                min_noise: NOISE_UNIT / 4,
                max_noise: NOISE_UNIT,
                discard_threshold: -(NOISE_UNIT / 5),
            },
            rock: ResourceBand {
                min_noise: NOISE_UNIT / 16,
                max_noise: NOISE_UNIT / 4,
                discard_threshold: -(3 * (NOISE_UNIT / 4)),
            },
        }
    }
}

/// The resource kinds of a chunk, sample by sample. The three fields have
/// one length.
pub open spec fn resources_of(
    bands: ResourceBands,
    noise: Seq<i32>,
    tree_density: Seq<i32>,
    rock_density: Seq<i32>,
) -> Seq<ResourceKind> {
    Seq::new(noise.len(), |i: int| bands.kind_of(noise[i], tree_density[i], rock_density[i]))
}

/// Classifies the terrain field and the density fields of a chunk into its
/// resource kinds.
#[derive(Clone, Copy, Debug)]
pub struct ResourceGenerator {
    seed: u64,
    bands: ResourceBands,
}

impl ResourceGenerator {
    /// The seed that the generator was made with.
    pub closed spec fn spec_seed(&self) -> u64 {
        self.seed
    }

    /// The bands that the generator classifies by.
    pub closed spec fn spec_bands(&self) -> ResourceBands {
        self.bands
    }

    /// A generator with the default bands.
    pub fn new(seed: u64) -> (generator: ResourceGenerator)
        ensures
            generator.spec_seed() == seed,
            generator.spec_bands() == default_bands(),
    {
        ResourceGenerator { seed, bands: ResourceBands::default() }
    }

    /// The same generator with other bands.
    pub fn with_bands(self, bands: ResourceBands) -> (generator: ResourceGenerator)
        ensures
            generator.spec_seed() == self.spec_seed(),
            generator.spec_bands() == bands,
    {
        ResourceGenerator { seed: self.seed, bands }
    }

    /// The seed that the generator was made with.
    #[verifier::when_used_as_spec(spec_seed)]
    pub fn seed(&self) -> (seed: u64)
        ensures
            seed == self.spec_seed(),
    {
        self.seed
    }

    /// The bands that the generator classifies by.
    #[verifier::when_used_as_spec(spec_bands)]
    pub fn bands(&self) -> (bands: ResourceBands)
        ensures
            bands == self.spec_bands(),
    {
        self.bands
    }

    /// The resource kinds of a chunk, from the samples of its terrain field
    /// and of the density field of each resource kind, in the order of the
    /// samples.
    pub fn generate(&self, noise: &Vec<i32>, tree_density: &Vec<i32>, rock_density: &Vec<i32>) -> (resources:
        Vec<ResourceKind>)
        requires
            tree_density@.len() == noise@.len(),
            rock_density@.len() == noise@.len(),
        ensures
            resources@ == resources_of(
                self.spec_bands(),
                noise@,
                tree_density@,
                rock_density@,
            ),
    {
        let mut resources: Vec<ResourceKind> = Vec::new();
        let mut i: usize = 0;
        while i < noise.len()
            invariant
                i <= noise.len(),
                tree_density@.len() == noise@.len(),
                rock_density@.len() == noise@.len(),
                resources@.len() == i,
                forall|j: int|
                    0 <= j < i ==> #[trigger] resources@[j] == self.spec_bands().kind_of(
                        noise@[j],
                        tree_density@[j],
                        rock_density@[j],
                    ),
            decreases noise.len() - i,
        {
            resources.push(self.bands.classify(noise[i], tree_density[i], rock_density[i]));
            i = i + 1;
        }
        resources
    }
}

/// The window of the noise plane that a chunk samples along one axis, in
/// half intervals: from `lower` up to, not including, `upper`.
pub open spec fn window_lower(chunk: int) -> int {
    2 * chunk - 1
}

/// The end of the window of a chunk along one axis, in half intervals.
pub open spec fn window_upper(chunk: int) -> int {
    2 * chunk + 1
}

/// The window of the noise plane that a chunk samples along one axis, as its
/// two ends in half intervals: one interval wide and centred on the chunk, so
/// that the windows of neighbouring chunks meet without a gap or an overlap.
pub fn sample_window(chunk: i32) -> (bounds: (i64, i64))
    ensures
        bounds.0 == window_lower(chunk as int),
        bounds.1 == window_upper(chunk as int),
        window_upper(chunk as int) == window_lower(chunk + 1),
        bounds.1 - bounds.0 == 2,
{
    (2 * (chunk as i64) - 1, 2 * (chunk as i64) + 1)
}

/// The numbers by which the tile kinds of a chunk are known to a texture
/// atlas, tile after tile.
pub fn handle_chunks_tiles(tiles: &Vec<TileKind>) -> (indices: Vec<u32>)
    ensures
        indices@.len() == tiles@.len(),
        forall|i: int|
            0 <= i < tiles@.len() ==> indices@[i] == match #[trigger] tiles@[i] {
                TileKind::Water => 0u32,
                TileKind::Grass => 1u32,
                TileKind::Barren => 2u32,
            },
{
    let mut indices: Vec<u32> = Vec::new();
    let mut i: usize = 0;
    while i < tiles.len()
        invariant
            i <= tiles@.len(),
            indices@.len() == i,
            forall|j: int|
                0 <= j < i ==> indices@[j] == match #[trigger] tiles@[j] {
                    TileKind::Water => 0u32,
                    TileKind::Grass => 1u32,
                    TileKind::Barren => 2u32,
                },
        decreases tiles@.len() - i,
    {
        indices.push(tiles[i].index());
        i = i + 1;
    }
    indices
}

} // verus!
