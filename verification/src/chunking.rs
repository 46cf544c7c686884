//! The chunk registry: which chunks exist, how far the generation of each has
//! come, what was generated for it, and which chunks are visible.

use vstd::prelude::*;
use vstd::std_specs::hash::spec_hash_keys_iter;
use vstd::std_specs::hash::spec_keys_iter;
use vstd::std_specs::iter::IteratorSpec;
use std::collections::HashMap;
use std::collections::HashSet;
use crate::coords::IVec2;
use crate::coords::UVec2;
use crate::terrain::ResourceKind;
use crate::terrain::TileKind;

verus! {

/// Tiles along each side of a chunk, unless told otherwise.
pub const CHUNK_SIZE: u32 = 32;

/// World units along each side of a tile, unless told otherwise.
pub const CHUNK_TILE_SIZE: u32 = 16;

/// How far the generation of a chunk has come.
#[derive(Clone, Copy, Debug, PartialEq, Eq, Hash, Structural)]
pub enum ChunkState {
    /// The coordinate is known; nothing was generated.
    Spawned,
    /// The tile kinds are being generated.
    TileGenerationPending,
    /// The tile kinds are installed.
    TileGenerated,
    /// The resource kinds are being generated.
    ResourceGenerationPending,
    /// The resource kinds are installed too: the chunk can be shown.
    ResourceGenerated,
}

impl ChunkState {
    /// The place of the state in the order of the states.
    pub open spec fn rank(self) -> nat {
        match self {
            ChunkState::Spawned => 0,
            ChunkState::TileGenerationPending => 1,
            ChunkState::TileGenerated => 2,
            ChunkState::ResourceGenerationPending => 3,
            ChunkState::ResourceGenerated => 4,
        }
    }

    /// Whether the tile kinds of a chunk in this state are installed.
    pub open spec fn has_tiles(self) -> bool {
        self.rank() >= 2
    }

    /// Whether the resource kinds of a chunk in this state are installed.
    pub open spec fn has_resources(self) -> bool {
        self.rank() >= 4
    }
}

/// What is known of one chunk.
pub struct ChunkData {
    pub state: ChunkState,
    /// The tile kinds, row by row; empty until they are installed.
    pub tiles: Seq<TileKind>,
    /// The resource kinds, row by row; empty until they are installed.
    pub resources: Seq<ResourceKind>,
}

impl ChunkData {
    /// A chunk of which the coordinate alone is known.
    pub open spec fn spawned() -> ChunkData {
        ChunkData { state: ChunkState::Spawned, tiles: Seq::empty(), resources: Seq::empty() }
    }

    /// The same chunk in another state.
    pub open spec fn with_state(self, state: ChunkState) -> ChunkData {
        ChunkData { state, tiles: self.tiles, resources: self.resources }
    }

    /// Whether the arrays have the lengths that the state asks for, in a
    /// registry whose chunks have `size` tiles.
    pub open spec fn fits(self, size: UVec2) -> bool {
        &&& self.tiles.len() == if self.state.has_tiles() {
            size.x as int * size.y as int
        } else {
            0
        }
        &&& self.resources.len() == if self.state.has_resources() {
            size.x as int * size.y as int
        } else {
            0
        }
    }
}

/// One chunk of the registry.
pub struct Chunk {
    coord: IVec2,
    state: ChunkState,
    tiles: Vec<TileKind>,
    resources: Vec<ResourceKind>,
}

impl View for Chunk {
    type V = ChunkData;

    closed spec fn view(&self) -> ChunkData {
        ChunkData { state: self.state, tiles: self.tiles@, resources: self.resources@ }
    }
}

impl Chunk {
    /// The coordinate of the chunk.
    pub closed spec fn spec_coord(&self) -> IVec2 {
        self.coord
    }

    /// The coordinate of the chunk.
    #[verifier::when_used_as_spec(spec_coord)]
    pub fn coord(&self) -> (coord: IVec2)
        ensures
            coord == self.spec_coord(),
    {
        self.coord
    }

    /// How far the generation of the chunk has come.
    pub fn state(&self) -> (state: ChunkState)
        ensures
            state == self@.state,
    {
        self.state
    }

    /// The tile kinds of the chunk, row by row, once they are installed.
    /// `None` means that they are not ready yet.
    pub fn tiles(&self) -> (tiles: Option<&Vec<TileKind>>)
        ensures
            tiles.is_some() == self@.state.has_tiles(),
            tiles matches Some(t) ==> t@ == self@.tiles,
    {
        match self.state {
            ChunkState::Spawned => None,
            ChunkState::TileGenerationPending => None,
            _ => Some(&self.tiles),
        }
    }

    /// The resource kinds of the chunk, row by row, once they are installed.
    /// `None` means that they are not ready yet.
    pub fn resources(&self) -> (resources: Option<&Vec<ResourceKind>>)
        ensures
            resources.is_some() == self@.state.has_resources(),
            resources matches Some(r) ==> r@ == self@.resources,
    {
        match self.state {
            ChunkState::ResourceGenerated => Some(&self.resources),
            _ => None,
        }
    }
}

/// The number under which a coordinate is filed.
spec fn key_of(coord: IVec2) -> u64 {
    ((coord.x + 0x8000_0000) * 0x1_0000_0000 + (coord.y + 0x8000_0000)) as u64
}

/// The coordinate that is filed under a number.
spec fn coord_of(key: u64) -> IVec2 {
    IVec2 {
        x: (key / 0x1_0000_0000 - 0x8000_0000) as i32,
        y: (key % 0x1_0000_0000 - 0x8000_0000) as i32,
    }
}

/// Coordinates and the numbers they are filed under answer each other.
proof fn lemma_keys()
    ensures
        forall|coord: IVec2| coord_of(#[trigger] key_of(coord)) == coord,
        forall|key: u64| key_of(#[trigger] coord_of(key)) == key,
{
    assert forall|coord: IVec2| coord_of(#[trigger] key_of(coord)) == coord by {
        let k = key_of(coord);
        assert(k == (coord.x + 0x8000_0000) * 0x1_0000_0000 + (coord.y + 0x8000_0000));
        assert(k / 0x1_0000_0000 == coord.x + 0x8000_0000);
        assert(k % 0x1_0000_0000 == coord.y + 0x8000_0000);
    }
    assert forall|key: u64| key_of(#[trigger] coord_of(key)) == key by {
        let c = coord_of(key);
        assert(c.x == key / 0x1_0000_0000 - 0x8000_0000);
        assert(c.y == key % 0x1_0000_0000 - 0x8000_0000);
    }
}

fn key(coord: &IVec2) -> (k: u64)
    ensures
        k == key_of(*coord),
{
    let x: u64 = (coord.x as i64 + 0x8000_0000) as u64;
    let y: u64 = (coord.y as i64 + 0x8000_0000) as u64;
    x * 0x1_0000_0000 + y
}

fn coord_from_key(k: u64) -> (coord: IVec2)
    ensures
        coord == coord_of(k),
{
    let x: i64 = (k / 0x1_0000_0000) as i64 - 0x8000_0000;
    let y: i64 = (k % 0x1_0000_0000) as i64 - 0x8000_0000;
    IVec2 { x: x as i32, y: y as i32 }
}

/// The coordinates filed in a set, each once.
fn coords_of_set(set: &HashSet<u64>) -> (coords: Vec<IVec2>)
    ensures
        coords@.no_duplicates(),
        forall|c: IVec2| coords@.contains(c) <==> set@.contains(key_of(c)),
{
    let mut coords: Vec<IVec2> = Vec::new();
    proof {
        lemma_keys();
    }
    for k in it: set.iter()
        invariant
            it.seq() == spec_hash_keys_iter(set).remaining(),
            coords@.len() == it.index(),
            forall|i: int| 0 <= i < coords@.len() ==> coords@[i] == coord_of(*it.seq()[i]),
    {
        coords.push(coord_from_key(*k));
    }
    proof {
        let r = spec_hash_keys_iter(set).remaining();
        assert(r.unref().to_set() == set@);
        assert forall|i: int, j: int|
            0 <= i < coords@.len() && 0 <= j < coords@.len() && i != j implies coords@[i]
            != coords@[j] by {
            assert(key_of(coords@[i]) == *r[i]);
            assert(key_of(coords@[j]) == *r[j]);
        }
        assert forall|c: IVec2| coords@.contains(c) <==> set@.contains(key_of(c)) by {
            if coords@.contains(c) {
                let i = choose|i: int| 0 <= i < coords@.len() && coords@[i] == c;
                assert(r.unref()[i] == key_of(c));
                assert(r.unref().to_set().contains(key_of(c)));
            }
            if set@.contains(key_of(c)) {
                assert(r.unref().to_set().contains(key_of(c)));
                let i = choose|i: int| 0 <= i < r.unref().len() && r.unref()[i] == key_of(c);
                assert(coords@[i] == c);
            }
        }
    }
    coords
}

/// The coordinates filed in a map, each once.
fn coords_of_map(map: &HashMap<u64, Chunk>) -> (coords: Vec<IVec2>)
    ensures
        coords@.no_duplicates(),
        forall|c: IVec2| coords@.contains(c) <==> map@.contains_key(key_of(c)),
{
    let mut coords: Vec<IVec2> = Vec::new();
    proof {
        lemma_keys();
    }
    for k in it: map.keys()
        invariant
            it.seq() == spec_keys_iter(map).remaining(),
            coords@.len() == it.index(),
            forall|i: int| 0 <= i < coords@.len() ==> coords@[i] == coord_of(*it.seq()[i]),
    {
        coords.push(coord_from_key(*k));
    }
    proof {
        let r = spec_keys_iter(map).remaining();
        assert(r.unref().to_set() == map@.dom());
        assert forall|i: int, j: int|
            0 <= i < coords@.len() && 0 <= j < coords@.len() && i != j implies coords@[i]
            != coords@[j] by {
            assert(key_of(coords@[i]) == *r[i]);
            assert(key_of(coords@[j]) == *r[j]);
        }
        assert forall|c: IVec2| coords@.contains(c) <==> map@.contains_key(key_of(c)) by {
            if coords@.contains(c) {
                let i = choose|i: int| 0 <= i < coords@.len() && coords@[i] == c;
                assert(r.unref()[i] == key_of(c));
                assert(r.unref().to_set().contains(key_of(c)));
            }
            if map@.contains_key(key_of(c)) {
                assert(r.unref().to_set().contains(key_of(c)));
                let i = choose|i: int| 0 <= i < r.unref().len() && r.unref()[i] == key_of(c);
                assert(coords@[i] == c);
            }
        }
    }
    coords
}


/// Whether the chunks `after` can follow the chunks `before`: no chunk is
/// gone, no chunk is back in an earlier state, and what was installed for
/// a chunk is still installed, unchanged.
pub open spec fn follows(before: Map<IVec2, ChunkData>, after: Map<IVec2, ChunkData>) -> bool {
    forall|c: IVec2| #[trigger]
        before.contains_key(c) ==> {
            &&& after.contains_key(c)
            &&& after[c].state.rank() >= before[c].state.rank()
            &&& before[c].state.has_tiles() ==> after[c].tiles == before[c].tiles
            &&& before[c].state.has_resources() ==> after[c].resources == before[c].resources
        }
}

/// Following is transitive: over any number of steps no chunk is gone, none
/// is back in an earlier state, and what was installed is unchanged.
pub proof fn lemma_follows_transitive(
    first: Map<IVec2, ChunkData>,
    second: Map<IVec2, ChunkData>,
    third: Map<IVec2, ChunkData>,
)
    requires
        follows(first, second),
        follows(second, third),
    ensures
        follows(first, third),
{
    assert forall|c: IVec2| #[trigger] first.contains_key(c) implies {
        &&& third.contains_key(c)
        &&& third[c].state.rank() >= first[c].state.rank()
        &&& first[c].state.has_tiles() ==> third[c].tiles == first[c].tiles
        &&& first[c].state.has_resources() ==> third[c].resources == first[c].resources
    } by {
        assert(second.contains_key(c));
    }
}

/// The registry of chunks, keyed by chunk coordinate.
///
/// A coordinate is entered once and never leaves. Besides the chunks, the
/// registry counts how often the generation of the tiles and of the
/// resources of each coordinate was started.
pub struct ChunkManager {
    size: UVec2,
    tile_size: UVec2,
    chunks: HashMap<u64, Chunk>,
    loaded: HashSet<u64>,
    tile_starts: Ghost<Map<IVec2, nat>>,
    resource_starts: Ghost<Map<IVec2, nat>>,
}

impl ChunkManager {
    /// Tiles along the two sides of a chunk.
    pub closed spec fn spec_size(&self) -> UVec2 {
        self.size
    }

    /// World units along the two sides of a tile.
    pub closed spec fn spec_tile_size(&self) -> UVec2 {
        self.tile_size
    }

    /// The chunks of the registry, by coordinate.
    pub closed spec fn chunks(&self) -> Map<IVec2, ChunkData> {
        Map::new(
            |c: IVec2| self.chunks@.contains_key(key_of(c)),
            |c: IVec2| self.chunks@[key_of(c)]@,
        )
    }

    /// The coordinates of the visible chunks.
    pub closed spec fn visible(&self) -> Set<IVec2> {
        Set::new(|c: IVec2| self.loaded@.contains(key_of(c)))
    }

    /// How often the generation of the tiles of `coord` was started.
    pub closed spec fn tile_dispatches(&self, coord: IVec2) -> nat {
        if self.tile_starts@.contains_key(coord) {
            self.tile_starts@[coord]
        } else {
            0
        }
    }

    /// How often the generation of the resources of `coord` was started.
    pub closed spec fn resource_dispatches(&self, coord: IVec2) -> nat {
        if self.resource_starts@.contains_key(coord) {
            self.resource_starts@[coord]
        } else {
            0
        }
    }

    /// Whether the registry holds a chunk at `coord` whose state has the
    /// rank `rank` at least.
    pub open spec fn reached(&self, coord: IVec2, rank: nat) -> bool {
        self.chunks().contains_key(coord) && self.chunks()[coord].state.rank() >= rank
    }

    /// Whether every chunk is filed under its own coordinate.
    pub closed spec fn filed(&self) -> bool {
        forall|k: u64| #[trigger]
            self.chunks@.contains_key(k) ==> key_of(self.chunks@[k].coord) == k
    }

    /// What holds of every registry:
    /// the arrays of a chunk have the lengths that its state asks for;
    /// a visible chunk exists and is fully generated;
    /// and the generation of the tiles, and of the resources, of a
    /// coordinate was started once if the chunk is in or beyond that step,
    /// and never otherwise.
    pub open spec fn wf(&self) -> bool {
        &&& self.filed()
        &&& forall|c: IVec2| #[trigger]
            self.chunks().contains_key(c) ==> self.chunks()[c].fits(self.spec_size())
        &&& forall|c: IVec2| #[trigger]
            self.visible().contains(c) ==> self.chunks().contains_key(c) && self.chunks()[c].state
                == ChunkState::ResourceGenerated
        &&& forall|c: IVec2| #[trigger]
            self.tile_dispatches(c) == if self.reached(c, 1) {
                1nat
            } else {
                0nat
            }
        &&& forall|c: IVec2| #[trigger]
            self.resource_dispatches(c) == if self.reached(c, 3) {
                1nat
            } else {
                0nat
            }
    }

    /// Whether two registries have counted the same starts of generation.
    pub open spec fn same_counts(&self, other: &ChunkManager) -> bool {
        &&& forall|c: IVec2| self.tile_dispatches(c) == other.tile_dispatches(c)
        &&& forall|c: IVec2| self.resource_dispatches(c) == other.resource_dispatches(c)
    }

    /// Whether two registries are for chunks and tiles of the same sizes.
    pub open spec fn same_sizes(&self, other: &ChunkManager) -> bool {
        &&& self.spec_size() == other.spec_size()
        &&& self.spec_tile_size() == other.spec_tile_size()
    }

    /// Counts that were not touched answer to states that were not lowered.
    proof fn lemma_counts_kept(&self, before: &ChunkManager)
        requires
            before.wf(),
            self.tile_starts@ == before.tile_starts@,
            self.resource_starts@ == before.resource_starts@,
            forall|c: IVec2| #[trigger] self.reached(c, 1) == before.reached(c, 1),
            forall|c: IVec2| #[trigger] self.reached(c, 3) == before.reached(c, 3),
        ensures
            self.same_counts(before),
            forall|c: IVec2| #[trigger]
                self.tile_dispatches(c) == if self.reached(c, 1) {
                    1nat
                } else {
                    0nat
                },
            forall|c: IVec2| #[trigger]
                self.resource_dispatches(c) == if self.reached(c, 3) {
                    1nat
                } else {
                    0nat
                },
    {
        assert forall|c: IVec2| #[trigger]
            self.tile_dispatches(c) == if self.reached(c, 1) {
                1nat
            } else {
                0nat
            } by {
            assert(self.tile_dispatches(c) == before.tile_dispatches(c));
        }
        assert forall|c: IVec2| #[trigger]
            self.resource_dispatches(c) == if self.reached(c, 3) {
                1nat
            } else {
                0nat
            } by {
            assert(self.resource_dispatches(c) == before.resource_dispatches(c));
        }
    }

    /// An empty registry for chunks of `size` tiles of `tile_size` world units.
    pub fn new(size: UVec2, tile_size: UVec2) -> (manager: ChunkManager)
        ensures
            manager.wf(),
            manager.spec_size() == size,
            manager.spec_tile_size() == tile_size,
            manager.chunks() == Map::<IVec2, ChunkData>::empty(),
            manager.visible() == Set::<IVec2>::empty(),
            forall|c: IVec2| manager.tile_dispatches(c) == 0,
            forall|c: IVec2| manager.resource_dispatches(c) == 0,
    {
        let manager = ChunkManager {
            size,
            tile_size,
            chunks: HashMap::new(),
            loaded: HashSet::new(),
            tile_starts: Ghost(Map::empty()),
            resource_starts: Ghost(Map::empty()),
        };
        assert(manager.chunks() =~= Map::<IVec2, ChunkData>::empty());
        assert(manager.visible() =~= Set::<IVec2>::empty());
        manager
    }

    /// Tiles along the two sides of a chunk.
    #[verifier::when_used_as_spec(spec_size)]
    pub fn size(&self) -> (size: UVec2)
        ensures
            size == self.spec_size(),
    {
        self.size
    }

    /// World units along the two sides of a tile.
    #[verifier::when_used_as_spec(spec_tile_size)]
    pub fn tile_size(&self) -> (tile_size: UVec2)
        ensures
            tile_size == self.spec_tile_size(),
    {
        self.tile_size
    }

    /// Whether the registry holds a chunk at `coord`.
    pub fn contains(&self, coord: &IVec2) -> (b: bool)
        ensures
            b == self.chunks().contains_key(*coord),
    {
        let k: u64 = key(coord);
        self.chunks.contains_key(&k)
    }

    /// The chunk at `coord`, if the registry holds one.
    pub fn get(&self, coord: &IVec2) -> (chunk: Option<&Chunk>)
        requires
            self.wf(),
        ensures
            chunk.is_some() == self.chunks().contains_key(*coord),
            chunk matches Some(c) ==> c@ == self.chunks()[*coord] && c.spec_coord() == *coord,
    {
        let k: u64 = key(coord);
        proof {
            lemma_keys();
        }
        self.chunks.get(&k)
    }

    /// How far the generation of the chunk at `coord` has come, if the
    /// registry holds one.
    pub fn state(&self, coord: &IVec2) -> (state: Option<ChunkState>)
        ensures
            state.is_some() == self.chunks().contains_key(*coord),
            state matches Some(s) ==> s == self.chunks()[*coord].state,
    {
        let k: u64 = key(coord);
        match self.chunks.get(&k) {
            Some(chunk) => Some(chunk.state),
            None => None,
        }
    }

    /// Whether the chunk at `coord` is visible.
    pub fn loaded(&self, coord: &IVec2) -> (b: bool)
        ensures
            b == self.visible().contains(*coord),
    {
        let k: u64 = key(coord);
        self.loaded.contains(&k)
    }

    /// Get or create the chunk at `coord`: where the registry holds none, a
    /// chunk is entered that is `Spawned`; where it holds one, nothing
    /// changes. No coordinate is entered twice.
    pub fn insert(&mut self, coord: IVec2)
        requires
            old(self).wf(),
        ensures
            final(self).wf(),
            final(self).same_sizes(old(self)),
            follows(old(self).chunks(), final(self).chunks()),
            final(self).same_counts(old(self)),
            final(self).visible() == old(self).visible(),
            final(self).chunks() == if old(self).chunks().contains_key(coord) {
                old(self).chunks()
            } else {
                old(self).chunks().insert(coord, ChunkData::spawned())
            },
    {
        let k: u64 = key(&coord);
        proof {
            lemma_keys();
        }
        if !self.chunks.contains_key(&k) {
            self.chunks.insert(
                k,
                Chunk {
                    coord,
                    state: ChunkState::Spawned,
                    tiles: Vec::new(),
                    resources: Vec::new(),
                },
            );
            assert(self.chunks() =~= old(self).chunks().insert(coord, ChunkData::spawned()));
            assert(self.visible() =~= old(self).visible());
            proof {
                self.lemma_counts_kept(old(self));
            }
        }
    }

    /// Mark the chunk at `coord` visible. Only a chunk whose resources are
    /// installed can be shown: for any other coordinate nothing changes.
    pub fn load(&mut self, coord: IVec2)
        requires
            old(self).wf(),
        ensures
            final(self).wf(),
            final(self).same_sizes(old(self)),
            follows(old(self).chunks(), final(self).chunks()),
            final(self).same_counts(old(self)),
            final(self).chunks() == old(self).chunks(),
            final(self).visible() == if old(self).chunks().contains_key(coord) && old(
                self,
            ).chunks()[coord].state == ChunkState::ResourceGenerated {
                old(self).visible().insert(coord)
            } else {
                old(self).visible()
            },
    {
        let k: u64 = key(&coord);
        proof {
            lemma_keys();
        }
        let ready = match self.chunks.get(&k) {
            Some(chunk) => chunk.state == ChunkState::ResourceGenerated,
            None => false,
        };
        if ready {
            self.loaded.insert(k);
            assert(self.visible() =~= old(self).visible().insert(coord));
            assert(self.chunks() =~= old(self).chunks());
            proof {
                self.lemma_counts_kept(old(self));
            }
        }
    }

    /// Mark the chunk at `coord` hidden. The chunk stays in the registry.
    pub fn unload(&mut self, coord: IVec2)
        requires
            old(self).wf(),
        ensures
            final(self).wf(),
            final(self).same_sizes(old(self)),
            follows(old(self).chunks(), final(self).chunks()),
            final(self).same_counts(old(self)),
            final(self).chunks() == old(self).chunks(),
            final(self).visible() == old(self).visible().remove(coord),
    {
        let k: u64 = key(&coord);
        proof {
            lemma_keys();
        }
        self.loaded.remove(&k);
        assert(self.visible() =~= old(self).visible().remove(coord));
        assert(self.chunks() =~= old(self).chunks());
        proof {
            self.lemma_counts_kept(old(self));
        }
    }

    /// The visible chunks that lie farther than `radius` from `coord`, each
    /// once. The order is the one in which the registry hands them out.
    pub fn out_range(&self, coord: &IVec2, radius: i32) -> (coords: Vec<IVec2>)
        ensures
            coords@.no_duplicates(),
            forall|c: IVec2|
                coords@.contains(c) <==> self.visible().contains(c) && coord.chebyshev(c) > radius,
    {
        let all = coords_of_set(&self.loaded);
        let mut coords: Vec<IVec2> = Vec::new();
        let ghost mut from: Seq<int> = Seq::empty();
        let mut i: usize = 0;
        while i < all.len()
            invariant
                0 <= i <= all@.len(),
                all@.no_duplicates(),
                from.len() == coords@.len(),
                forall|a: int|
                    0 <= a < coords@.len() ==> 0 <= #[trigger] from[a] < i && coords@[a] == all@[from[a]]
                        && coord.chebyshev(coords@[a]) > radius,
                forall|j: int|
                    0 <= j < i && coord.chebyshev(#[trigger] all@[j]) > radius ==> coords@.contains(
                        all@[j],
                    ),
                coords@.no_duplicates(),
            decreases all@.len() - i,
        {
            let c = all[i];
            if !coord.within(&c, radius) {
                let ghost before = coords@;
                coords.push(c);
                proof {
                    assert forall|a: int, b: int|
                        0 <= a < coords@.len() && 0 <= b < coords@.len() && a != b implies coords@[a]
                        != coords@[b] by {
                        if a < before.len() {
                            assert(before[a] == all@[from[a]]);
                        }
                        if b < before.len() {
                            assert(before[b] == all@[from[b]]);
                        }
                    }
                    from = from.push(i as int);
                    assert forall|j: int|
                        0 <= j < i + 1 && coord.chebyshev(#[trigger] all@[j])
                            > radius implies coords@.contains(all@[j]) by {
                        if j < i {
                            let w = choose|w: int| 0 <= w < before.len() && before[w] == all@[j];
                            assert(coords@[w] == all@[j]);
                        } else {
                            assert(coords@[before.len() as int] == all@[j]);
                        }
                    }
                }
            }
            i = i + 1;
        }
        proof {
            assert forall|c: IVec2|
                coords@.contains(c) <==> self.visible().contains(c) && coord.chebyshev(c)
                    > radius by {
                if coords@.contains(c) {
                    let a = choose|a: int| 0 <= a < coords@.len() && coords@[a] == c;
                    assert(all@[from[a]] == c);
                    assert(all@.contains(c));
                }
                if self.visible().contains(c) && coord.chebyshev(c) > radius {
                    assert(all@.contains(c));
                    let j = choose|j: int| 0 <= j < all@.len() && all@[j] == c;
                    assert(coords@.contains(all@[j]));
                }
            }
        }
        coords
    }

    /// Move the chunk at `coord` to `state`, and replace its arrays where
    /// new ones are given.
    fn advance(
        &mut self,
        coord: IVec2,
        state: ChunkState,
        tiles: Option<Vec<TileKind>>,
        resources: Option<Vec<ResourceKind>>,
    )
        requires
            old(self).filed(),
            old(self).chunks().contains_key(coord),
        ensures
            final(self).filed(),
            final(self).same_sizes(old(self)),
            final(self).visible() == old(self).visible(),
            final(self).tile_starts@ == old(self).tile_starts@,
            final(self).resource_starts@ == old(self).resource_starts@,
            final(self).chunks() == old(self).chunks().insert(
                coord,
                ChunkData {
                    state,
                    tiles: match tiles {
                        Some(t) => t@,
                        None => old(self).chunks()[coord].tiles,
                    },
                    resources: match resources {
                        Some(r) => r@,
                        None => old(self).chunks()[coord].resources,
                    },
                },
            ),
    {
        let k: u64 = key(&coord);
        proof {
            lemma_keys();
        }
        let found = self.chunks.remove(&k);
        let mut chunk = found.unwrap();
        chunk.state = state;
        match tiles {
            Some(t) => {
                chunk.tiles = t;
            },
            None => {},
        }
        match resources {
            Some(r) => {
                chunk.resources = r;
            },
            None => {},
        }
        let ghost data = chunk@;
        self.chunks.insert(k, chunk);
        assert(self.chunks() =~= old(self).chunks().insert(coord, data));
        assert(self.visible() =~= old(self).visible());
    }

    /// Start the generation of the tiles of the chunk at `coord`, which
    /// waits for it: the chunk goes from `Spawned` to `TileGenerationPending`,
    /// and the start is counted.
    pub fn start_tile_generation(&mut self, coord: IVec2)
        requires
            old(self).wf(),
            old(self).in_state(coord, ChunkState::Spawned),
        ensures
            final(self).wf(),
            final(self).same_sizes(old(self)),
            follows(old(self).chunks(), final(self).chunks()),
            final(self).visible() == old(self).visible(),
            final(self).chunks() == old(self).chunks().insert(
                coord,
                old(self).chunks()[coord].with_state(ChunkState::TileGenerationPending),
            ),
            forall|c: IVec2|
                final(self).tile_dispatches(c) == old(self).tile_dispatches(c) + if c == coord {
                    1nat
                } else {
                    0nat
                },
            forall|c: IVec2| final(self).resource_dispatches(c) == old(self).resource_dispatches(c),
    {
        self.advance(coord, ChunkState::TileGenerationPending, None, None);
        proof {
            assert(old(self).tile_dispatches(coord) == 0) by {
                assert(!old(self).reached(coord, 1));
            }
            self.tile_starts@ = self.tile_starts@.insert(coord, 1nat);
            assert forall|c: IVec2| #[trigger]
                self.tile_dispatches(c) == if self.reached(c, 1) {
                    1nat
                } else {
                    0nat
                } by {
                if c != coord {
                    assert(self.tile_dispatches(c) == old(self).tile_dispatches(c));
                    assert(self.reached(c, 1) == old(self).reached(c, 1));
                }
            }
            assert forall|c: IVec2| #[trigger]
                self.resource_dispatches(c) == if self.reached(c, 3) {
                    1nat
                } else {
                    0nat
                } by {
                assert(self.resource_dispatches(c) == old(self).resource_dispatches(c));
                assert(self.reached(c, 3) == old(self).reached(c, 3));
            }
        }
    }

    /// Install the tile kinds of the chunk at `coord`, whose generation was
    /// started: the chunk goes from `TileGenerationPending` to
    /// `TileGenerated`.
    pub fn install_tiles(&mut self, coord: IVec2, tiles: Vec<TileKind>)
        requires
            old(self).wf(),
            old(self).in_state(coord, ChunkState::TileGenerationPending),
            tiles@.len() == old(self).spec_size().x as int * old(self).spec_size().y as int,
        ensures
            final(self).wf(),
            final(self).same_sizes(old(self)),
            follows(old(self).chunks(), final(self).chunks()),
            final(self).same_counts(old(self)),
            final(self).visible() == old(self).visible(),
            final(self).chunks() == old(self).chunks().insert(
                coord,
                ChunkData {
                    state: ChunkState::TileGenerated,
                    tiles: tiles@,
                    resources: Seq::empty(),
                },
            ),
    {
        let ghost given = tiles@;
        self.advance(coord, ChunkState::TileGenerated, Some(tiles), None);
        proof {
            assert(old(self).chunks()[coord].fits(old(self).spec_size()));
            assert(old(self).chunks()[coord].resources =~= Seq::<ResourceKind>::empty());
            assert forall|c: IVec2| #[trigger] self.reached(c, 1) == old(self).reached(c, 1) by {}
            assert forall|c: IVec2| #[trigger] self.reached(c, 3) == old(self).reached(c, 3) by {}
            self.lemma_counts_kept(old(self));
        }
    }

    /// Start the generation of the resources of the chunk at `coord`, whose
    /// tiles are installed: the chunk goes from `TileGenerated` to
    /// `ResourceGenerationPending`, and the start is counted.
    pub fn start_resource_generation(&mut self, coord: IVec2)
        requires
            old(self).wf(),
            old(self).in_state(coord, ChunkState::TileGenerated),
        ensures
            final(self).wf(),
            final(self).same_sizes(old(self)),
            follows(old(self).chunks(), final(self).chunks()),
            final(self).visible() == old(self).visible(),
            final(self).chunks() == old(self).chunks().insert(
                coord,
                old(self).chunks()[coord].with_state(ChunkState::ResourceGenerationPending),
            ),
            forall|c: IVec2| final(self).tile_dispatches(c) == old(self).tile_dispatches(c),
            forall|c: IVec2|
                final(self).resource_dispatches(c) == old(self).resource_dispatches(c) + if c
                    == coord {
                    1nat
                } else {
                    0nat
                },
    {
        self.advance(coord, ChunkState::ResourceGenerationPending, None, None);
        proof {
            assert(old(self).resource_dispatches(coord) == 0) by {
                assert(!old(self).reached(coord, 3));
            }
            self.resource_starts@ = self.resource_starts@.insert(coord, 1nat);
            assert forall|c: IVec2| #[trigger]
                self.tile_dispatches(c) == if self.reached(c, 1) {
                    1nat
                } else {
                    0nat
                } by {
                assert(self.tile_dispatches(c) == old(self).tile_dispatches(c));
                assert(self.reached(c, 1) == old(self).reached(c, 1));
            }
            assert forall|c: IVec2| #[trigger]
                self.resource_dispatches(c) == if self.reached(c, 3) {
                    1nat
                } else {
                    0nat
                } by {
                if c != coord {
                    assert(self.resource_dispatches(c) == old(self).resource_dispatches(c));
                    assert(self.reached(c, 3) == old(self).reached(c, 3));
                }
            }
        }
    }

    /// Install the resource kinds of the chunk at `coord`, whose generation
    /// was started: the chunk goes from `ResourceGenerationPending` to
    /// `ResourceGenerated`, and can be shown from then on. The tile kinds
    /// stay as they were installed.
    pub fn install_resources(&mut self, coord: IVec2, resources: Vec<ResourceKind>)
        requires
            old(self).wf(),
            old(self).in_state(coord, ChunkState::ResourceGenerationPending),
            resources@.len() == old(self).spec_size().x as int * old(self).spec_size().y as int,
        ensures
            final(self).wf(),
            final(self).same_sizes(old(self)),
            follows(old(self).chunks(), final(self).chunks()),
            final(self).same_counts(old(self)),
            final(self).visible() == old(self).visible(),
            final(self).chunks() == old(self).chunks().insert(
                coord,
                ChunkData {
                    state: ChunkState::ResourceGenerated,
                    tiles: old(self).chunks()[coord].tiles,
                    resources: resources@,
                },
            ),
    {
        self.advance(coord, ChunkState::ResourceGenerated, None, Some(resources));
        proof {
            assert(old(self).chunks()[coord].fits(old(self).spec_size()));
            assert forall|c: IVec2| #[trigger] self.reached(c, 1) == old(self).reached(c, 1) by {}
            assert forall|c: IVec2| #[trigger] self.reached(c, 3) == old(self).reached(c, 3) by {}
            self.lemma_counts_kept(old(self));
        }
    }

    /// Whether the registry holds a chunk at `coord` that is in `state`.
    pub open spec fn in_state(&self, coord: IVec2, state: ChunkState) -> bool {
        self.chunks().contains_key(coord) && self.chunks()[coord].state == state
    }

    /// The coordinates of the chunks that are in `state`, each once. The
    /// order is the one in which the registry hands them out.
    pub fn coords_in_state(&self, state: ChunkState) -> (coords: Vec<IVec2>)
        ensures
            coords@.no_duplicates(),
            forall|c: IVec2| coords@.contains(c) <==> self.in_state(c, state),
    {
        let all = coords_of_map(&self.chunks);
        let mut coords: Vec<IVec2> = Vec::new();
        let ghost mut from: Seq<int> = Seq::empty();
        let mut i: usize = 0;
        while i < all.len()
            invariant
                0 <= i <= all@.len(),
                all@.no_duplicates(),
                forall|c: IVec2| all@.contains(c) <==> self.chunks@.contains_key(key_of(c)),
                from.len() == coords@.len(),
                forall|a: int|
                    0 <= a < coords@.len() ==> 0 <= #[trigger] from[a] < i && coords@[a] == all@[from[a]]
                        && self.in_state(coords@[a], state),
                forall|j: int|
                    0 <= j < i && self.in_state(#[trigger] all@[j], state) ==> coords@.contains(
                        all@[j],
                    ),
                coords@.no_duplicates(),
            decreases all@.len() - i,
        {
            let c = all[i];
            assert(all@.contains(c));
            let k: u64 = key(&c);
            let here = match self.chunks.get(&k) {
                Some(chunk) => chunk.state == state,
                None => false,
            };
            assert(here == self.in_state(c, state));
            if here {
                let ghost before = coords@;
                let ghost from_before = from;
                coords.push(c);
                proof {
                    from = from.push(i as int);
                    assert forall|a: int, b: int|
                        0 <= a < coords@.len() && 0 <= b < coords@.len() && a != b implies coords@[a]
                        != coords@[b] by {
                        if a < before.len() {
                            assert(before[a] == all@[from_before[a]]);
                        }
                        if b < before.len() {
                            assert(before[b] == all@[from_before[b]]);
                        }
                    }
                    assert forall|a: int| 0 <= a < coords@.len() implies 0 <= #[trigger] from[a] < i
                        + 1 && coords@[a] == all@[from[a]] && self.in_state(coords@[a], state) by {
                        if a < before.len() {
                            assert(from[a] == from_before[a]);
                            assert(coords@[a] == before[a]);
                        }
                    }
                    assert forall|j: int|
                        0 <= j < i + 1 && self.in_state(
                            #[trigger] all@[j],
                            state,
                        ) implies coords@.contains(all@[j]) by {
                        if j < i {
                            let w = choose|w: int| 0 <= w < before.len() && before[w] == all@[j];
                            assert(coords@[w] == all@[j]);
                        } else {
                            assert(coords@[before.len() as int] == all@[j]);
                        }
                    }
                }
            }
            i = i + 1;
        }
        proof {
            assert forall|c: IVec2| coords@.contains(c) <==> self.in_state(c, state) by {
                if coords@.contains(c) {
                    let a = choose|a: int| 0 <= a < coords@.len() && coords@[a] == c;
                    assert(all@[from[a]] == c);
                }
                if self.in_state(c, state) {
                    assert(all@.contains(c));
                    let j = choose|j: int| 0 <= j < all@.len() && all@[j] == c;
                    assert(coords@.contains(all@[j]));
                }
            }
        }
        coords
    }
}

impl Default for ChunkManager {
    /// An empty registry for chunks of 32 by 32 tiles of 16 by 16 world units.
    fn default() -> (manager: ChunkManager)
        ensures
            manager.wf(),
            manager.spec_size() == (UVec2 { x: 32, y: 32 }),
            manager.spec_tile_size() == (UVec2 { x: 16, y: 16 }),
            manager.chunks() == Map::<IVec2, ChunkData>::empty(),
            manager.visible() == Set::<IVec2>::empty(),
            forall|c: IVec2| manager.tile_dispatches(c) == 0,
            forall|c: IVec2| manager.resource_dispatches(c) == 0,
    {
        ChunkManager::new(UVec2::splat(CHUNK_SIZE), UVec2::splat(CHUNK_TILE_SIZE))
    }
}

} // verus!
