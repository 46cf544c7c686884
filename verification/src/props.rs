//! Where the props of a chunk stand: the trees and rocks that its tiles bear.
//!
//! Nothing of this is stored. The props of a tile follow from the world
//! seed, the chunk coordinate and the tile coordinate alone, so that
//! whoever shows a chunk finds them again exactly.

use vstd::prelude::*;
use vstd::arithmetic::div_mod::lemma_fundamental_div_mod;
use vstd::arithmetic::div_mod::lemma_mod_bound;
use crate::coords::IVec2;
use crate::coords::UVec2;
use crate::geometry::extent;
use crate::geometry::fits_i32;
use crate::geometry::has_global_coord;
use crate::geometry::index_to_tile_coord;
use crate::geometry::tile_coord_to_global_coord;
use crate::geometry::tile_coord_to_world_off;
use crate::geometry::tile_to_global;
use crate::geometry::tile_to_world_off;
use crate::hash::chacha12_word;
use crate::hash::coord_seed;
use crate::hash::seed_from_coord;
use crate::hash::WordSource;
use crate::hash::WordStream;
use crate::sampling::dist2;
use crate::sampling::inside;
use crate::sampling::PoissonDiscSampler;
use crate::terrain::ResourceKind;
use crate::terrain::TileKind;

verus! {

/// What stands on a tile.
#[derive(Clone, Copy, Debug, PartialEq, Eq, Hash, Structural)]
pub enum PropKind {
    Tree,
    DeadTree,
    Rock,
}

/// One prop of a chunk.
#[derive(Clone, Copy, Debug, PartialEq, Eq, Structural)]
pub struct Prop {
    /// The tile that bears the prop.
    pub tile_coord: UVec2,
    pub kind: PropKind,
    /// Where the prop stands, from the centre of the chunk.
    pub offset: IVec2,
    /// A random word by which a rock is turned; 0 for a tree.
    pub turn: u32,
}

/// What the tiles of a chunk are placed by.
#[derive(Clone, Copy, Debug, PartialEq, Eq, Structural)]
pub struct PropContext {
    /// The world seed.
    pub seed: u64,
    pub chunk_coord: IVec2,
    /// Tiles along the two sides of a chunk.
    pub size: UVec2,
    /// World units along the two sides of a tile.
    pub tile_size: UVec2,
}

/// What a tile bears, from its resource kind and its tile kind: nothing on
/// water, a tree on grass, a dead tree on barren land, a rock on either.
pub open spec fn prop_kind(resource: ResourceKind, tile: TileKind) -> Option<PropKind> {
    match (resource, tile) {
        (_, TileKind::Water) => None,
        (ResourceKind::Empty, _) => None,
        (ResourceKind::Tree, TileKind::Grass) => Some(PropKind::Tree),
        (ResourceKind::Tree, TileKind::Barren) => Some(PropKind::DeadTree),
        (ResourceKind::Rock, _) => Some(PropKind::Rock),
    }
}

/// What a tile bears, from its resource kind and its tile kind.
pub fn prop_of(resource: ResourceKind, tile: TileKind) -> (kind: Option<PropKind>)
    ensures
        kind == prop_kind(resource, tile),
{
    match (resource, tile) {
        (_, TileKind::Water) => None,
        (ResourceKind::Empty, _) => None,
        (ResourceKind::Tree, TileKind::Grass) => Some(PropKind::Tree),
        (ResourceKind::Tree, TileKind::Barren) => Some(PropKind::DeadTree),
        (ResourceKind::Rock, _) => Some(PropKind::Rock),
    }
}

impl PropKind {
    /// The least distance between two props of this kind on one tile.
    pub open spec fn spacing(self) -> u32 {
        match self {
            PropKind::Tree => 8,
            PropKind::DeadTree => 12,
            PropKind::Rock => 12,
        }
    }

    /// The least distance between two props of this kind on one tile.
    pub fn radius(&self) -> (radius: u32)
        ensures
            radius == self.spacing(),
    {
        match self {
            PropKind::Tree => 8,
            PropKind::DeadTree => 12,
            PropKind::Rock => 12,
        }
    }
}

impl PropContext {
    /// Whether props can be placed: chunks and tiles have sides longer than
    /// zero, the lattice points of a tile can be counted, a chunk is no
    /// wider than an `i32` holds, and the tiles of the chunk have global
    /// coordinates.
    pub open spec fn placeable(self) -> bool {
        &&& self.size.x >= 1
        &&& self.size.y >= 1
        &&& self.tile_size.x >= 1
        &&& self.tile_size.y >= 1
        &&& self.tile_size.x as int * self.tile_size.y as int <= usize::MAX
        &&& extent(self.size.x, self.tile_size.x) <= i32::MAX
        &&& extent(self.size.y, self.tile_size.y) <= i32::MAX
        &&& fits_i32(tile_to_global(0, self.chunk_coord.x as int, self.size.x))
        &&& fits_i32(tile_to_global(self.size.x as int, self.chunk_coord.x as int, self.size.x))
        &&& fits_i32(tile_to_global(0, self.chunk_coord.y as int, self.size.y))
        &&& fits_i32(tile_to_global(self.size.y as int, self.chunk_coord.y as int, self.size.y))
    }

    /// Whether props can be placed.
    pub fn can_place(&self) -> (b: bool)
        ensures
            b == self.placeable(),
    {
        if !(self.size.x >= 1 && self.size.y >= 1 && self.tile_size.x >= 1 && self.tile_size.y >= 1) {
            return false;
        }
        proof {
            let tx = self.tile_size.x as int;
            let ty = self.tile_size.y as int;
            let sx = self.size.x as int;
            let sy = self.size.y as int;
            assert(0 <= tx * ty <= 0xffff_ffff * 0xffff_ffff) by (nonlinear_arith)
                requires
                    0 <= tx <= 0xffff_ffff,
                    0 <= ty <= 0xffff_ffff,
            ;
            assert(0 <= sx * tx <= 0xffff_ffff * 0xffff_ffff) by (nonlinear_arith)
                requires
                    0 <= sx <= 0xffff_ffff,
                    0 <= tx <= 0xffff_ffff,
            ;
            assert(0 <= sy * ty <= 0xffff_ffff * 0xffff_ffff) by (nonlinear_arith)
                requires
                    0 <= sy <= 0xffff_ffff,
                    0 <= ty <= 0xffff_ffff,
            ;
        }
        let first = UVec2 { x: 0, y: 0 };
        self.tile_size.x as u64 * self.tile_size.y as u64 <= usize::MAX as u64 && self.size.x as u64
            * self.tile_size.x as u64 <= i32::MAX as u64 && self.size.y as u64 * self.tile_size.y as u64
            <= i32::MAX as u64 && has_global_coord(&first, &self.chunk_coord, &self.size)
            && has_global_coord(&self.size, &self.chunk_coord, &self.size)
    }

    /// The seed of a tile: the seed of its global coordinate.
    pub open spec fn tile_seed(self, tile_coord: UVec2) -> u64 {
        coord_seed(
            self.seed,
            IVec2 {
                x: tile_to_global(tile_coord.x as int, self.chunk_coord.x as int, self.size.x) as i32,
                y: tile_to_global(tile_coord.y as int, self.chunk_coord.y as int, self.size.y) as i32,
            },
        )
    }

    /// The sampler of the props of kind `kind` on a tile: it fills the tile,
    /// from the tile's negative corner, and tries 30 candidates.
    pub open spec fn tile_sampler(self, tile_coord: UVec2, kind: PropKind) -> PoissonDiscSampler {
        PoissonDiscSampler {
            seed: self.tile_seed(tile_coord),
            radius: kind.spacing(),
            size: self.tile_size,
            k: 30,
        }
    }

    /// The prop of kind `kind` at point `point` of a tile: it stands at the
    /// point, counted from the tile's negative corner, and a rock is turned
    /// by the word `turn`.
    pub open spec fn prop_at(self, tile_coord: UVec2, kind: PropKind, point: UVec2, turn: u32) -> Prop {
        Prop {
            tile_coord,
            kind,
            offset: IVec2 {
                x: (tile_to_world_off(tile_coord.x as int, self.size.x, self.tile_size.x) + point.x
                    - self.tile_size.x / 2) as i32,
                y: (tile_to_world_off(tile_coord.y as int, self.size.y, self.tile_size.y) + point.y
                    - self.tile_size.y / 2) as i32,
            },
            turn: if kind == PropKind::Rock {
                turn
            } else {
                0
            },
        }
    }

    /// The props of kind `kind` at the points `points` of a tile, in the
    /// order of the points; the rock at a point is turned by the word of
    /// `turns` that has the place of the point.
    pub open spec fn placed(
        self,
        tile_coord: UVec2,
        kind: PropKind,
        points: Seq<UVec2>,
        turns: Seq<u32>,
    ) -> Seq<Prop> {
        Seq::new(points.len(), |j: int| self.prop_at(tile_coord, kind, points[j], turns[j]))
    }

    /// The words by which the rocks of a tile are turned: the first `count`
    /// words of the stream of the tile's seed.
    pub open spec fn tile_turns(self, tile_coord: UVec2, count: nat) -> Seq<u32> {
        Seq::new(count, |j: int| chacha12_word(self.tile_seed(tile_coord), j as u64))
    }

    /// The negative corner of a tile, from the centre of the chunk.
    pub open spec fn tile_corner(self, tile_coord: UVec2) -> (int, int) {
        (
            tile_to_world_off(tile_coord.x as int, self.size.x, self.tile_size.x) - self.tile_size.x
                / 2,
            tile_to_world_off(tile_coord.y as int, self.size.y, self.tile_size.y) - self.tile_size.y
                / 2,
        )
    }

    /// Whether a prop of kind `kind` stands on the tile at `tile_coord`.
    pub open spec fn stands_on(self, prop: Prop, tile_coord: UVec2, kind: PropKind) -> bool {
        let corner = self.tile_corner(tile_coord);
        &&& prop.tile_coord == tile_coord
        &&& prop.kind == kind
        &&& corner.0 <= prop.offset.x < corner.0 + self.tile_size.x
        &&& corner.1 <= prop.offset.y < corner.1 + self.tile_size.y
    }

    /// The props of kind `kind` on a tile: they stand at the points of the
    /// tile's sampler, in the order of the points.
    pub open spec fn tile_props(self, tile_coord: UVec2, kind: PropKind) -> Seq<Prop> {
        let points = self.tile_sampler(tile_coord, kind).points();
        self.placed(tile_coord, kind, points, self.tile_turns(tile_coord, points.len()))
    }

    /// The tile coordinate of the tile at `index` of a row-major array.
    pub open spec fn tile_at(self, index: int) -> UVec2 {
        UVec2 { x: (index % self.size.x as int) as u32, y: (index / self.size.x as int) as u32 }
    }

    /// The props of the first `count` tiles of a chunk, tile after tile.
    pub open spec fn props_upto(self, tiles: Seq<TileKind>, resources: Seq<ResourceKind>, count: nat) -> Seq<
        Prop,
    >
        decreases count,
    {
        if count == 0 {
            Seq::empty()
        } else {
            let index = count - 1;
            let before = self.props_upto(tiles, resources, index as nat);
            match prop_kind(resources[index], tiles[index]) {
                Some(kind) => before + self.tile_props(self.tile_at(index), kind),
                None => before,
            }
        }
    }

    /// The props of kind `kind` at the points `points` of the tile at
    /// `tile_coord`, in the order of the points. The points are counted from
    /// the tile's negative corner; the rock at a point is turned by the word
    /// of `turns` that has the place of the point.
    pub fn place_points(&self, tile_coord: UVec2, kind: PropKind, points: &Vec<UVec2>, turns: &Vec<u32>) -> (props:
        Vec<Prop>)
        requires
            self.placeable(),
            tile_coord.x < self.size.x,
            tile_coord.y < self.size.y,
            inside(points@, self.tile_size),
            kind == PropKind::Rock ==> turns@.len() >= points@.len(),
        ensures
            props@ == self.placed(tile_coord, kind, points@, turns@),
            forall|i: int|
                0 <= i < props@.len() ==> self.stands_on(#[trigger] props@[i], tile_coord, kind),
            forall|i: int|
                0 <= i < props@.len() ==> (#[trigger] props@[i]).offset.x == self.tile_corner(
                    tile_coord,
                ).0 + points@[i].x && props@[i].offset.y == self.tile_corner(tile_coord).1
                    + points@[i].y,
    {
        proof {
            let sx = self.size.x as int;
            let sy = self.size.y as int;
            let tx = self.tile_size.x as int;
            let ty = self.tile_size.y as int;
            let cx = tile_coord.x as int;
            let cy = tile_coord.y as int;
            assert(-(sx * tx) <= (cx - sx / 2) * tx <= sx * tx - tx) by (nonlinear_arith)
                requires
                    0 <= cx < sx,
                    tx >= 1,
                    0 <= sx / 2 <= sx,
            ;
            assert(-(sy * ty) <= (cy - sy / 2) * ty <= sy * ty - ty) by (nonlinear_arith)
                requires
                    0 <= cy < sy,
                    ty >= 1,
                    0 <= sy / 2 <= sy,
            ;
        }
        let tile_offset = tile_coord_to_world_off(&tile_coord, &self.size, &self.tile_size);
        let mut props: Vec<Prop> = Vec::new();
        let mut j: usize = 0;
        while j < points.len()
            invariant
                self.placeable(),
                0 <= j <= points@.len(),
                inside(points@, self.tile_size),
                kind == PropKind::Rock ==> turns@.len() >= points@.len(),
                tile_offset.x == tile_to_world_off(
                    tile_coord.x as int,
                    self.size.x,
                    self.tile_size.x,
                ),
                tile_offset.y == tile_to_world_off(
                    tile_coord.y as int,
                    self.size.y,
                    self.tile_size.y,
                ),
                -extent(self.size.x, self.tile_size.x) <= tile_offset.x - self.tile_size.x / 2,
                -extent(self.size.y, self.tile_size.y) <= tile_offset.y - self.tile_size.y / 2,
                tile_offset.x - self.tile_size.x / 2 + self.tile_size.x <= extent(
                    self.size.x,
                    self.tile_size.x,
                ),
                tile_offset.y - self.tile_size.y / 2 + self.tile_size.y <= extent(
                    self.size.y,
                    self.tile_size.y,
                ),
                props@.len() == j,
                forall|i: int|
                    0 <= i < j ==> #[trigger] props@[i] == self.prop_at(
                        tile_coord,
                        kind,
                        points@[i],
                        turns@[i],
                    ),
                forall|i: int|
                    0 <= i < j ==> (#[trigger] props@[i]).offset.x == tile_offset.x
                        - self.tile_size.x / 2 + points@[i].x && props@[i].offset.y
                        == tile_offset.y - self.tile_size.y / 2 + points@[i].y && props@[i].tile_coord
                        == tile_coord && props@[i].kind == kind,
            decreases points@.len() - j,
        {
            let point = points[j];
            let x: i64 = tile_offset.x as i64 + point.x as i64 - (self.tile_size.x / 2) as i64;
            let y: i64 = tile_offset.y as i64 + point.y as i64 - (self.tile_size.y / 2) as i64;
            let turn: u32 = match kind {
                PropKind::Rock => turns[j],
                _ => 0,
            };
            props.push(
                Prop { tile_coord, kind, offset: IVec2 { x: x as i32, y: y as i32 }, turn },
            );
            j = j + 1;
        }
        props
    }

    /// The props of kind `kind` on the tile at `tile_coord`: at least one,
    /// all of them on the tile, and no two of them closer to each other
    /// than the spacing of the kind.
    pub fn place_on_tile(&self, tile_coord: UVec2, kind: PropKind) -> (props: Vec<Prop>)
        requires
            self.placeable(),
            tile_coord.x < self.size.x,
            tile_coord.y < self.size.y,
        ensures
            props@ == self.tile_props(tile_coord, kind),
            props@.len() >= 1,
            forall|i: int|
                0 <= i < props@.len() ==> self.stands_on(#[trigger] props@[i], tile_coord, kind),
            forall|i: int, j: int|
                0 <= i < props@.len() && 0 <= j < props@.len() && i != j ==> (
                #[trigger] props@[i]).offset.distance2((#[trigger] props@[j]).offset)
                    >= kind.spacing() * kind.spacing(),
    {
        let global_coord = tile_coord_to_global_coord(&tile_coord, &self.chunk_coord, &self.size);
        let tile_seed: u64 = seed_from_coord(self.seed, &global_coord);
        let sampler = PoissonDiscSampler::new(tile_seed).with_radius(kind.radius()).with_size(
            self.tile_size,
        ).with_k(30);
        let points = sampler.sample();
        let mut stream = WordStream::new(tile_seed);
        let mut turns: Vec<u32> = Vec::new();
        let mut j: usize = 0;
        while j < points.len()
            invariant
                0 <= j <= points@.len(),
                stream.seed() == tile_seed,
                stream.position() == j,
                turns@.len() == j,
                forall|i: int| 0 <= i < j ==> turns@[i] == chacha12_word(tile_seed, i as u64),
            decreases points@.len() - j,
        {
            let word: u32 = stream.next_word();
            turns.push(word);
            j = j + 1;
        }
        let props = self.place_points(tile_coord, kind, &points, &turns);
        proof {
            assert(turns@ =~= self.tile_turns(tile_coord, points@.len()));
            let radius = kind.spacing();
            assert forall|i: int, j: int|
                0 <= i < props@.len() && 0 <= j < props@.len() && i != j implies (
            #[trigger] props@[i]).offset.distance2((#[trigger] props@[j]).offset) >= radius
                * radius by {
                let a = points@[i];
                let b = points@[j];
                assert(dist2(a.x as int, a.y as int, b.x as int, b.y as int) >= radius * radius);
                assert(props@[i].offset.x - props@[j].offset.x == a.x - b.x);
                assert(props@[i].offset.y - props@[j].offset.y == a.y - b.y);
            }
        }
        props
    }
}

/// The props of a chunk, from its tile kinds and its resource kinds, tile
/// after tile in the order of the arrays.
pub fn handle_chunks_resources(context: &PropContext, tiles: &Vec<TileKind>, resources: &Vec<ResourceKind>) -> (props:
    Vec<Prop>)
    requires
        context.placeable(),
        tiles@.len() == context.size.x as int * context.size.y as int,
        resources@.len() == tiles@.len(),
    ensures
        props@ == context.props_upto(tiles@, resources@, tiles@.len()),
{
    let mut props: Vec<Prop> = Vec::new();
    let mut index: usize = 0;
    while index < tiles.len()
        invariant
            context.placeable(),
            tiles@.len() == context.size.x as int * context.size.y as int,
            resources@.len() == tiles@.len(),
            0 <= index <= tiles@.len(),
            props@ == context.props_upto(tiles@, resources@, index as nat),
        decreases tiles@.len() - index,
    {
        match prop_of(resources[index], tiles[index]) {
            Some(kind) => {
                proof {
                    let w = context.size.x as int;
                    let h = context.size.y as int;
                    let i = index as int;
                    lemma_fundamental_div_mod(i, w);
                    lemma_mod_bound(i, w);
                    assert(0 <= i / w < h) by (nonlinear_arith)
                        requires
                            i == w * (i / w) + i % w,
                            0 <= i % w < w,
                            0 <= i < w * h,
                            w >= 1,
                    ;
                }
                let tile_coord = index_to_tile_coord(index, &context.size);
                let mut more = context.place_on_tile(tile_coord, kind);
                props.append(&mut more);
            },
            None => {},
        }
        index = index + 1;
    }
    props
}

} // verus!
