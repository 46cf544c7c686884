//! The rules of building: what a building costs, where it may stand, and
//! which resource within its reach it gathers next.

use vstd::prelude::*;
use crate::coords::IVec2;
use crate::coords::UVec2;
use crate::terrain::ResourceKind;
use crate::terrain::TileKind;

verus! {

/// What a building costs.
pub const BUILDING_COST: u32 = 5;

/// How far a building reaches, in tiles.
pub const BUILDING_RADIUS: u32 = 16;

/// The kinds of buildings.
#[derive(Clone, Copy, Debug, PartialEq, Eq, Hash, Structural)]
pub enum BuildingKind {
    LumberMill,
    StoneQuarry,
}

impl Default for BuildingKind {
    fn default() -> (kind: BuildingKind)
        ensures
            kind == BuildingKind::LumberMill,
    {
        BuildingKind::LumberMill
    }
}

impl BuildingKind {
    /// The resource that a building of this kind gathers.
    pub open spec fn gathers(self) -> ResourceKind {
        match self {
            BuildingKind::LumberMill => ResourceKind::Tree,
            BuildingKind::StoneQuarry => ResourceKind::Rock,
        }
    }

    /// The resource that a building of this kind gathers.
    pub fn resource(&self) -> (kind: ResourceKind)
        ensures
            kind == self.gathers(),
    {
        match self {
            BuildingKind::LumberMill => ResourceKind::Tree,
            BuildingKind::StoneQuarry => ResourceKind::Rock,
        }
    }
}

/// Whether a building may be placed on a tile: nothing stands on the tile,
/// the tile is not water, and the stock pays for the building.
pub fn check_building_tool_valid(blocked: bool, tile: TileKind, resource_count: u32) -> (valid: bool)
    ensures
        valid == (!blocked && tile != TileKind::Water && resource_count >= BUILDING_COST),
{
    let is_water = match tile {
        TileKind::Water => true,
        _ => false,
    };
    let has_resources = resource_count >= BUILDING_COST;
    !blocked && !is_water && has_resources
}

/// How far a building reaches, in world units: its radius in tiles times
/// the longer side of a tile.
pub open spec fn reach(tile_size: UVec2) -> int {
    BUILDING_RADIUS * if tile_size.x >= tile_size.y {
        tile_size.x as int
    } else {
        tile_size.y as int
    }
}

fn distance2_of(a: &IVec2, b: &IVec2) -> (d: u128)
    ensures
        d == a.distance2(*b),
{
    let dx: i128 = a.x as i128 - b.x as i128;
    let dy: i128 = a.y as i128 - b.y as i128;
    proof {
        assert(0 <= dx * dx <= 0x1_0000_0000 * 0x1_0000_0000) by (nonlinear_arith)
            requires
                -0x1_0000_0000 <= dx <= 0x1_0000_0000,
        ;
        assert(0 <= dy * dy <= 0x1_0000_0000 * 0x1_0000_0000) by (nonlinear_arith)
            requires
                -0x1_0000_0000 <= dy <= 0x1_0000_0000,
        ;
    }
    (dx * dx + dy * dy) as u128
}

/// Whether `index` names the resource that a building at `origin` gathers
/// next: the first of the nearest of `positions`, which has to lie nearer
/// than the reach of the building.
pub open spec fn is_next(origin: IVec2, positions: Seq<IVec2>, tile_size: UVec2, index: int) -> bool {
    &&& 0 <= index < positions.len()
    &&& origin.distance2(positions[index]) < reach(tile_size) * reach(tile_size)
    &&& forall|i: int|
        0 <= i < positions.len() ==> origin.distance2(positions[index]) <= origin.distance2(#[trigger] positions[i])
    &&& forall|i: int|
        0 <= i < index ==> origin.distance2(positions[index]) < origin.distance2(#[trigger] positions[i])
}

/// The resource that a building at `origin` gathers next, among the
/// resources of its kind at `positions`: the nearest one, the first of them
/// where several are as near, if it lies nearer than the reach of the
/// building. `None` means that no resource is within reach.
pub fn building_increase_resource_count(origin: &IVec2, positions: &Vec<IVec2>, tile_size: &UVec2) -> (next:
    Option<usize>)
    ensures
        match next {
            Some(index) => is_next(*origin, positions@, *tile_size, index as int),
            None => forall|i: int|
                0 <= i < positions@.len() ==> origin.distance2(#[trigger] positions@[i])
                    >= reach(*tile_size) * reach(*tile_size),
        },
{
    let side: u128 = if tile_size.x >= tile_size.y {
        tile_size.x as u128
    } else {
        tile_size.y as u128
    };
    assert(BUILDING_RADIUS == 16);
    let far: u128 = BUILDING_RADIUS as u128 * side;
    proof {
        assert(far == 16 * side);
        assert(0 <= far * far <= 0x10_0000_0000 * 0x10_0000_0000) by (nonlinear_arith)
            requires
                0 <= far <= 0x10_0000_0000,
        ;
    }
    let limit: u128 = far * far;
    let mut best: Option<usize> = None;
    let mut best_distance: u128 = 0;
    let mut i: usize = 0;
    while i < positions.len()
        invariant
            0 <= i <= positions@.len(),
            limit == reach(*tile_size) * reach(*tile_size),
            match best {
                Some(index) => {
                    &&& 0 <= index < i
                    &&& best_distance == origin.distance2(positions@[index as int])
                    &&& forall|j: int|
                        0 <= j < i ==> best_distance <= origin.distance2(#[trigger] positions@[j])
                    &&& forall|j: int|
                        0 <= j < index ==> best_distance < origin.distance2(#[trigger] positions@[j])
                },
                None => i == 0,
            },
        decreases positions@.len() - i,
    {
        let d: u128 = distance2_of(origin, &positions[i]);
        let better = match best {
            Some(_) => d < best_distance,
            None => true,
        };
        if better {
            best = Some(i);
            best_distance = d;
        }
        i = i + 1;
    }
    match best {
        Some(index) => {
            if best_distance < limit {
                Some(index)
            } else {
                None
            }
        },
        None => None,
    }
}

} // verus!
