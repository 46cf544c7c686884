use lethal_empire::building::{
    building_increase_resource_count, check_building_tool_valid, BuildingKind, BUILDING_COST,
    BUILDING_RADIUS,
};
use lethal_empire::coords::{IVec2, UVec2};
use lethal_empire::quota::{
    can_update_quota, update_quota, QuotaOutcome, QUOTA_GROWTH, QUOTA_INITIAL, QUOTA_TIME, RESOURCE_INITIAL,
};
use lethal_empire::terrain::{ResourceKind, TileKind};

#[test]
fn quota_constants() {
    assert_eq!(QUOTA_TIME, 600);
    assert_eq!(QUOTA_INITIAL, 10);
    assert_eq!(RESOURCE_INITIAL, 5);
    assert_eq!(QUOTA_GROWTH, 5);
    assert_eq!(BUILDING_COST, 5);
    assert_eq!(BUILDING_RADIUS, 16);
}

#[test]
fn a_stock_below_the_quota_fails_and_keeps_everything() {
    assert_eq!(
        update_quota(RESOURCE_INITIAL, QUOTA_INITIAL),
        QuotaOutcome { resource_count: 5, quota: 10, success: false }
    );
    assert_eq!(
        update_quota(9, 10),
        QuotaOutcome { resource_count: 9, quota: 10, success: false }
    );
    // A quota that can no longer grow can still be missed.
    assert_eq!(
        update_quota(0, u32::MAX),
        QuotaOutcome { resource_count: 0, quota: u32::MAX, success: false }
    );
}

#[test]
fn a_met_quota_is_paid_and_grows_fivefold() {
    assert_eq!(
        update_quota(10, 10),
        QuotaOutcome { resource_count: 0, quota: 50, success: true }
    );
    assert_eq!(
        update_quota(73, 50),
        QuotaOutcome { resource_count: 23, quota: 250, success: true }
    );
    assert_eq!(update_quota(3, 0), QuotaOutcome { resource_count: 3, quota: 0, success: true });
}

#[test]
fn building_kinds_gather_their_resource() {
    assert_eq!(BuildingKind::default(), BuildingKind::LumberMill);
    assert_eq!(BuildingKind::LumberMill.resource(), ResourceKind::Tree);
    assert_eq!(BuildingKind::StoneQuarry.resource(), ResourceKind::Rock);
}

#[test]
fn where_a_building_may_stand() {
    assert!(check_building_tool_valid(false, TileKind::Grass, 5));
    assert!(check_building_tool_valid(false, TileKind::Barren, 100));
    assert!(!check_building_tool_valid(true, TileKind::Grass, 5));
    assert!(!check_building_tool_valid(false, TileKind::Water, 5));
    assert!(!check_building_tool_valid(false, TileKind::Grass, 4));
    assert!(!check_building_tool_valid(true, TileKind::Water, 0));
}

#[test]
fn the_nearest_resource_within_reach_is_gathered() {
    let tile_size = UVec2::new(16, 16);
    let origin = IVec2::new(8, 8);
    let positions = vec![
        IVec2::new(200, 8),
        IVec2::new(8, -100),
        IVec2::new(-92, 8),
        IVec2::new(8, 108),
        IVec2::new(1000, 1000),
    ];
    // Three positions are 100 away; the first of them is taken.
    assert_eq!(building_increase_resource_count(&origin, &positions, &tile_size), Some(2));
    assert_eq!(building_increase_resource_count(&origin, &positions[..2].to_vec(), &tile_size), Some(1));
    assert_eq!(building_increase_resource_count(&origin, &Vec::new(), &tile_size), None);
}

#[test]
fn the_reach_is_sixteen_tiles_of_the_longer_side() {
    let origin = IVec2::new(0, 0);
    // 16 tiles of 16 units: 256 units, not included.
    let tile_size = UVec2::new(16, 4);
    assert_eq!(
        building_increase_resource_count(&origin, &vec![IVec2::new(255, 0)], &tile_size),
        Some(0)
    );
    assert_eq!(
        building_increase_resource_count(&origin, &vec![IVec2::new(256, 0)], &tile_size),
        None
    );
    assert_eq!(
        building_increase_resource_count(&origin, &vec![IVec2::new(-182, 181)], &tile_size),
        None
    );
    assert_eq!(
        building_increase_resource_count(&origin, &vec![IVec2::new(-181, 181)], &tile_size),
        Some(0)
    );
    let far = vec![IVec2::new(i32::MAX, i32::MIN)];
    assert_eq!(building_increase_resource_count(&IVec2::new(i32::MIN, i32::MAX), &far, &tile_size), None);
}

#[test]
fn when_the_quota_can_be_settled() {
    assert!(can_update_quota(5, 10));
    assert!(can_update_quota(10, 10));
    assert!(can_update_quota(0, u32::MAX));
    assert!(can_update_quota(u32::MAX, 858_993_459));
    assert!(!can_update_quota(u32::MAX, 858_993_460));
    assert_eq!(
        update_quota(u32::MAX, 858_993_459),
        QuotaOutcome { resource_count: u32::MAX - 858_993_459, quota: u32::MAX, success: true }
    );
}
