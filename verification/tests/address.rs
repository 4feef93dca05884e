use asteroid_field::address::{
    address_to_translation, intersecting, translation_to_address, MapAddress, Translation,
};

fn position(x: i64, y: i64, z: i64) -> Translation {
    Translation { x, y, z }
}

fn cell(x: i32, y: i32, z: i32) -> MapAddress {
    MapAddress { x, y, z }
}

#[test]
fn address_of_positive_position_rounds_down() {
    assert_eq!(translation_to_address(position(0, 4, 5), 5), cell(0, 0, 1));
    assert_eq!(translation_to_address(position(9, 10, 14), 5), cell(1, 2, 2));
}

#[test]
fn address_of_negative_position_rounds_toward_negative_infinity() {
    assert_eq!(translation_to_address(position(-1, -5, -6), 5), cell(-1, -1, -2));
    assert_eq!(translation_to_address(position(-10, -11, -4), 5), cell(-2, -3, -1));
}

#[test]
fn address_with_unit_scale_is_the_position() {
    assert_eq!(translation_to_address(position(-7, 0, 7), 1), cell(-7, 0, 7));
}

#[test]
fn address_is_held_to_the_coordinate_range() {
    assert_eq!(
        translation_to_address(position(i64::MAX, i64::MIN, 0), 1),
        cell(i32::MAX, i32::MIN, 0)
    );
    assert_eq!(
        translation_to_address(position(i64::MAX, i64::MIN, -1), i32::MAX),
        cell(i32::MAX, i32::MIN, -1)
    );
    assert_eq!(
        translation_to_address(position(i32::MAX as i64 + 1, i32::MIN as i64 - 1, 0), 1),
        cell(i32::MAX, i32::MIN, 0)
    );
}

#[test]
fn translation_of_address_is_the_minimum_corner() {
    assert_eq!(address_to_translation(cell(1, -2, 3), 5), position(5, -10, 15));
    assert_eq!(address_to_translation(cell(0, 0, 0), 7), position(0, 0, 0));
}

#[test]
fn translation_of_extreme_address_does_not_overflow() {
    assert_eq!(
        address_to_translation(cell(i32::MAX, i32::MIN, -1), i32::MAX),
        position(
            i32::MAX as i64 * i32::MAX as i64,
            i32::MIN as i64 * i32::MAX as i64,
            -(i32::MAX as i64)
        )
    );
}

#[test]
fn address_round_trips_through_translation() {
    for scale in [1, 2, 5, 17, i32::MAX] {
        for x in [i32::MIN, -1024, -3, -1, 0, 1, 2, 1024, i32::MAX] {
            let address = cell(x, -x.saturating_add(1), x / 2);
            assert_eq!(
                translation_to_address(address_to_translation(address, scale), scale),
                address
            );
        }
    }
}

#[test]
fn every_position_of_a_cell_maps_to_the_cell() {
    let scale = 5;
    let address = cell(-3, 0, 2);
    let corner = address_to_translation(address, scale);
    for dx in 0..5 {
        for dy in 0..5 {
            let inside = position(corner.x + dx, corner.y + dy, corner.z + 4);
            assert_eq!(translation_to_address(inside, scale), address);
        }
    }
    assert_ne!(
        translation_to_address(position(corner.x + 5, corner.y, corner.z), scale),
        address
    );
    assert_ne!(
        translation_to_address(position(corner.x - 1, corner.y, corner.z), scale),
        address
    );
}

#[test]
fn intersecting_is_strict_on_both_sides() {
    let center = cell(0, 0, 0);
    assert!(intersecting(&cell(1, 1, 1), &center, &2));
    assert!(intersecting(&cell(-1, -1, -1), &center, &2));
    assert!(intersecting(&cell(0, 0, 0), &center, &2));
    assert!(!intersecting(&cell(2, 0, 0), &center, &2));
    assert!(!intersecting(&cell(-2, 0, 0), &center, &2));
    assert!(!intersecting(&cell(0, 2, 0), &center, &2));
    assert!(!intersecting(&cell(0, -2, 0), &center, &2));
    assert!(!intersecting(&cell(0, 0, 2), &center, &2));
    assert!(!intersecting(&cell(0, 0, -2), &center, &2));
}

#[test]
fn intersecting_needs_all_three_axes() {
    let center = cell(10, -10, 4);
    assert!(intersecting(&cell(11, -11, 5), &center, &2));
    assert!(!intersecting(&cell(12, -11, 5), &center, &2));
    assert!(!intersecting(&cell(11, -12, 5), &center, &2));
    assert!(!intersecting(&cell(11, -11, 6), &center, &2));
}

#[test]
fn intersecting_with_radius_one_holds_the_centre_only() {
    let center = cell(3, 3, 3);
    assert!(intersecting(&center, &center, &1));
    assert!(!intersecting(&cell(4, 3, 3), &center, &1));
    assert!(!intersecting(&cell(2, 3, 3), &center, &1));
}

#[test]
fn intersecting_with_no_radius_holds_nothing() {
    let center = cell(3, 3, 3);
    assert!(!intersecting(&center, &center, &0));
    assert!(!intersecting(&center, &center, &-4));
}

#[test]
fn intersecting_at_the_ends_of_the_range() {
    let top = cell(i32::MAX, i32::MAX, i32::MAX);
    let bottom = cell(i32::MIN, i32::MIN, i32::MIN);
    assert!(intersecting(&top, &top, &i32::MAX));
    assert!(intersecting(&bottom, &bottom, &1));
    assert!(!intersecting(&top, &bottom, &i32::MAX));
    assert!(!intersecting(&bottom, &top, &i32::MAX));
}
